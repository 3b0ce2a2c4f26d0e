//! Path rules for gathering files into the output tree: splitting a
//! host-convention relative path into segments, dropping configured
//! segments (such as a build-configuration folder name), and rendering
//! the destination-relative path with forward slashes only.
//!
//! The collector's per-file decisions live here as well: which names
//! count as library artifacts, which as headers, and what destination a
//! copied file receives.  The directory traversal and the copying
//! themselves are left to the caller, which hands each discovered file's
//! source-root-relative path to these functions.

use vstd::prelude::*;

use crate::text::chars_of;
use crate::text::spec_ends_with;
use crate::text::str_ends_with;

verus! {

/// A path separator of either host convention.
pub open spec fn is_separator(c: char) -> bool {
    c == '/' || c == '\\'
}

fn separator(c: char) -> (r: bool)
    ensures
        r == is_separator(c),
{
    c == '/' || c == '\\'
}

/// First position at or after `i` holding a separator, or the end.
pub open spec fn after_segment(t: Seq<char>, i: int) -> int
    decreases t.len() - i
        when 0 <= i <= t.len()
{
    if i < t.len() && !is_separator(t[i]) {
        after_segment(t, i + 1)
    } else {
        i
    }
}

pub proof fn lemma_after_segment(t: Seq<char>, i: int)
    requires
        0 <= i <= t.len(),
    ensures
        i <= after_segment(t, i) <= t.len(),
        forall|k: int| i <= k < after_segment(t, i) ==> !is_separator(t[k]),
        after_segment(t, i) < t.len() ==> is_separator(t[after_segment(t, i)]),
    decreases t.len() - i,
{
    if i < t.len() && !is_separator(t[i]) {
        lemma_after_segment(t, i + 1);
    }
}

/// On a separator-free stretch that ends at `j` (the end of the text or
/// a separator), the scan stops exactly at `j`.
proof fn lemma_after_segment_run(t: Seq<char>, i: int, j: int)
    requires
        0 <= i <= j <= t.len(),
        forall|k: int| i <= k < j ==> !is_separator(t[k]),
        j < t.len() ==> is_separator(t[j]),
    ensures
        after_segment(t, i) == j,
    decreases j - i,
{
    if i < j {
        lemma_after_segment_run(t, i + 1, j);
    }
}

/// The segments of a path text at or after `i`: maximal nonempty runs of
/// non-separator characters.  Empty runs (doubled separators, leading or
/// trailing separators) yield no segment.
pub open spec fn split_segments_from(t: Seq<char>, i: int) -> Seq<Seq<char>>
    decreases t.len() - i
        when 0 <= i <= t.len()
{
    if i >= t.len() {
        Seq::empty()
    } else if is_separator(t[i]) {
        split_segments_from(t, i + 1)
    } else {
        let e = after_segment(t, i);
        proof {
            lemma_after_segment(t, i);
        }
        seq![t.subrange(i, e)] + split_segments_from(t, e)
    }
}

/// The segments of a path text.
pub open spec fn split_segments(t: Seq<char>) -> Seq<Seq<char>> {
    split_segments_from(t, 0)
}

/// The segments not named in the strip set, in order.
pub open spec fn strip_filtered(segs: Seq<Seq<char>>, strip: Seq<Seq<char>>) -> Seq<Seq<char>>
    decreases segs.len(),
{
    if segs.len() == 0 {
        Seq::empty()
    } else if strip.contains(segs[0]) {
        strip_filtered(segs.drop_first(), strip)
    } else {
        seq![segs[0]] + strip_filtered(segs.drop_first(), strip)
    }
}

/// Segments joined with forward slashes.
pub open spec fn joined_with_slashes(segs: Seq<Seq<char>>) -> Seq<char>
    decreases segs.len(),
{
    if segs.len() == 0 {
        Seq::empty()
    } else if segs.len() == 1 {
        segs[0]
    } else {
        segs[0] + seq!['/'] + joined_with_slashes(segs.drop_first())
    }
}

/// The destination-relative path a source-relative path maps to: its
/// segments, less those named in the strip set, joined with forward
/// slashes.
pub open spec fn spec_destination(t: Seq<char>, strip: Seq<Seq<char>>) -> Seq<char> {
    joined_with_slashes(strip_filtered(split_segments(t), strip))
}

fn segment_end(t: &Vec<char>, i: usize) -> (j: usize)
    requires
        i <= t@.len(),
    ensures
        j == after_segment(t@, i as int),
        i <= j <= t@.len(),
{
    let n: usize = t.len();
    let mut j: usize = i;
    while j < n && !separator(t[j])
        invariant
            i <= j <= n,
            n == t@.len(),
            after_segment(t@, i as int) == after_segment(t@, j as int),
        decreases n - j,
    {
        j = j + 1;
    }
    j
}

/// Splits a relative path on either separator convention into its
/// nonempty segments.
pub fn split_path_segments(path: &str) -> (segs: Vec<String>)
    ensures
        segs.deep_view() == split_segments(path@),
{
    let t: Vec<char> = chars_of(path);
    let n: usize = t.len();
    let mut segs: Vec<String> = Vec::new();
    let mut i: usize = 0;
    proof {
        assert(segs.deep_view() =~= Seq::<Seq<char>>::empty());
    }
    while i < n
        invariant
            i <= n,
            n == t@.len(),
            t@ == path@,
            split_segments(path@) =~= segs.deep_view() + split_segments_from(path@, i as int),
        decreases n - i,
    {
        if separator(t[i]) {
            proof {
                assert(split_segments_from(path@, i as int) == split_segments_from(
                    path@,
                    i + 1 as int,
                ));
            }
            i = i + 1;
        } else {
            let e: usize = segment_end(&t, i);
            proof {
                lemma_after_segment(path@, i as int);
                assert(e > i);
            }
            let ghost prev = segs.deep_view();
            let s: String = path.substring_char(i, e).to_owned();
            segs.push(s);
            proof {
                let seg = path@.subrange(i as int, e as int);
                assert(segs.deep_view() =~= prev + seq![seg]);
                assert(split_segments_from(path@, i as int) == seq![seg]
                    + split_segments_from(path@, e as int));
                assert((prev + seq![seg]) + split_segments_from(path@, e as int) =~= prev + (
                seq![seg] + split_segments_from(path@, e as int)));
            }
            i = e;
        }
    }
    proof {
        assert(split_segments_from(path@, i as int) =~= Seq::<Seq<char>>::empty());
        assert(segs.deep_view() + split_segments_from(path@, i as int) =~= segs.deep_view());
    }
    segs
}

/// Whether `name` equals one of the strings in `set`.
fn string_in_set(name: &String, set: &Vec<String>) -> (r: bool)
    ensures
        r == set.deep_view().contains(name@),
{
    let n: usize = set.len();
    let mut j: usize = 0;
    while j < n
        invariant
            j <= n,
            n == set@.len(),
            forall|k: int| 0 <= k < j ==> set.deep_view()[k] != name@,
        decreases n - j,
    {
        if name.eq(&set[j]) {
            proof {
                assert(set.deep_view()[j as int] == name@);
            }
            return true;
        }
        j = j + 1;
    }
    proof {
        assert(forall|k: int| 0 <= k < set.deep_view().len() ==> set.deep_view()[k] != name@);
    }
    false
}

/// Drops every segment named in the strip set, keeping the rest in
/// order.
pub fn strip_segments(segs: &Vec<String>, strip: &Vec<String>) -> (out: Vec<String>)
    ensures
        out.deep_view() == strip_filtered(segs.deep_view(), strip.deep_view()),
{
    let n: usize = segs.len();
    let mut out: Vec<String> = Vec::new();
    let mut i: usize = 0;
    proof {
        assert(out.deep_view() =~= Seq::<Seq<char>>::empty());
        assert(segs.deep_view().skip(0) =~= segs.deep_view());
    }
    while i < n
        invariant
            i <= n,
            n == segs@.len(),
            strip_filtered(segs.deep_view(), strip.deep_view()) =~= out.deep_view()
                + strip_filtered(segs.deep_view().skip(i as int), strip.deep_view()),
        decreases n - i,
    {
        let ghost rest = segs.deep_view().skip(i as int);
        proof {
            assert(rest.len() > 0);
            assert(rest[0] == segs.deep_view()[i as int]);
            assert(rest.drop_first() =~= segs.deep_view().skip(i + 1 as int));
        }
        let keep: bool = !string_in_set(&segs[i], strip);
        if keep {
            let ghost prev = out.deep_view();
            out.push(segs[i].clone());
            proof {
                let seg = segs.deep_view()[i as int];
                assert(out.deep_view() =~= prev + seq![seg]);
                assert(strip_filtered(rest, strip.deep_view()) == seq![seg] + strip_filtered(
                    rest.drop_first(),
                    strip.deep_view(),
                ));
                assert((prev + seq![seg]) + strip_filtered(rest.drop_first(), strip.deep_view())
                    =~= prev + (seq![seg] + strip_filtered(rest.drop_first(), strip.deep_view())));
            }
        } else {
            proof {
                assert(strip_filtered(rest, strip.deep_view()) == strip_filtered(
                    rest.drop_first(),
                    strip.deep_view(),
                ));
            }
        }
        i = i + 1;
    }
    proof {
        assert(segs.deep_view().skip(n as int) =~= Seq::<Seq<char>>::empty());
        assert(out.deep_view() + strip_filtered(segs.deep_view().skip(n as int), strip.deep_view())
            =~= out.deep_view());
    }
    out
}

/// Joins the segments from index `i` on with forward slashes.
fn join_from(segs: &Vec<String>, i: usize) -> (out: String)
    requires
        i <= segs@.len(),
    ensures
        out@ == joined_with_slashes(segs.deep_view().skip(i as int)),
    decreases segs@.len() - i,
{
    let n: usize = segs.len();
    if i >= n {
        proof {
            assert(segs.deep_view().skip(i as int) =~= Seq::<Seq<char>>::empty());
        }
        String::new()
    } else if i == n - 1 {
        proof {
            let rest = segs.deep_view().skip(i as int);
            assert(rest.len() == 1);
            assert(rest[0] == segs.deep_view()[i as int]);
        }
        segs[i].clone()
    } else {
        let mut out: String = segs[i].clone();
        out.append("/");
        let tail: String = join_from(segs, i + 1);
        out.append(tail.as_str());
        proof {
            reveal_strlit("/");
            let rest = segs.deep_view().skip(i as int);
            assert(rest.len() >= 2);
            assert(rest[0] == segs.deep_view()[i as int]);
            assert(rest.drop_first() =~= segs.deep_view().skip(i + 1 as int));
            assert("/"@ =~= seq!['/']);
            assert(out@ =~= rest[0] + seq!['/'] + joined_with_slashes(rest.drop_first()));
        }
        out
    }
}

/// Joins segments with forward slashes.
pub fn join_segments(segs: &Vec<String>) -> (out: String)
    ensures
        out@ == joined_with_slashes(segs.deep_view()),
{
    let out: String = join_from(segs, 0);
    proof {
        assert(segs.deep_view().skip(0) =~= segs.deep_view());
    }
    out
}

/// A character-for-character rendering of a path with forward slashes:
/// every backslash becomes a forward slash and nothing else changes.
pub open spec fn spec_forward_slashed(t: Seq<char>) -> Seq<char> {
    Seq::new(t.len(), |i: int| if t[i] == '\\' { '/' } else { t[i] })
}

/// Replaces every backslash with a forward slash.
pub fn normalize_separators(s: &str) -> (out: String)
    ensures
        out@ == spec_forward_slashed(s@),
{
    let t: Vec<char> = chars_of(s);
    let n: usize = t.len();
    let mut out: String = String::new();
    let mut i: usize = 0;
    while i < n
        invariant
            i <= n,
            n == t@.len(),
            t@ == s@,
            out@ =~= spec_forward_slashed(s@).subrange(0, i as int),
        decreases n - i,
    {
        if t[i] == '\\' {
            out.append("/");
            proof {
                reveal_strlit("/");
                assert(out@ =~= spec_forward_slashed(s@).subrange(0, i + 1 as int));
            }
        } else {
            let piece: &str = s.substring_char(i, i + 1);
            out.append(piece);
            proof {
                assert(piece@ =~= seq![s@[i as int]]);
                assert(out@ =~= spec_forward_slashed(s@).subrange(0, i + 1 as int));
            }
        }
        i = i + 1;
    }
    proof {
        assert(spec_forward_slashed(s@).subrange(0, n as int) =~= spec_forward_slashed(s@));
    }
    out
}

/// The destination-relative path for a copied file.
pub fn destination_rel_path(rel_path: &str, strip: &Vec<String>) -> (out: String)
    ensures
        out@ == spec_destination(rel_path@, strip.deep_view()),
{
    let segs: Vec<String> = split_path_segments(rel_path);
    let kept: Vec<String> = strip_segments(&segs, strip);
    join_segments(&kept)
}

/// No character of the text is a separator.
pub open spec fn separator_free(s: Seq<char>) -> bool {
    forall|k: int| 0 <= k < s.len() ==> !is_separator(s[k])
}

/// No character of the text is a backslash.
pub open spec fn has_no_backslash(s: Seq<char>) -> bool {
    forall|k: int| 0 <= k < s.len() ==> s[k] != '\\'
}

proof fn lemma_split_segments_from_wf(t: Seq<char>, i: int)
    requires
        0 <= i <= t.len(),
    ensures
        forall|j: int|
            0 <= j < split_segments_from(t, i).len() ==> (#[trigger] split_segments_from(t, i)[j]).len()
                > 0 && separator_free(split_segments_from(t, i)[j]),
    decreases t.len() - i,
{
    if i >= t.len() {
    } else if is_separator(t[i]) {
        lemma_split_segments_from_wf(t, i + 1);
        assert(split_segments_from(t, i) == split_segments_from(t, i + 1));
    } else {
        let e = after_segment(t, i);
        lemma_after_segment(t, i);
        lemma_split_segments_from_wf(t, e);
        let seg = t.subrange(i, e);
        let whole = split_segments_from(t, i);
        assert(whole == seq![seg] + split_segments_from(t, e));
        assert(e > i);
        assert forall|j: int| 0 <= j < whole.len() implies (#[trigger] whole[j]).len() > 0
            && separator_free(whole[j]) by {
            if j == 0 {
                assert(whole[0] == seg);
                assert(separator_free(seg));
            } else {
                assert(whole[j] == split_segments_from(t, e)[j - 1]);
            }
        }
    }
}

/// Every segment a path splits into is nonempty and separator-free.
pub proof fn lemma_split_segments_wf(t: Seq<char>)
    ensures
        forall|j: int|
            0 <= j < split_segments(t).len() ==> (#[trigger] split_segments(t)[j]).len() > 0
                && separator_free(split_segments(t)[j]),
{
    lemma_split_segments_from_wf(t, 0);
}

/// Every filtered segment is one of the original segments and is not in
/// the strip set.
pub proof fn lemma_strip_filtered_membership(segs: Seq<Seq<char>>, strip: Seq<Seq<char>>)
    ensures
        forall|j: int|
            0 <= j < strip_filtered(segs, strip).len() ==> segs.contains(
                #[trigger] strip_filtered(segs, strip)[j],
            ) && !strip.contains(strip_filtered(segs, strip)[j]),
    decreases segs.len(),
{
    if segs.len() == 0 {
    } else {
        let rest = segs.drop_first();
        lemma_strip_filtered_membership(rest, strip);
        let out = strip_filtered(segs, strip);
        assert forall|j: int| 0 <= j < out.len() implies segs.contains(#[trigger] out[j])
            && !strip.contains(out[j]) by {
            if strip.contains(segs[0]) {
                assert(out == strip_filtered(rest, strip));
                assert(rest.contains(out[j]) && !strip.contains(out[j]));
                let w = choose|w: int| 0 <= w < rest.len() && rest[w] == out[j];
                assert(segs[w + 1] == rest[w]);
            } else {
                assert(out == seq![segs[0]] + strip_filtered(rest, strip));
                if j == 0 {
                    assert(out[0] == segs[0]);
                    assert(segs.contains(segs[0]));
                } else {
                    assert(out[j] == strip_filtered(rest, strip)[j - 1]);
                    assert(rest.contains(out[j]) && !strip.contains(out[j]));
                    let w = choose|w: int| 0 <= w < rest.len() && rest[w] == out[j];
                    assert(segs[w + 1] == rest[w]);
                }
            }
        }
    }
}

proof fn lemma_joined_no_backslash(segs: Seq<Seq<char>>)
    requires
        forall|j: int| 0 <= j < segs.len() ==> separator_free(#[trigger] segs[j]),
    ensures
        has_no_backslash(joined_with_slashes(segs)),
    decreases segs.len(),
{
    if segs.len() == 0 {
    } else if segs.len() == 1 {
        assert(separator_free(segs[0]));
        assert(forall|k: int|
            0 <= k < joined_with_slashes(segs).len() ==> joined_with_slashes(segs)[k]
                != '\\');
    } else {
        assert(forall|j: int|
            0 <= j < segs.drop_first().len() ==> separator_free(
                #[trigger] segs.drop_first()[j],
            )) by {
            assert(forall|j: int|
                0 <= j < segs.drop_first().len() ==> segs.drop_first()[j] == segs[j + 1]);
        }
        lemma_joined_no_backslash(segs.drop_first());
        let s0 = segs[0];
        let rest = joined_with_slashes(segs.drop_first());
        let whole = joined_with_slashes(segs);
        assert(whole == s0 + seq!['/'] + rest);
        assert(separator_free(s0));
        assert forall|k: int| 0 <= k < whole.len() implies whole[k] != '\\' by {
            if k < s0.len() {
                assert(whole[k] == s0[k]);
            } else if k == s0.len() {
                assert(whole[k] == '/');
            } else {
                assert(whole[k] == rest[k - s0.len() - 1]);
            }
        }
    }
}

/// Destination-relative paths are rendered with forward slashes only:
/// whatever separator convention the host used, no backslash survives
/// into the path the collector produces.
pub proof fn lemma_destination_no_backslash(t: Seq<char>, strip: Seq<Seq<char>>)
    ensures
        has_no_backslash(spec_destination(t, strip)),
{
    lemma_split_segments_wf(t);
    lemma_strip_filtered_membership(split_segments(t), strip);
    let kept = strip_filtered(split_segments(t), strip);
    assert forall|j: int| 0 <= j < kept.len() implies separator_free(#[trigger] kept[j]) by {
        let seg = kept[j];
        assert(split_segments(t).contains(seg));
        let w = choose|w: int| 0 <= w < split_segments(t).len() && split_segments(t)[w] == seg;
        assert(separator_free(split_segments(t)[w]));
    }
    lemma_joined_no_backslash(kept);
}

/// A character-for-character forward-slash rendering holds no backslash
/// either.
pub proof fn lemma_forward_slashed_no_backslash(t: Seq<char>)
    ensures
        has_no_backslash(spec_forward_slashed(t)),
{
}

proof fn lemma_split_from_skip(t: Seq<char>, i: int)
    requires
        0 <= i <= t.len(),
    ensures
        split_segments_from(t, i) == split_segments(t.skip(i)),
    decreases t.len() - i,
{
    let u = t.skip(i);
    if i >= t.len() {
        assert(u =~= Seq::<char>::empty());
    } else if is_separator(t[i]) {
        lemma_split_from_skip(t, i + 1);
        assert(u[0] == t[i]);
        lemma_split_from_skip(u, 1);
        assert(u.skip(1) =~= t.skip(i + 1));
    } else {
        let e = after_segment(t, i);
        lemma_after_segment(t, i);
        assert(e > i);
        let eu = after_segment(u, 0);
        assert(forall|k: int| 0 <= k < e - i ==> u[k] == t[i + k]);
        lemma_after_segment_run(u, 0, e - i);
        assert(eu == e - i);
        assert(u.subrange(0, e - i) =~= t.subrange(i, e));
        lemma_split_from_skip(t, e);
        lemma_split_from_skip(u, e - i);
        assert(u.skip(e - i) =~= t.skip(e));
    }
}

/// Joining nonempty separator-free segments with forward slashes and
/// splitting the result recovers exactly the segments.
pub proof fn lemma_join_then_split(segs: Seq<Seq<char>>)
    requires
        forall|j: int|
            0 <= j < segs.len() ==> (#[trigger] segs[j]).len() > 0 && separator_free(segs[j]),
    ensures
        split_segments(joined_with_slashes(segs)) == segs,
    decreases segs.len(),
{
    let t = joined_with_slashes(segs);
    if segs.len() == 0 {
        assert(t =~= Seq::<char>::empty());
        assert(split_segments(t) =~= segs);
    } else if segs.len() == 1 {
        assert(t == segs[0]);
        assert(separator_free(segs[0]));
        lemma_after_segment_run(t, 0, t.len() as int);
        assert(split_segments(t) == seq![t.subrange(0, t.len() as int)] + split_segments_from(
            t,
            t.len() as int,
        ));
        assert(t.subrange(0, t.len() as int) =~= segs[0]);
        assert(split_segments(t) =~= segs);
    } else {
        let s0 = segs[0];
        let rest = segs.drop_first();
        assert(forall|j: int|
            0 <= j < rest.len() ==> (#[trigger] rest[j]).len() > 0 && separator_free(rest[j]))
            by {
            assert(forall|j: int| 0 <= j < rest.len() ==> rest[j] == segs[j + 1]);
        }
        lemma_join_then_split(rest);
        assert(t == s0 + seq!['/'] + joined_with_slashes(rest));
        let l0 = s0.len() as int;
        assert(forall|k: int| 0 <= k < l0 ==> t[k] == s0[k]);
        assert(t[l0] == '/');
        lemma_after_segment_run(t, 0, l0);
        assert(split_segments(t) == seq![t.subrange(0, l0)] + split_segments_from(t, l0));
        assert(t.subrange(0, l0) =~= s0);
        assert(split_segments_from(t, l0) == split_segments_from(t, l0 + 1));
        lemma_split_from_skip(t, l0 + 1);
        assert(t.skip(l0 + 1) =~= joined_with_slashes(rest));
        assert(split_segments(t) =~= seq![s0] + rest);
        assert(seq![s0] + rest =~= segs);
    }
}

/// Any path segment named in the strip set is absent from the
/// destination path the collector produces: splitting the destination
/// path yields exactly the surviving segments, and none of them is in
/// the strip set.
pub proof fn lemma_destination_segments(t: Seq<char>, strip: Seq<Seq<char>>)
    ensures
        split_segments(spec_destination(t, strip)) == strip_filtered(split_segments(t), strip),
        forall|s: Seq<char>|
            strip.contains(s) ==> !split_segments(spec_destination(t, strip)).contains(s),
{
    lemma_split_segments_wf(t);
    lemma_strip_filtered_membership(split_segments(t), strip);
    let kept = strip_filtered(split_segments(t), strip);
    assert forall|j: int| 0 <= j < kept.len() implies (#[trigger] kept[j]).len() > 0
        && separator_free(kept[j]) by {
        let seg = kept[j];
        assert(split_segments(t).contains(seg));
        let w = choose|w: int| 0 <= w < split_segments(t).len() && split_segments(t)[w] == seg;
        assert(split_segments(t)[w].len() > 0 && separator_free(split_segments(t)[w]));
    }
    lemma_join_then_split(kept);
    assert forall|s: Seq<char>| strip.contains(s) implies !kept.contains(s) by {
        if kept.contains(s) {
            let j = choose|j: int| 0 <= j < kept.len() && kept[j] == s;
            assert(!strip.contains(kept[j]));
        }
    }
}

/// Whether the final segment of the relative path names a library
/// artifact (`.lib` or `.pdb`) lying under a directory named `cfg`.
pub open spec fn spec_library_artifact(t: Seq<char>, cfg: Seq<char>) -> bool {
    let segs = split_segments(t);
    segs.len() > 0 && (spec_ends_with(segs.last(), ".lib"@) || spec_ends_with(
        segs.last(),
        ".pdb"@,
    )) && segs.contains(cfg)
}

/// The name carries the header extension: a final `.h` or `.H` after a
/// nonempty stem.
pub open spec fn spec_has_header_extension(name: Seq<char>) -> bool {
    let d = last_dot(name);
    d > 0 && (name.subrange(d + 1, name.len() as int) == seq!['h'] || name.subrange(
        d + 1,
        name.len() as int,
    ) == seq!['H'])
}

/// Position of the last dot of the text; -1 when there is none.
pub open spec fn last_dot(t: Seq<char>) -> int
    decreases t.len(),
{
    if t.len() == 0 {
        -1
    } else if t.last() == '.' {
        t.len() - 1
    } else {
        last_dot(t.drop_last())
    }
}

proof fn lemma_last_dot(t: Seq<char>)
    ensures
        -1 <= last_dot(t) < t.len(),
    decreases t.len(),
{
    if t.len() > 0 && t.last() != '.' {
        lemma_last_dot(t.drop_last());
    }
}

/// Position of the last dot, if any.
fn last_dot_position(t: &Vec<char>) -> (r: Option<usize>)
    ensures
        match r {
            Some(d) => last_dot(t@) == d && d < t@.len(),
            None => last_dot(t@) == -1,
        },
{
    let n: usize = t.len();
    let mut k: usize = n;
    proof {
        assert(t@.subrange(0, n as int) =~= t@);
    }
    while k > 0
        invariant
            k <= n,
            n == t@.len(),
            last_dot(t@) == last_dot(t@.subrange(0, k as int)),
        decreases k,
    {
        if t[k - 1] == '.' {
            proof {
                assert(t@.subrange(0, k as int).last() == t@[k - 1]);
            }
            return Some(k - 1);
        }
        proof {
            assert(t@.subrange(0, k as int).last() == t@[k - 1]);
            assert(t@.subrange(0, k as int).drop_last() =~= t@.subrange(0, k - 1 as int));
        }
        k = k - 1;
    }
    proof {
        assert(t@.subrange(0, 0) =~= Seq::<char>::empty());
    }
    None
}

/// Whether a file name carries the header extension, `h` in either case
/// after a nonempty stem.
pub fn has_header_extension(name: &str) -> (r: bool)
    ensures
        r == spec_has_header_extension(name@),
{
    let t: Vec<char> = chars_of(name);
    let n: usize = t.len();
    match last_dot_position(&t) {
        Some(d) => {
            if d == 0 {
                return false;
            }
            if n - d != 2 {
                proof {
                    let ext = name@.subrange(d + 1, n as int);
                    assert(ext.len() != 1);
                }
                return false;
            }
            let c: char = t[d + 1];
            proof {
                let ext = name@.subrange(d + 1, n as int);
                assert(ext.len() == 1);
                assert(ext[0] == name@[d + 1 as int]);
                if name@[d + 1 as int] == 'h' {
                    assert(ext =~= seq!['h']);
                } else {
                    assert(ext != seq!['h']) by {
                        assert(seq!['h'][0] == 'h');
                    }
                }
                if name@[d + 1 as int] == 'H' {
                    assert(ext =~= seq!['H']);
                } else {
                    assert(ext != seq!['H']) by {
                        assert(seq!['H'][0] == 'H');
                    }
                }
            }
            c == 'h' || c == 'H'
        },
        None => false,
    }
}

/// The collector's decision for one discovered library artifact: given a
/// file's path relative to the source root, `Some` destination-relative
/// path exactly when the file is a `.lib` or `.pdb` lying under a
/// directory named `config_segment`; the destination drops every segment
/// of that name and is rendered with forward slashes.
pub fn plan_library_copy(rel_path: &str, config_segment: &str) -> (r: Option<String>)
    ensures
        match r {
            Some(dest) => spec_library_artifact(rel_path@, config_segment@) && dest@
                == spec_destination(rel_path@, seq![config_segment@]),
            None => !spec_library_artifact(rel_path@, config_segment@),
        },
{
    let segs: Vec<String> = split_path_segments(rel_path);
    let n: usize = segs.len();
    if n == 0 {
        return None;
    }
    let file_name: &String = &segs[n - 1];
    proof {
        assert(segs.deep_view()[n - 1] == split_segments(rel_path@).last());
    }
    if !(str_ends_with(file_name.as_str(), ".lib") || str_ends_with(file_name.as_str(), ".pdb")) {
        return None;
    }
    let cfg: String = config_segment.to_owned();
    let mut found: bool = false;
    let mut j: usize = 0;
    while j < n
        invariant
            j <= n,
            n == segs@.len(),
            segs.deep_view() == split_segments(rel_path@),
            cfg@ == config_segment@,
            found <==> exists|k: int| 0 <= k < j && segs.deep_view()[k] == config_segment@,
        decreases n - j,
    {
        let same: bool = segs[j].eq(&cfg);
        proof {
            assert(segs.deep_view()[j as int] == segs@[j as int]@);
        }
        if same {
            found = true;
            proof {
                assert(segs.deep_view()[j as int] == config_segment@);
            }
        }
        j = j + 1;
    }
    if !found {
        proof {
            assert(!split_segments(rel_path@).contains(config_segment@));
        }
        return None;
    }
    proof {
        assert(split_segments(rel_path@).contains(config_segment@));
    }
    let mut strip: Vec<String> = Vec::new();
    strip.push(cfg);
    proof {
        assert(strip.deep_view() =~= seq![config_segment@]);
    }
    let kept: Vec<String> = strip_segments(&segs, &strip);
    Some(join_segments(&kept))
}

/// The collector's decision for one discovered header: given a file's
/// path relative to the include root, `Some` destination-relative path
/// (the same segments, forward slashes) exactly when the file name
/// carries the header extension.
pub fn plan_header_copy(rel_path: &str) -> (r: Option<String>)
    ensures
        match r {
            Some(dest) => ({
                let segs = split_segments(rel_path@);
                segs.len() > 0 && spec_has_header_extension(segs.last()) && dest@
                    == joined_with_slashes(segs)
            }),
            None => ({
                let segs = split_segments(rel_path@);
                segs.len() == 0 || !spec_has_header_extension(segs.last())
            }),
        },
{
    let segs: Vec<String> = split_path_segments(rel_path);
    let n: usize = segs.len();
    if n == 0 {
        return None;
    }
    proof {
        assert(segs.deep_view()[n - 1] == split_segments(rel_path@).last());
    }
    if !has_header_extension(segs[n - 1].as_str()) {
        return None;
    }
    Some(join_segments(&segs))
}

} // verus!
