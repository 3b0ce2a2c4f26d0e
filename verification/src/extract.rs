//! The signature extractor: a best-effort, line-anchored lexical scan of
//! C++ header text that yields one record per function-like declaration.
//!
//! A candidate declaration starts at the beginning of a line (after
//! leading whitespace) and consists, in order, of an optional template
//! preamble `template <...>` (whose angle-bracket capture may not span a
//! `;`, `:` or `{`), a return-type token run (identifiers, `::`, `*`,
//! `&`, `<`, `>` and whitespace), whitespace, a bare identifier, optional
//! whitespace and an opening parenthesis.  Records carry the trimmed
//! template preamble, the trimmed return type and the name, in the order
//! the matches occur; nothing is deduplicated, and the text after a match
//! is scanned again only from the next line onward.
//!
//! This is deliberately not a C++ grammar: comment lines simply fail to
//! match, and a macro invocation of the right shape is still captured.
//! Filtering out reserved names is left to the consumer of the records.

use vstd::prelude::*;

use crate::text::chars_of;
use crate::text::is_space_char;
use crate::text::is_word_char;
use crate::text::space_char;
use crate::text::word_char;

verus! {

/// Characters that may appear in the return-type token run.
pub open spec fn is_type_char(c: char) -> bool {
    is_word_char(c) || c == ':' || c == '*' || c == '&' || c == '<' || c == '>'
        || is_space_char(c)
}

/// Characters admitted inside a template preamble's angle brackets.
pub open spec fn is_template_inner_char(c: char) -> bool {
    c != ';' && c != ':' && c != '{'
}

fn type_char(c: char) -> (r: bool)
    ensures
        r == is_type_char(c),
{
    word_char(c) || c == ':' || c == '*' || c == '&' || c == '<' || c == '>' || space_char(c)
}

fn template_inner_char(c: char) -> (r: bool)
    ensures
        r == is_template_inner_char(c),
{
    c != ';' && c != ':' && c != '{'
}

/// First position at or after `i` that does not hold whitespace.
pub open spec fn after_spaces(t: Seq<char>, i: int) -> int
    decreases t.len() - i
        when 0 <= i <= t.len()
{
    if i < t.len() && is_space_char(t[i]) {
        after_spaces(t, i + 1)
    } else {
        i
    }
}

/// First position at or after `i` that does not hold a type character.
pub open spec fn after_type_run(t: Seq<char>, i: int) -> int
    decreases t.len() - i
        when 0 <= i <= t.len()
{
    if i < t.len() && is_type_char(t[i]) {
        after_type_run(t, i + 1)
    } else {
        i
    }
}

/// First position at or after `i` that leaves the template preamble's
/// bracket class.
pub open spec fn after_template_run(t: Seq<char>, i: int) -> int
    decreases t.len() - i
        when 0 <= i <= t.len()
{
    if i < t.len() && is_template_inner_char(t[i]) {
        after_template_run(t, i + 1)
    } else {
        i
    }
}

/// Largest suffix start of whitespace running backward from `j`, not
/// before `lo`.
pub open spec fn back_over_spaces(t: Seq<char>, j: int, lo: int) -> int
    decreases j - lo
        when 0 <= lo <= j <= t.len()
{
    if j > lo && is_space_char(t[j - 1]) {
        back_over_spaces(t, j - 1, lo)
    } else {
        j
    }
}

/// Largest suffix start of identifier characters running backward from
/// `j`, not before `lo`.
pub open spec fn back_over_word(t: Seq<char>, j: int, lo: int) -> int
    decreases j - lo
        when 0 <= lo <= j <= t.len()
{
    if j > lo && is_word_char(t[j - 1]) {
        back_over_word(t, j - 1, lo)
    } else {
        j
    }
}

proof fn lemma_after_spaces(t: Seq<char>, i: int)
    requires
        0 <= i <= t.len(),
    ensures
        i <= after_spaces(t, i) <= t.len(),
    decreases t.len() - i,
{
    if i < t.len() && is_space_char(t[i]) {
        lemma_after_spaces(t, i + 1);
    }
}

proof fn lemma_after_type_run(t: Seq<char>, i: int)
    requires
        0 <= i <= t.len(),
    ensures
        i <= after_type_run(t, i) <= t.len(),
    decreases t.len() - i,
{
    if i < t.len() && is_type_char(t[i]) {
        lemma_after_type_run(t, i + 1);
    }
}

proof fn lemma_after_template_run(t: Seq<char>, i: int)
    requires
        0 <= i <= t.len(),
    ensures
        i <= after_template_run(t, i) <= t.len(),
    decreases t.len() - i,
{
    if i < t.len() && is_template_inner_char(t[i]) {
        lemma_after_template_run(t, i + 1);
    }
}

proof fn lemma_back_over_spaces(t: Seq<char>, j: int, lo: int)
    requires
        0 <= lo <= j <= t.len(),
    ensures
        lo <= back_over_spaces(t, j, lo) <= j,
    decreases j - lo,
{
    if j > lo && is_space_char(t[j - 1]) {
        lemma_back_over_spaces(t, j - 1, lo);
    }
}

proof fn lemma_back_over_word(t: Seq<char>, j: int, lo: int)
    requires
        0 <= lo <= j <= t.len(),
    ensures
        lo <= back_over_word(t, j, lo) <= j,
    decreases j - lo,
{
    if j > lo && is_word_char(t[j - 1]) {
        lemma_back_over_word(t, j - 1, lo);
    }
}

/// The spans of the tail of a declaration (return type, name, end), found
/// from `start`, the first non-whitespace position of the candidate.
pub struct TailHit {
    pub ty_lo: int,
    pub ty_hi: int,
    pub name_lo: int,
    pub name_hi: int,
    pub end: int,
}

/// Matches `type-run  whitespace  identifier  whitespace*  '('` from
/// `start`.  `avail` counts the whitespace immediately before `start`
/// that the match may claim: when the identifier sits at `start` itself
/// (an empty return type), at least two such characters are needed — one
/// standing in for the type capture and one for the required separator.
pub open spec fn tail_match_at(t: Seq<char>, start: int, avail: int) -> Option<TailHit> {
    let rend = after_type_run(t, start);
    if !(rend < t.len() && t[rend] == '(') {
        None
    } else {
        let name_hi = back_over_spaces(t, rend, start);
        let name_lo = back_over_word(t, name_hi, start);
        if name_lo == name_hi {
            None
        } else if name_lo > start {
            if is_space_char(t[name_lo - 1]) {
                Some(TailHit {
                    ty_lo: start,
                    ty_hi: back_over_spaces(t, name_lo, start),
                    name_lo,
                    name_hi,
                    end: rend + 1,
                })
            } else {
                None
            }
        } else {
            if avail >= 2 {
                Some(TailHit { ty_lo: start, ty_hi: start, name_lo, name_hi, end: rend + 1 })
            } else {
                None
            }
        }
    }
}

proof fn lemma_tail_match_at_bounds(t: Seq<char>, start: int, avail: int)
    requires
        0 <= start <= t.len(),
    ensures
        tail_match_at(t, start, avail) is Some ==> ({
            let h = tail_match_at(t, start, avail)->Some_0;
            h.ty_lo == start && start <= h.ty_hi <= h.name_lo <= h.name_hi < h.end <= t.len()
        }),
{
    let rend = after_type_run(t, start);
    lemma_after_type_run(t, start);
    if rend < t.len() && t[rend] == '(' {
        lemma_back_over_spaces(t, rend, start);
        let name_hi = back_over_spaces(t, rend, start);
        lemma_back_over_word(t, name_hi, start);
        let name_lo = back_over_word(t, name_hi, start);
        if name_lo != name_hi && name_lo > start && is_space_char(t[name_lo - 1]) {
            lemma_back_over_spaces(t, name_lo, start);
        }
    }
}

/// The tail of a template declaration, taken just past the closing `>` at
/// `g`: leading whitespace is consumed and may be claimed by the match.
pub open spec fn tail_after_closer(t: Seq<char>, g: int) -> Option<TailHit> {
    let t0 = after_spaces(t, g + 1);
    tail_match_at(t, t0, t0 - (g + 1))
}

/// The rightmost candidate closer `>` in `(lo, g]` whose tail completes a
/// declaration, mirroring a greedy bracket capture: the widest capture
/// that still lets the rest of the pattern match wins.
pub open spec fn find_template_closer(t: Seq<char>, lo: int, g: int) -> Option<(int, TailHit)>
    decreases g - lo
        when 0 <= lo && g < t.len()
{
    if g <= lo {
        None
    } else if t[g] == '>' && tail_after_closer(t, g) is Some {
        Some((g, tail_after_closer(t, g)->Some_0))
    } else {
        find_template_closer(t, lo, g - 1)
    }
}

proof fn lemma_find_template_closer(t: Seq<char>, lo: int, g: int)
    requires
        0 <= lo,
        g < t.len(),
    ensures
        find_template_closer(t, lo, g) is Some ==> ({
            let (gc, h) = find_template_closer(t, lo, g)->Some_0;
            lo < gc <= g && gc < h.ty_lo && h.ty_lo <= h.ty_hi <= h.name_lo <= h.name_hi
                < h.end <= t.len()
        }),
    decreases g - lo,
{
    if g <= lo {
    } else if t[g] == '>' && tail_after_closer(t, g) is Some {
        let t0 = after_spaces(t, g + 1);
        lemma_after_spaces(t, g + 1);
        lemma_tail_match_at_bounds(t, t0, t0 - (g + 1));
    } else {
        lemma_find_template_closer(t, lo, g - 1);
    }
}

/// The spans of a whole matched declaration.  `pre_lo == pre_hi` when the
/// declaration has no template preamble.
pub struct DeclHit {
    pub pre_lo: int,
    pub pre_hi: int,
    pub ty_lo: int,
    pub ty_hi: int,
    pub name_lo: int,
    pub name_hi: int,
    pub end: int,
}

/// The literal keyword `template` stands at `j`.
pub open spec fn has_template_keyword(t: Seq<char>, j: int) -> bool {
    j + 8 <= t.len() && t[j] == 't' && t[j + 1] == 'e' && t[j + 2] == 'm' && t[j + 3] == 'p'
        && t[j + 4] == 'l' && t[j + 5] == 'a' && t[j + 6] == 't' && t[j + 7] == 'e'
}

/// A declaration with a template preamble starting at `j` (the candidate's
/// first non-whitespace position).
pub open spec fn template_match_at(t: Seq<char>, j: int) -> Option<DeclHit> {
    if !has_template_keyword(t, j) {
        None
    } else {
        let k = after_spaces(t, j + 8);
        if !(k < t.len() && t[k] == '<') {
            None
        } else {
            let tr_end = after_template_run(t, k + 1);
            match find_template_closer(t, k + 1, tr_end - 1) {
                Some((g, h)) => Some(DeclHit {
                    pre_lo: j,
                    pre_hi: g + 1,
                    ty_lo: h.ty_lo,
                    ty_hi: h.ty_hi,
                    name_lo: h.name_lo,
                    name_hi: h.name_hi,
                    end: h.end,
                }),
                None => None,
            }
        }
    }
}

/// The declaration anchored at line start `a`, if any: leading whitespace,
/// then a template preamble if one completes a match, else the bare tail.
pub open spec fn declaration_at(t: Seq<char>, a: int) -> Option<DeclHit> {
    let j = after_spaces(t, a);
    if j >= t.len() {
        None
    } else if template_match_at(t, j) is Some {
        template_match_at(t, j)
    } else {
        match tail_match_at(t, j, j - a) {
            Some(h) => Some(DeclHit {
                pre_lo: j,
                pre_hi: j,
                ty_lo: h.ty_lo,
                ty_hi: h.ty_hi,
                name_lo: h.name_lo,
                name_hi: h.name_hi,
                end: h.end,
            }),
            None => None,
        }
    }
}

/// A matched declaration's spans lie between its anchor and the end of
/// the text, with the match end strictly past the anchor.
pub proof fn lemma_declaration_at_bounds(t: Seq<char>, a: int)
    requires
        0 <= a <= t.len(),
    ensures
        declaration_at(t, a) is Some ==> ({
            let m = declaration_at(t, a)->Some_0;
            a <= m.pre_lo <= m.pre_hi <= t.len() && 0 <= m.ty_lo <= m.ty_hi <= t.len()
                && 0 <= m.name_lo <= m.name_hi <= t.len() && a < m.end <= t.len()
        }),
{
    let j = after_spaces(t, a);
    lemma_after_spaces(t, a);
    if j < t.len() {
        if has_template_keyword(t, j) {
            let k = after_spaces(t, j + 8);
            lemma_after_spaces(t, j + 8);
            if k < t.len() && t[k] == '<' {
                let tr_end = after_template_run(t, k + 1);
                lemma_after_template_run(t, k + 1);
                lemma_find_template_closer(t, k + 1, tr_end - 1);
            }
        }
        lemma_tail_match_at_bounds(t, j, j - a);
    }
}

/// A position where a new match may be anchored: the start of a line.
pub open spec fn is_line_start(t: Seq<char>, p: int) -> bool {
    p == 0 || t[p - 1] == '\n'
}

/// The record a matched declaration yields: (template preamble, return
/// type, name), each already trimmed by construction of the spans.
pub open spec fn record_of(t: Seq<char>, m: DeclHit) -> (Seq<char>, Seq<char>, Seq<char>) {
    (
        t.subrange(m.pre_lo, m.pre_hi),
        t.subrange(m.ty_lo, m.ty_hi),
        t.subrange(m.name_lo, m.name_hi),
    )
}

/// All records found at line starts at or after `p`, in text order; the
/// text consumed by a match is not scanned again.
pub open spec fn records_from(t: Seq<char>, p: int) -> Seq<(Seq<char>, Seq<char>, Seq<char>)>
    decreases t.len() - p
        when 0 <= p
{
    if p >= t.len() {
        Seq::empty()
    } else if is_line_start(t, p) && declaration_at(t, p) is Some {
        let m = declaration_at(t, p)->Some_0;
        proof {
            lemma_declaration_at_bounds(t, p);
        }
        seq![record_of(t, m)] + records_from(t, m.end)
    } else {
        records_from(t, p + 1)
    }
}

/// The ordered sequence of signature records the extractor yields for a
/// text.
pub open spec fn signature_records(t: Seq<char>) -> Seq<(Seq<char>, Seq<char>, Seq<char>)> {
    records_from(t, 0)
}

/// Extraction is a pure function of the text: two extractions of equal
/// texts yield the same ordered sequence of records, so re-running the
/// extractor can never change or reorder its output.
pub proof fn lemma_extraction_idempotent(
    t1: Seq<char>,
    t2: Seq<char>,
    r1: Seq<(Seq<char>, Seq<char>, Seq<char>)>,
    r2: Seq<(Seq<char>, Seq<char>, Seq<char>)>,
)
    requires
        t1 == t2,
        r1 == signature_records(t1),
        r2 == signature_records(t2),
    ensures
        r1 == r2,
{
}

/// Exec-side spans of a matched declaration.
struct DeclSpan {
    pre_lo: usize,
    pre_hi: usize,
    ty_lo: usize,
    ty_hi: usize,
    name_lo: usize,
    name_hi: usize,
    end: usize,
}

impl DeclSpan {
    /// The spec-level view of these spans.
    spec fn hit(self) -> DeclHit {
        DeclHit {
            pre_lo: self.pre_lo as int,
            pre_hi: self.pre_hi as int,
            ty_lo: self.ty_lo as int,
            ty_hi: self.ty_hi as int,
            name_lo: self.name_lo as int,
            name_hi: self.name_hi as int,
            end: self.end as int,
        }
    }
}

/// Exec-side spans of a declaration tail.
struct TailSpan {
    ty_lo: usize,
    ty_hi: usize,
    name_lo: usize,
    name_hi: usize,
    end: usize,
}

impl TailSpan {
    spec fn hit(self) -> TailHit {
        TailHit {
            ty_lo: self.ty_lo as int,
            ty_hi: self.ty_hi as int,
            name_lo: self.name_lo as int,
            name_hi: self.name_hi as int,
            end: self.end as int,
        }
    }
}

fn spaces_end(t: &Vec<char>, i: usize) -> (j: usize)
    requires
        i <= t@.len(),
    ensures
        j == after_spaces(t@, i as int),
        i <= j <= t@.len(),
{
    let n: usize = t.len();
    let mut j: usize = i;
    while j < n && space_char(t[j])
        invariant
            i <= j <= n,
            n == t@.len(),
            after_spaces(t@, i as int) == after_spaces(t@, j as int),
        decreases n - j,
    {
        j = j + 1;
    }
    j
}

fn type_run_end(t: &Vec<char>, i: usize) -> (j: usize)
    requires
        i <= t@.len(),
    ensures
        j == after_type_run(t@, i as int),
        i <= j <= t@.len(),
{
    let n: usize = t.len();
    let mut j: usize = i;
    while j < n && type_char(t[j])
        invariant
            i <= j <= n,
            n == t@.len(),
            after_type_run(t@, i as int) == after_type_run(t@, j as int),
        decreases n - j,
    {
        j = j + 1;
    }
    j
}

fn template_run_end(t: &Vec<char>, i: usize) -> (j: usize)
    requires
        i <= t@.len(),
    ensures
        j == after_template_run(t@, i as int),
        i <= j <= t@.len(),
{
    let n: usize = t.len();
    let mut j: usize = i;
    while j < n && template_inner_char(t[j])
        invariant
            i <= j <= n,
            n == t@.len(),
            after_template_run(t@, i as int) == after_template_run(t@, j as int),
        decreases n - j,
    {
        j = j + 1;
    }
    j
}

fn spaces_start_back(t: &Vec<char>, j: usize, lo: usize) -> (r: usize)
    requires
        lo <= j <= t@.len(),
    ensures
        r == back_over_spaces(t@, j as int, lo as int),
        lo <= r <= j,
{
    let mut k: usize = j;
    while k > lo && space_char(t[k - 1])
        invariant
            lo <= k <= j <= t@.len(),
            back_over_spaces(t@, j as int, lo as int) == back_over_spaces(
                t@,
                k as int,
                lo as int,
            ),
        decreases k,
    {
        k = k - 1;
    }
    k
}

fn word_start_back(t: &Vec<char>, j: usize, lo: usize) -> (r: usize)
    requires
        lo <= j <= t@.len(),
    ensures
        r == back_over_word(t@, j as int, lo as int),
        lo <= r <= j,
{
    let mut k: usize = j;
    while k > lo && word_char(t[k - 1])
        invariant
            lo <= k <= j <= t@.len(),
            back_over_word(t@, j as int, lo as int) == back_over_word(t@, k as int, lo as int),
        decreases k,
    {
        k = k - 1;
    }
    k
}

fn tail_match_exec(t: &Vec<char>, start: usize, avail: usize) -> (r: Option<TailSpan>)
    requires
        start <= t@.len(),
    ensures
        match r {
            Some(h) => {
                &&& tail_match_at(t@, start as int, avail as int) == Some(h.hit())
                &&& start == h.ty_lo && h.ty_lo <= h.ty_hi <= h.name_lo <= h.name_hi < h.end
                &&& start < h.end <= t@.len()
            },
            None => tail_match_at(t@, start as int, avail as int) is None,
        },
{
    let n: usize = t.len();
    let rend: usize = type_run_end(t, start);
    if !(rend < n && t[rend] == '(') {
        return None;
    }
    let name_hi: usize = spaces_start_back(t, rend, start);
    let name_lo: usize = word_start_back(t, name_hi, start);
    if name_lo == name_hi {
        return None;
    }
    if name_lo > start {
        if space_char(t[name_lo - 1]) {
            let ty_hi: usize = spaces_start_back(t, name_lo, start);
            Some(TailSpan { ty_lo: start, ty_hi, name_lo, name_hi, end: rend + 1 })
        } else {
            None
        }
    } else {
        if avail >= 2 {
            Some(TailSpan { ty_lo: start, ty_hi: start, name_lo, name_hi, end: rend + 1 })
        } else {
            None
        }
    }
}

/// Searches the candidate closers `g` in `(lo, hi)` from the right for
/// one whose tail completes a declaration.
fn find_closer_exec(t: &Vec<char>, lo: usize, hi: usize) -> (r: Option<(usize, TailSpan)>)
    requires
        hi <= t@.len(),
        hi >= 1,
    ensures
        match r {
            Some((g, h)) => {
                &&& find_template_closer(t@, lo as int, hi - 1) == Some((g as int, h.hit()))
                &&& lo < g < hi
                &&& g < h.ty_lo && h.ty_lo <= h.ty_hi <= h.name_lo <= h.name_hi < h.end
                    <= t@.len()
            },
            None => find_template_closer(t@, lo as int, hi - 1) is None,
        },
{
    let mut g: usize = hi;
    while g >= 1 && g - 1 > lo
        invariant
            g <= hi <= t@.len(),
            find_template_closer(t@, lo as int, hi - 1) == find_template_closer(
                t@,
                lo as int,
                g - 1,
            ),
        decreases g,
    {
        let gg: usize = g - 1;
        if t[gg] == '>' {
            let t0: usize = spaces_end(t, gg + 1);
            let avail: usize = t0 - (gg + 1);
            match tail_match_exec(t, t0, avail) {
                Some(h) => {
                    proof {
                        assert(tail_after_closer(t@, gg as int) == Some(h.hit()));
                    }
                    return Some((gg, h));
                },
                None => {
                    proof {
                        assert(tail_after_closer(t@, gg as int) is None);
                    }
                },
            }
        }
        g = gg;
    }
    None
}

fn template_match_exec(t: &Vec<char>, j: usize) -> (r: Option<DeclSpan>)
    requires
        j <= t@.len(),
    ensures
        match r {
            Some(m) => {
                &&& template_match_at(t@, j as int) == Some(m.hit())
                &&& j <= m.pre_lo <= m.pre_hi <= t@.len()
                &&& m.ty_lo <= m.ty_hi <= m.name_lo <= m.name_hi < m.end <= t@.len()
                &&& j < m.end
            },
            None => template_match_at(t@, j as int) is None,
        },
{
    let n: usize = t.len();
    if n - j < 8 {
        return None;
    }
    if !(t[j] == 't' && t[j + 1] == 'e' && t[j + 2] == 'm' && t[j + 3] == 'p' && t[j + 4] == 'l'
        && t[j + 5] == 'a' && t[j + 6] == 't' && t[j + 7] == 'e') {
        return None;
    }
    let k: usize = spaces_end(t, j + 8);
    if !(k < n && t[k] == '<') {
        return None;
    }
    let tr_end: usize = template_run_end(t, k + 1);
    match find_closer_exec(t, k + 1, tr_end) {
        Some((g, h)) => Some(DeclSpan {
            pre_lo: j,
            pre_hi: g + 1,
            ty_lo: h.ty_lo,
            ty_hi: h.ty_hi,
            name_lo: h.name_lo,
            name_hi: h.name_hi,
            end: h.end,
        }),
        None => None,
    }
}

fn declaration_exec(t: &Vec<char>, a: usize) -> (r: Option<DeclSpan>)
    requires
        a <= t@.len(),
    ensures
        match r {
            Some(m) => {
                &&& declaration_at(t@, a as int) == Some(m.hit())
                &&& a <= m.pre_lo <= m.pre_hi <= t@.len()
                &&& m.ty_lo <= m.ty_hi <= m.name_lo <= m.name_hi <= t@.len()
                &&& a < m.end <= t@.len()
            },
            None => declaration_at(t@, a as int) is None,
        },
{
    let n: usize = t.len();
    let j: usize = spaces_end(t, a);
    if j >= n {
        return None;
    }
    match template_match_exec(t, j) {
        Some(m) => Some(m),
        None => {
            match tail_match_exec(t, j, j - a) {
                Some(h) => Some(DeclSpan {
                    pre_lo: j,
                    pre_hi: j,
                    ty_lo: h.ty_lo,
                    ty_hi: h.ty_hi,
                    name_lo: h.name_lo,
                    name_hi: h.name_hi,
                    end: h.end,
                }),
                None => None,
            }
        },
    }
}

/// Extracts the function-like declarations of a header text, in text
/// order, as `(template preamble, return type, name)` records.  The
/// result is exactly the model's `signature_records`, so equal texts
/// always yield equal record sequences.
pub fn extract_function_details(src: &str) -> (out: Vec<(String, String, String)>)
    ensures
        out.deep_view() == signature_records(src@),
{
    let t: Vec<char> = chars_of(src);
    let n: usize = t.len();
    let mut out: Vec<(String, String, String)> = Vec::new();
    let mut p: usize = 0;
    proof {
        assert(out.deep_view() =~= Seq::<(Seq<char>, Seq<char>, Seq<char>)>::empty());
    }
    while p < n
        invariant
            p <= n,
            n == t@.len(),
            t@ == src@,
            signature_records(src@) =~= out.deep_view() + records_from(src@, p as int),
        decreases n - p,
    {
        let at_line_start: bool = p == 0 || t[p - 1] == '\n';
        if at_line_start {
            match declaration_exec(&t, p) {
                Some(m) => {
                    let ghost prev = out.deep_view();
                    let pre: String = src.substring_char(m.pre_lo, m.pre_hi).to_owned();
                    let ty: String = src.substring_char(m.ty_lo, m.ty_hi).to_owned();
                    let name: String = src.substring_char(m.name_lo, m.name_hi).to_owned();
                    out.push((pre, ty, name));
                    proof {
                        let rec = record_of(src@, m.hit());
                        assert(out.deep_view() =~= prev + seq![rec]);
                        assert(records_from(src@, p as int) == seq![rec] + records_from(
                            src@,
                            m.end as int,
                        ));
                        assert((prev + seq![rec]) + records_from(src@, m.end as int)
                            =~= prev + (seq![rec] + records_from(src@, m.end as int)));
                    }
                    p = m.end;
                },
                None => {
                    proof {
                        assert(records_from(src@, p as int) == records_from(src@, p + 1 as int));
                    }
                    p = p + 1;
                },
            }
        } else {
            proof {
                assert(records_from(src@, p as int) == records_from(src@, p + 1 as int));
            }
            p = p + 1;
        }
    }
    proof {
        assert(records_from(src@, p as int) =~= Seq::<(Seq<char>, Seq<char>, Seq<char>)>::empty());
        assert(out.deep_view() + records_from(src@, p as int) =~= out.deep_view());
    }
    out
}

} // verus!
