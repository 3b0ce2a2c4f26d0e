//! The version gate: parsing a dotted version triple out of a tool's raw
//! output and holding it against a minimum-version policy.
//!
//! The first run of the text that has the shape `digits '.' digits '.'
//! digits` is taken as the tool's version; a text without such a run
//! parses as `0.0.0`, which no positive policy accepts.  Components too
//! large for their machine word saturate at the largest representable
//! value.  Comparison is lexicographic on (major, minor, patch), and
//! equality passes the version gate.

use vstd::arithmetic::div_mod::lemma_fundamental_div_mod;
use vstd::prelude::*;

use crate::text::chars_of;
use crate::text::digit_char;
use crate::text::is_digit_char;
use crate::text::spec_has_substring;
use crate::text::str_contains;

verus! {

/// An ordered (major, minor, patch) triple.  Comparison is lexicographic;
/// a component missing from the parsed text defaults to 0.
#[derive(Clone, Copy, Debug, PartialEq, Eq, Structural)]
pub struct Version {
    pub major: u64,
    pub minor: u64,
    pub patch: u64,
}

/// Lexicographic order on the triple; equality passes.
pub open spec fn spec_version_ge(a: Version, b: Version) -> bool {
    a.major > b.major
    || (a.major == b.major && a.minor > b.minor)
    || (a.major == b.major && a.minor == b.minor && a.patch >= b.patch)
}

pub fn version_at_least(v: &Version, policy: &Version) -> (r: bool)
    ensures
        r == spec_version_ge(*v, *policy),
{
    v.major > policy.major
    || (v.major == policy.major && v.minor > policy.minor)
    || (v.major == policy.major && v.minor == policy.minor && v.patch >= policy.patch)
}

/// First position at or after `i` that does not hold a decimal digit.
pub open spec fn after_digits(t: Seq<char>, i: int) -> int
    decreases t.len() - i
        when 0 <= i <= t.len()
{
    if i < t.len() && is_digit_char(t[i]) {
        after_digits(t, i + 1)
    } else {
        i
    }
}

pub proof fn lemma_after_digits(t: Seq<char>, i: int)
    requires
        0 <= i <= t.len(),
    ensures
        i <= after_digits(t, i) <= t.len(),
        forall|k: int| i <= k < after_digits(t, i) ==> is_digit_char(t[k]),
        after_digits(t, i) < t.len() ==> !is_digit_char(t[after_digits(t, i)]),
    decreases t.len() - i,
{
    if i < t.len() && is_digit_char(t[i]) {
        lemma_after_digits(t, i + 1);
    }
}

/// On a stretch of digits that ends at `j` (the end of the text or a
/// non-digit), the scan stops exactly at `j`.
pub proof fn lemma_after_digits_run(t: Seq<char>, i: int, j: int)
    requires
        0 <= i <= j <= t.len(),
        forall|k: int| i <= k < j ==> is_digit_char(t[k]),
        j < t.len() ==> !is_digit_char(t[j]),
    ensures
        after_digits(t, i) == j,
    decreases j - i,
{
    if i < j {
        lemma_after_digits_run(t, i + 1, j);
    }
}

/// Numeric value of a digit character.
pub open spec fn digit_value(c: char) -> int {
    c as u32 - 48
}

/// Numeric value of a run of digit characters, most significant first.
pub open spec fn digits_value(s: Seq<char>) -> int
    decreases s.len(),
{
    if s.len() == 0 {
        0
    } else {
        digits_value(s.drop_last()) * 10 + digit_value(s.last())
    }
}

pub proof fn lemma_digits_value_nonneg(s: Seq<char>)
    requires
        forall|i: int| 0 <= i < s.len() ==> is_digit_char(s[i]),
    ensures
        digits_value(s) >= 0,
    decreases s.len(),
{
    if s.len() > 0 {
        lemma_digits_value_nonneg(s.drop_last());
    }
}

/// The value of a digit run, clamped to what a `u64` can hold.
pub open spec fn saturate_u64(x: int) -> u64 {
    if x > u64::MAX {
        u64::MAX
    } else {
        x as u64
    }
}

/// One step of saturating accumulation: how appending the digit `d` to a
/// run of value `v` moves the clamped value.
proof fn lemma_saturating_step(v: int, d: int)
    requires
        v >= 0,
        0 <= d <= 9,
    ensures
        saturate_u64(v) <= (u64::MAX - d) / 10 ==> saturate_u64(v * 10 + d)
            == (saturate_u64(v) * 10 + d) as u64,
        saturate_u64(v) > (u64::MAX - d) / 10 ==> saturate_u64(v * 10 + d) == u64::MAX,
{
    let m = u64::MAX as int;
    let q = (m - d) / 10;
    lemma_fundamental_div_mod(m - d, 10);
    assert(m - d == 10 * q + (m - d) % 10);
    if saturate_u64(v) <= q {
        assert(v <= q);
        assert(10 * v <= 10 * q) by (nonlinear_arith)
            requires
                v <= q,
        ;
    } else {
        assert(v >= q + 1);
        assert(10 * v >= 10 * (q + 1)) by (nonlinear_arith)
            requires
                v >= q + 1,
        ;
    }
}

/// The saturating numeric value of the digit run `t[lo..hi]`.
fn digits_to_u64(t: &Vec<char>, lo: usize, hi: usize) -> (r: u64)
    requires
        lo <= hi <= t@.len(),
        forall|k: int| lo <= k < hi ==> is_digit_char(t@[k]),
    ensures
        r == saturate_u64(digits_value(t@.subrange(lo as int, hi as int))),
{
    let mut acc: u64 = 0;
    let mut i: usize = lo;
    proof {
        assert(t@.subrange(lo as int, lo as int) =~= Seq::<char>::empty());
    }
    while i < hi
        invariant
            lo <= i <= hi <= t@.len(),
            forall|k: int| lo <= k < hi ==> is_digit_char(t@[k]),
            acc == saturate_u64(digits_value(t@.subrange(lo as int, i as int))),
        decreases hi - i,
    {
        let c: char = t[i];
        let d: u64 = (c as u32 - 48) as u64;
        proof {
            let prefix = t@.subrange(lo as int, i as int);
            let next = t@.subrange(lo as int, i + 1 as int);
            assert(next.drop_last() =~= prefix);
            assert(digits_value(next) == digits_value(prefix) * 10 + digit_value(t@[i as int]));
            lemma_digits_value_nonneg(prefix);
            lemma_saturating_step(digits_value(prefix), digit_value(t@[i as int]));
        }
        if acc > (u64::MAX - d) / 10 {
            acc = u64::MAX;
        } else {
            acc = acc * 10 + d;
        }
        i = i + 1;
    }
    acc
}

/// The boundaries `(d1, d2, d3)` of a dotted digit triple that starts at
/// `p`: digit runs `[p, d1)`, `(d1, d2)` and `(d2, d3)` separated by dots.
pub open spec fn triple_at(t: Seq<char>, p: int) -> Option<(int, int, int)> {
    let d1 = after_digits(t, p);
    if d1 == p || !(d1 < t.len() && t[d1] == '.') {
        None
    } else {
        let d2 = after_digits(t, d1 + 1);
        if d2 == d1 + 1 || !(d2 < t.len() && t[d2] == '.') {
            None
        } else {
            let d3 = after_digits(t, d2 + 1);
            if d3 == d2 + 1 {
                None
            } else {
                Some((d1, d2, d3))
            }
        }
    }
}

/// The leftmost dotted digit triple at or after `p`, as
/// `(start, d1, d2, d3)`.
pub open spec fn first_triple(t: Seq<char>, p: int) -> Option<(int, int, int, int)>
    decreases t.len() - p
        when 0 <= p <= t.len()
{
    if p >= t.len() {
        None
    } else if triple_at(t, p) is Some {
        let (d1, d2, d3) = triple_at(t, p)->Some_0;
        Some((p, d1, d2, d3))
    } else {
        first_triple(t, p + 1)
    }
}

/// The version a free-form text parses to: the components of its leftmost
/// dotted digit triple, each saturating at `u64::MAX`, or `0.0.0` when the
/// text holds no such triple.
pub open spec fn spec_parse_version(t: Seq<char>) -> Version {
    match first_triple(t, 0) {
        None => Version { major: 0, minor: 0, patch: 0 },
        Some((p, d1, d2, d3)) => Version {
            major: saturate_u64(digits_value(t.subrange(p, d1))),
            minor: saturate_u64(digits_value(t.subrange(d1 + 1, d2))),
            patch: saturate_u64(digits_value(t.subrange(d2 + 1, d3))),
        },
    }
}

/// End of the digit run that starts at `i`.
fn digits_end(t: &Vec<char>, i: usize) -> (j: usize)
    requires
        i <= t@.len(),
    ensures
        j == after_digits(t@, i as int),
        i <= j <= t@.len(),
{
    let n: usize = t.len();
    let mut j: usize = i;
    while j < n && digit_char(t[j])
        invariant
            i <= j <= n,
            n == t@.len(),
            after_digits(t@, i as int) == after_digits(t@, j as int),
        decreases n - j,
    {
        j = j + 1;
    }
    j
}

/// The dotted digit triple that starts at `p`, if any.
fn triple_bounds_at(t: &Vec<char>, p: usize) -> (r: Option<(usize, usize, usize)>)
    requires
        p <= t@.len(),
    ensures
        match r {
            Some((d1, d2, d3)) => {
                &&& triple_at(t@, p as int) == Some((d1 as int, d2 as int, d3 as int))
                &&& p < d1 < d2 < d3 <= t@.len()
            },
            None => triple_at(t@, p as int) is None,
        },
{
    let n: usize = t.len();
    let d1: usize = digits_end(t, p);
    if d1 == p || d1 == n || t[d1] != '.' {
        return None;
    }
    let d2: usize = digits_end(t, d1 + 1);
    if d2 == d1 + 1 || d2 == n || t[d2] != '.' {
        return None;
    }
    let d3: usize = digits_end(t, d2 + 1);
    if d3 == d2 + 1 {
        return None;
    }
    Some((d1, d2, d3))
}

/// Parses the leftmost dotted digit triple of `s`; `0.0.0` when there is
/// none.
pub fn parse_version(s: &str) -> (v: Version)
    ensures
        v == spec_parse_version(s@),
{
    let t: Vec<char> = chars_of(s);
    let n: usize = t.len();
    let mut p: usize = 0;
    while p < n
        invariant
            p <= n,
            n == t@.len(),
            t@ == s@,
            first_triple(s@, 0) == first_triple(s@, p as int),
        decreases n - p,
    {
        match triple_bounds_at(&t, p) {
            Some((d1, d2, d3)) => {
                proof {
                    lemma_after_digits(t@, p as int);
                    lemma_after_digits(t@, d1 + 1 as int);
                    lemma_after_digits(t@, d2 + 1 as int);
                }
                let major: u64 = digits_to_u64(&t, p, d1);
                let minor: u64 = digits_to_u64(&t, d1 + 1, d2);
                let patch: u64 = digits_to_u64(&t, d2 + 1, d3);
                return Version { major, minor, patch };
            },
            None => {
                p = p + 1;
            },
        }
    }
    Version { major: 0, minor: 0, patch: 0 }
}

/// The tools the pipeline requires on the invoking environment.
#[derive(Clone, Copy, Debug, PartialEq, Eq, Structural)]
pub enum ToolKind {
    Git,
    CMake,
}

/// The fixed minimum-version policy, per tool.
pub open spec fn spec_minimum_version(tool: ToolKind) -> Version {
    match tool {
        ToolKind::Git => Version { major: 2, minor: 40, patch: 0 },
        ToolKind::CMake => Version { major: 3, minor: 31, patch: 0 },
    }
}

pub fn minimum_version(tool: &ToolKind) -> (v: Version)
    ensures
        v == spec_minimum_version(*tool),
{
    match tool {
        ToolKind::Git => Version { major: 2, minor: 40, patch: 0 },
        ToolKind::CMake => Version { major: 3, minor: 31, patch: 0 },
    }
}

/// Why the environment gate turned the pipeline away.
#[derive(Clone, Copy, Debug, PartialEq, Eq, Structural)]
pub enum EnvironmentError {
    /// The tool's reported version falls below the minimum policy, or its
    /// output holds no version at all.
    ToolBelowMinimum,
    /// The host platform is not the one the pipeline supports.
    UnsupportedPlatform,
    /// No accepted toolchain generator identifier was found.
    UnsupportedGenerator,
}

/// Accepts exactly when the version parsed out of `tool_output` meets the
/// tool's minimum policy; a text without a parsable version reads as
/// `0.0.0` and is turned away.
pub fn validate(tool_output: &str, tool: &ToolKind) -> (r: Result<(), EnvironmentError>)
    ensures
        r is Ok <==> spec_version_ge(
            spec_parse_version(tool_output@),
            spec_minimum_version(*tool),
        ),
        r is Err ==> r->Err_0 == EnvironmentError::ToolBelowMinimum,
{
    let v: Version = parse_version(tool_output);
    let m: Version = minimum_version(tool);
    if version_at_least(&v, &m) {
        Ok(())
    } else {
        Err(EnvironmentError::ToolBelowMinimum)
    }
}

/// Whether any of the accepted generator identifiers occurs in the
/// capability probe's output.
pub fn generator_accepted(probe_output: &str, accepted: &Vec<String>) -> (r: bool)
    ensures
        r <==> exists|i: int|
            0 <= i < accepted@.len() && spec_has_substring(probe_output@, accepted@[i]@),
{
    let n: usize = accepted.len();
    let mut i: usize = 0;
    while i < n
        invariant
            i <= n,
            n == accepted@.len(),
            forall|j: int| 0 <= j < i ==> !spec_has_substring(probe_output@, accepted@[j]@),
        decreases n - i,
    {
        if str_contains(probe_output, accepted[i].as_str()) {
            return true;
        }
        i = i + 1;
    }
    false
}

/// Accepts exactly when some accepted generator identifier occurs in the
/// probe's output.
pub fn validate_generator(probe_output: &str, accepted: &Vec<String>) -> (r: Result<
    (),
    EnvironmentError,
>)
    ensures
        r is Ok <==> exists|i: int|
            0 <= i < accepted@.len() && spec_has_substring(probe_output@, accepted@[i]@),
        r is Err ==> r->Err_0 == EnvironmentError::UnsupportedGenerator,
{
    if generator_accepted(probe_output, accepted) {
        Ok(())
    } else {
        Err(EnvironmentError::UnsupportedGenerator)
    }
}

/// A canonical dotted version string parses to exactly its three
/// components: for nonempty digit runs `a`, `b`, `c`, the text
/// `a '.' b '.' c` yields the version whose parts are their (clamped)
/// values.  Together with the contract of `validate`, the version gate accepts
/// such a text if and only if its triple is at least the policy.
pub proof fn lemma_parse_canonical_triple(a: Seq<char>, b: Seq<char>, c: Seq<char>)
    requires
        a.len() > 0,
        b.len() > 0,
        c.len() > 0,
        forall|i: int| 0 <= i < a.len() ==> is_digit_char(a[i]),
        forall|i: int| 0 <= i < b.len() ==> is_digit_char(b[i]),
        forall|i: int| 0 <= i < c.len() ==> is_digit_char(c[i]),
    ensures
        spec_parse_version(a + seq!['.'] + b + seq!['.'] + c) == (Version {
            major: saturate_u64(digits_value(a)),
            minor: saturate_u64(digits_value(b)),
            patch: saturate_u64(digits_value(c)),
        }),
{
    let t = a + seq!['.'] + b + seq!['.'] + c;
    let al = a.len() as int;
    let bl = b.len() as int;
    let cl = c.len() as int;
    assert(t.len() == al + bl + cl + 2);
    assert(!is_digit_char('.'));
    assert(t[al] == '.');
    assert(t[al + 1 + bl] == '.');
    lemma_after_digits_run(t, 0, al);
    lemma_after_digits_run(t, al + 1, al + 1 + bl);
    lemma_after_digits_run(t, al + 1 + bl + 1, t.len() as int);
    assert(triple_at(t, 0) == Some((al, al + 1 + bl, t.len() as int)));
    assert(first_triple(t, 0) == Some((0int, al, al + 1 + bl, t.len() as int)));
    assert(t.subrange(0, al) =~= a);
    assert(t.subrange(al + 1, al + 1 + bl) =~= b);
    assert(t.subrange(al + 1 + bl + 1, t.len() as int) =~= c);
}

} // verus!
