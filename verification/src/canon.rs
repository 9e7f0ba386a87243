//! Character-level utilities for the canonical grid text: the fill
//! marker, whitespace trimming, and conversions between `&str`,
//! `Vec<char>` and `String`.

use vstd::prelude::*;

verus! {

/// The fill marker: the one character that denotes an "on" cell.
pub open spec fn is_fill(c: char) -> bool {
    c == '#'
}

/// The whitespace characters trimmed from the ends of a canonical grid:
/// the ASCII blank, tab, line break and carriage return.
pub open spec fn is_blank(c: char) -> bool {
    c == ' ' || c == '\t' || c == '\n' || c == '\r'
}

/// `s` with all leading and trailing whitespace characters removed.
pub open spec fn trimmed(s: Seq<char>) -> Seq<char>
    decreases s.len(),
{
    if s.len() == 0 {
        s
    } else if is_blank(s[0]) {
        trimmed(s.subrange(1, s.len() as int))
    } else if is_blank(s[s.len() - 1]) {
        trimmed(s.subrange(0, s.len() - 1))
    } else {
        s
    }
}

/// A window `[lo, hi)` whose outside is all whitespace and whose ends are
/// not whitespace is exactly what trimming leaves.
proof fn lemma_trimmed_window(s: Seq<char>, lo: int, hi: int)
    requires
        0 <= lo <= hi <= s.len(),
        forall|k: int| 0 <= k < lo ==> is_blank(s[k]),
        forall|k: int| hi <= k < s.len() ==> is_blank(s[k]),
        lo < hi ==> !is_blank(s[lo]) && !is_blank(s[hi - 1]),
    ensures
        trimmed(s) == s.subrange(lo, hi),
    decreases s.len(),
{
    if s.len() == 0 {
        assert(trimmed(s) =~= s.subrange(lo, hi));
    } else if is_blank(s[0]) {
        let t = s.subrange(1, s.len() as int);
        if lo == 0 {
            // lo < hi would make s[lo] non-blank; so the window is empty.
            assert(lo == hi);
            lemma_trimmed_window(t, 0, 0);
            assert(trimmed(s) =~= s.subrange(lo, hi));
        } else {
            lemma_trimmed_window(t, lo - 1, hi - 1);
            assert(t.subrange(lo - 1, hi - 1) =~= s.subrange(lo, hi));
        }
    } else if is_blank(s[s.len() - 1]) {
        let t = s.subrange(0, s.len() - 1);
        if hi == s.len() {
            // The blank last character cannot be inside the window, so the
            // window is empty and sits at the very end; but then the
            // non-blank first character would lie below `lo`.
            assert(lo == hi);
            assert(is_blank(s[0]));
            assert(false);
        } else {
            lemma_trimmed_window(t, lo, hi);
            assert(t.subrange(lo, hi) =~= s.subrange(lo, hi));
        }
    } else {
        // Neither end is blank, so the window spans the whole sequence.
        assert(lo == 0);
        assert(hi == s.len());
        assert(trimmed(s) =~= s.subrange(lo, hi));
    }
}

/// Whether `c` is trimmed as whitespace.
pub fn is_blank_char(c: char) -> (r: bool)
    ensures
        r == is_blank(c),
{
    c == ' ' || c == '\t' || c == '\n' || c == '\r'
}

/// The characters of `s`, in order, as a vector.
pub fn str_to_chars(s: &str) -> (r: Vec<char>)
    ensures
        r@ == s@,
{
    let n = s.unicode_len();
    let mut r: Vec<char> = Vec::new();
    let mut i: usize = 0;
    while i < n
        invariant
            0 <= i <= n,
            n == s@.len(),
            r@ == s@.subrange(0, i as int),
        decreases n - i,
    {
        let c = s.get_char(i);
        r.push(c);
        proof {
            assert(r@ =~= s@.subrange(0, i + 1));
        }
        i = i + 1;
    }
    proof {
        assert(r@ =~= s@);
    }
    r
}

/// A copy of `v[a..b]`.
pub fn sub_vec(v: &Vec<char>, a: usize, b: usize) -> (r: Vec<char>)
    requires
        a <= b <= v@.len(),
    ensures
        r@ == v@.subrange(a as int, b as int),
{
    let mut r: Vec<char> = Vec::new();
    let mut i: usize = a;
    while i < b
        invariant
            a <= i <= b <= v@.len(),
            r@ == v@.subrange(a as int, i as int),
        decreases b - i,
    {
        r.push(v[i]);
        proof {
            assert(r@ =~= v@.subrange(a as int, i + 1));
        }
        i = i + 1;
    }
    r
}

/// `v` with leading and trailing whitespace characters removed.
pub fn trim_chars(v: &Vec<char>) -> (r: Vec<char>)
    ensures
        r@ == trimmed(v@),
{
    let n = v.len();
    let mut lo: usize = 0;
    while lo < n && is_blank_char(v[lo])
        invariant
            0 <= lo <= n,
            n == v@.len(),
            forall|k: int| 0 <= k < lo ==> is_blank(v@[k]),
        decreases n - lo,
    {
        lo = lo + 1;
    }
    let mut hi: usize = n;
    while lo < hi && is_blank_char(v[hi - 1])
        invariant
            lo <= hi <= n,
            n == v@.len(),
            forall|k: int| 0 <= k < lo ==> is_blank(v@[k]),
            forall|k: int| hi <= k < n ==> is_blank(v@[k]),
            lo < n ==> !is_blank(v@[lo as int]),
        decreases hi,
    {
        hi = hi - 1;
    }
    proof {
        if lo == hi {
            // Everything outside [lo, hi) is blank and the window is empty:
            // each index is either below lo or at least hi.
            assert(forall|k: int| hi <= k < n ==> is_blank(v@[k]));
        }
        lemma_trimmed_window(v@, lo as int, hi as int);
    }
    sub_vec(v, lo, hi)
}

/// Relies on `String::push`: appends one character to the string.
#[verifier::external_body]
pub fn push_char(s: &mut String, c: char)
    ensures
        final(s)@ == old(s)@.push(c),
{
    s.push(c);
}

} // verus!
