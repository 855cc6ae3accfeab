//! Character-level helpers shared by the extraction strategies.
//!
//! The engine models text as sequences of characters, so the exec code
//! works on `Vec<char>` and the contracts on `Seq<char>`. The helpers here
//! bridge between `String`/`&str` and `Vec<char>`.

use vstd::prelude::*;
use vstd::string::StrSliceExecFns;

verus! {

/// Relies on `String::push`: appends the given character to the end of
/// the string.
pub assume_specification[ String::push ](s: &mut String, c: char)
    ensures
        final(s)@ == old(s)@.push(c),
;

/// Copies the characters of a string slice into a vector.
pub fn to_chars(s: &str) -> (r: Vec<char>)
    ensures
        r@ == s@,
{
    let n: usize = s.unicode_len();
    let mut r: Vec<char> = Vec::new();
    let mut i: usize = 0;
    while i < n
        invariant
            n == s@.len(),
            i <= n,
            r@ == s@.take(i as int),
        decreases n - i,
    {
        r.push(s.get_char(i));
        i = i + 1;
        proof {
            assert(r@ =~= s@.take(i as int));
        }
    }
    proof {
        assert(r@ =~= s@);
    }
    r
}

/// Builds a string out of a sequence of characters.
pub fn string_from_chars(v: &Vec<char>) -> (r: String)
    ensures
        r@ == v@,
{
    let mut r = String::new();
    let mut i: usize = 0;
    while i < v.len()
        invariant
            i <= v@.len(),
            r@ == v@.take(i as int),
        decreases v@.len() - i,
    {
        r.push(v[i]);
        i = i + 1;
        proof {
            assert(r@ =~= v@.take(i as int));
        }
    }
    proof {
        assert(r@ =~= v@);
    }
    r
}

/// Compares two character slices for equality.
pub fn chars_eq(a: &[char], b: &[char]) -> (r: bool)
    ensures
        r == (a@ == b@),
{
    if a.len() != b.len() {
        proof {
            assert(a@.len() != b@.len());
        }
        return false;
    }
    let mut i: usize = 0;
    while i < a.len()
        invariant
            a@.len() == b@.len(),
            i <= a@.len(),
            forall|j: int| 0 <= j < i ==> a@[j] == b@[j],
        decreases a@.len() - i,
    {
        if a[i] != b[i] {
            return false;
        }
        i = i + 1;
    }
    proof {
        assert(a@ =~= b@);
    }
    true
}

/// The first index at or after `pos` holding `c`, or the length of `t`
/// when no such index exists.
pub open spec fn find_from(t: Seq<char>, pos: int, c: char) -> int
    decreases t.len() - pos,
        when 0 <= pos <= t.len()
{
    if pos >= t.len() {
        t.len() as int
    } else if t[pos] == c {
        pos
    } else {
        find_from(t, pos + 1, c)
    }
}

/// `find_from` stays within bounds, lands on `c` when it lands inside the
/// text, and skips nothing that holds `c`.
pub proof fn lemma_find_from(t: Seq<char>, pos: int, c: char)
    requires
        0 <= pos <= t.len(),
    ensures
        pos <= find_from(t, pos, c) <= t.len(),
        find_from(t, pos, c) < t.len() ==> t[find_from(t, pos, c)] == c,
        forall|j: int| pos <= j < find_from(t, pos, c) ==> t[j] != c,
    decreases t.len() - pos,
{
    if pos < t.len() && t[pos] != c {
        lemma_find_from(t, pos + 1, c);
    }
}

/// Scans `t` from `pos` for the first occurrence of `c`.
pub fn find_char(t: &Vec<char>, pos: usize, c: char) -> (r: usize)
    requires
        pos <= t@.len(),
    ensures
        r == find_from(t@, pos as int, c),
        r <= t@.len(),
{
    proof {
        lemma_find_from(t@, pos as int, c);
    }
    let mut i: usize = pos;
    while i < t.len()
        invariant
            pos <= i <= t@.len(),
            find_from(t@, pos as int, c) == find_from(t@, i as int, c),
        decreases t@.len() - i,
    {
        if t[i] == c {
            return i;
        }
        i = i + 1;
    }
    i
}

/// Copies the characters of `t` from `from` (inclusive) to `to`
/// (exclusive) into a fresh vector.
pub fn copy_range(t: &Vec<char>, from: usize, to: usize) -> (r: Vec<char>)
    requires
        from <= to <= t@.len(),
    ensures
        r@ == t@.subrange(from as int, to as int),
{
    let mut r: Vec<char> = Vec::new();
    let mut i: usize = from;
    while i < to
        invariant
            from <= i <= to <= t@.len(),
            r@ == t@.subrange(from as int, i as int),
        decreases to - i,
    {
        r.push(t[i]);
        i = i + 1;
        proof {
            assert(r@ =~= t@.subrange(from as int, i as int));
        }
    }
    r
}

} // verus!
