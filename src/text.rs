use vstd::prelude::*;

verus! {

/// The characters of `line`, one by one.
pub(crate) fn chars_of(line: &str) -> (r: Vec<char>)
    ensures
        r@ == line@,
{
    let n = line.unicode_len();
    let mut r: Vec<char> = Vec::new();
    let mut i: usize = 0;
    while i < n
        invariant
            n == line@.len(),
            i <= n,
            r@ == line@.take(i as int),
        decreases n - i,
    {
        r.push(line.get_char(i));
        i += 1;
        assert(r@ =~= line@.take(i as int));
    }
    assert(line@.take(n as int) =~= line@);
    r
}

/// Whether the characters `s[a..b]` spell `lit`.
pub(crate) fn text_is(s: &Vec<char>, a: usize, b: usize, lit: &str) -> (r: bool)
    requires
        a <= b <= s@.len(),
    ensures
        r == (s@.subrange(a as int, b as int) == lit@),
{
    let n = lit.unicode_len();
    if b - a != n {
        return false;
    }
    let mut j: usize = 0;
    while j < n
        invariant
            n == lit@.len(),
            b - a == n,
            a <= b <= s@.len(),
            j <= n,
            forall|k: int| 0 <= k < j ==> s@[a + k] == lit@[k],
        decreases n - j,
    {
        if s[a + j] != lit.get_char(j) {
            assert(s@.subrange(a as int, b as int)[j as int] != lit@[j as int]);
            return false;
        }
        j += 1;
    }
    assert(s@.subrange(a as int, b as int) =~= lit@);
    true
}

} // verus!
