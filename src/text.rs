use vstd::prelude::*;
use vstd::string::*;

verus! {

/// The characters of `s`, one per element.
pub fn chars_of(s: &str) -> (v: Vec<char>)
    ensures
        v@ == s@,
{
    let n = s.unicode_len();
    let mut v: Vec<char> = Vec::new();
    let mut i: usize = 0;
    while i < n
        invariant
            n == s@.len(),
            i <= n,
            v@ == s@.subrange(0, i as int),
        decreases n - i,
    {
        v.push(s.get_char(i));
        i = i + 1;
    }
    assert(v@ =~= s@);
    v
}

/// A copy of the characters of `s` from `from` up to, not including, `to`.
pub fn substring(s: &str, from: usize, to: usize) -> (r: String)
    requires
        from <= to <= s@.len(),
    ensures
        r@ == s@.subrange(from as int, to as int),
{
    String::from_str(s.substring_char(from, to))
}

} // verus!
