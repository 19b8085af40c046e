use vstd::prelude::*;

verus! {

/// Appends one character to a string.
///
/// Relies on `String::push`: the character is added at the end.
#[verifier::external_body]
fn push_char(s: &mut String, c: char)
    ensures
        final(s)@ == old(s)@.push(c),
{
    s.push(c)
}

/// The characters of a string slice, in order.
pub fn chars_of(s: &str) -> (r: Vec<char>)
    ensures
        r@ == s@,
{
    let mut r: Vec<char> = Vec::new();
    let mut it = s.chars();
    for c in iter: it
        invariant
            iter.seq() == s@,
            r@ == iter.seq().take(iter.index() as int),
    {
        r.push(c);
    }
    r
}

/// The string made of the given characters, in order.
pub fn string_of(cs: &[char]) -> (r: String)
    ensures
        r@ == cs@,
{
    let mut r = String::new();
    let mut i: usize = 0;
    while i < cs.len()
        invariant
            i <= cs@.len(),
            r@ == cs@.take(i as int),
        decreases cs@.len() - i,
    {
        push_char(&mut r, cs[i]);
        assert(cs@.take(i + 1) == cs@.take(i as int).push(cs@[i as int]));
        i = i + 1;
    }
    assert(cs@.take(cs@.len() as int) == cs@);
    r
}

} // verus!
