//! Bridging between text and character vectors, so that the scalar
//! rules can work over plain character data.
use vstd::prelude::*;

verus! {

use vstd::std_specs::iter::IteratorSpec;

broadcast use vstd::string::group_string_axioms;

/// The characters of a string slice, in order.
pub fn chars_of(s: &str) -> (v: Vec<char>)
    ensures
        v@ == s@,
{
    let mut it = s.chars();
    let mut v: Vec<char> = Vec::new();
    loop
        invariant_except_break
            v@ + it.remaining() == s@,
        ensures
            v@ == s@,
        decreases s@.len() - v@.len(),
    {
        match it.next() {
            Some(c) => {
                v.push(c);
            },
            None => {
                proof {
                    assert(v@ =~= s@);
                }
                break ;
            },
        }
    }
    v
}

/// Relies on `String`'s `FromIterator<char>` impl: collecting
/// characters yields the string made of exactly those characters.
#[verifier::external_body]
pub fn string_of(cs: Vec<char>) -> (s: String)
    ensures
        s@ == cs@,
{
    cs.into_iter().collect()
}

} // verus!
