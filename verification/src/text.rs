//! Character sequences: their order and their decimal rendering.

use vstd::prelude::*;
use vstd::std_specs::iter::IteratorSpec;

verus! {

/// Lexicographic order on character sequences, characters compared by code
/// point: the order of Rust strings (UTF-8 byte order agrees with code point
/// order).
pub open spec fn seq_char_lt(a: Seq<char>, b: Seq<char>) -> bool
    decreases a.len(),
{
    if a.len() == 0 {
        b.len() > 0
    } else if b.len() == 0 {
        false
    } else if a[0] != b[0] {
        (a[0] as u32) < (b[0] as u32)
    } else {
        seq_char_lt(a.drop_first(), b.drop_first())
    }
}

/// `a < b` on two strings, as std's `PartialOrd for String` orders them:
/// true when `a` comes strictly before `b` in lexicographic order.
pub(crate) fn string_lt(a: &String, b: &String) -> (r: bool)
    ensures
        r == seq_char_lt(a@, b@),
{
    broadcast use vstd::string::next_postcondition, vstd::string::axiom_spec_iter;
    let n = a.as_str().unicode_len();
    let mut i: usize = 0;
    let mut ai = a.as_str().chars();
    let mut bi = b.as_str().chars();
    loop
        invariant
            ai.obeys_prophetic_iter_laws(),
            bi.obeys_prophetic_iter_laws(),
            i <= n,
            ai.remaining().len() == n - i,
            seq_char_lt(ai.remaining(), bi.remaining()) == seq_char_lt(a@, b@),
        decreases n - i,
    {
        let x = ai.next();
        let y = bi.next();
        match (x, y) {
            (None, None) => return false,
            (None, Some(_)) => return true,
            (Some(_), None) => return false,
            (Some(c), Some(d)) => if c != d {
                return (c as u32) < (d as u32);
            },
        }
        i = i + 1;
    }
}

} // verus!
