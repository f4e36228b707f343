//! Pieces of pattern text: decimal numbers, joined letters, and the step from
//! a vector of characters to a `String`.

use vstd::prelude::*;

verus! {

/// The character of one decimal digit.
pub open spec fn digit(d: nat) -> char
    recommends
        d < 10,
{
    (d + 0x30) as char
}

/// A number written in decimal, without sign or leading zeros.
pub open spec fn decimal(n: nat) -> Seq<char>
    decreases n,
{
    if n < 10 {
        seq![digit(n)]
    } else {
        decimal(n / 10).push(digit(n % 10))
    }
}

/// The items written one after another with `sep` between neighbours.
pub open spec fn joined(items: Seq<char>, sep: Seq<char>) -> Seq<char>
    decreases items.len(),
{
    if items.len() == 0 {
        Seq::empty()
    } else if items.len() == 1 {
        seq![items[0]]
    } else {
        joined(items.drop_last(), sep) + sep + seq![items.last()]
    }
}

/// Appends `n` in decimal to `out`.
pub fn push_decimal(out: &mut Vec<char>, n: usize)
    ensures
        final(out)@ == old(out)@ + decimal(n as nat),
    decreases n,
{
    if n >= 10 {
        push_decimal(out, n / 10);
    }
    let low: u8 = (n % 10) as u8;
    out.push((low + 0x30u8) as char);
}

/// Appends every character of `tail` to `out`.
pub fn push_all(out: &mut Vec<char>, tail: &Vec<char>)
    ensures
        final(out)@ == old(out)@ + tail@,
{
    let mut i: usize = 0;
    while i < tail.len()
        invariant
            i <= tail.len(),
            out@ == old(out)@ + tail@.take(i as int),
        decreases tail.len() - i,
    {
        out.push(tail[i]);
        i += 1;
        assert(tail@.take(i as int) == tail@.take(i - 1).push(tail@[i - 1]));
    }
    assert(tail@.take(tail.len() as int) == tail@);
}

/// Collects characters into a `String` with
/// `Iterator::collect::<String>`: the string holds exactly those characters,
/// in their order.
#[verifier::external_body]
pub(crate) fn string_from_chars(chars: &Vec<char>) -> (text: String)
    ensures
        text@ == chars@,
{
    chars.iter().collect::<String>()
}

/// Joins characters with `itertools::join`, which writes each item as
/// `Display` does, a `char` as itself, and writes `sep` between two
/// neighbours; of no items it makes the empty string. The separator is held
/// to one character at most because the crate reserves room for
/// `sep.len()` bytes per item before it writes, a product that must not
/// overflow.
#[verifier::external_body]
pub(crate) fn join_chars(items: &Vec<char>, sep: &str) -> (text: String)
    requires
        sep@.len() <= 1,
    ensures
        text@ == joined(items@, sep@),
{
    itertools::join(items, sep)
}

} // verus!
