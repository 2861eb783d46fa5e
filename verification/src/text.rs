//! The decimal text of integers.

use vstd::prelude::*;

verus! {

/// The decimal digits of a natural number, most significant first, as ASCII.
pub open spec fn digits(n: nat) -> Seq<u8>
    decreases n,
{
    if n < 10 {
        seq![(48 + n) as u8]
    } else {
        digits(n / 10).push((48 + n % 10) as u8)
    }
}

/// The canonical text of an integer: a minus sign for a negative one, then
/// the digits of its magnitude.
pub open spec fn decimal(i: int) -> Seq<u8> {
    if i < 0 {
        seq![45u8] + digits((-i) as nat)
    } else {
        digits(i as nat)
    }
}

fn push_digits(n: u64, out: &mut Vec<u8>)
    ensures
        final(out)@ == old(out)@ + digits(n as nat),
    decreases n,
{
    if n >= 10 {
        push_digits(n / 10, out);
    }
    let d: u8 = (n % 10) as u8;
    out.push(48 + d);
    assert(out@ =~= old(out)@ + digits(n as nat));
}

/// Writes an integer as text.
pub fn int_to_text(i: i64) -> (r: Vec<u8>)
    ensures
        r@ == decimal(i as int),
{
    let mut out: Vec<u8> = Vec::new();
    if i < 0 {
        out.push(45);
        let m: u64 = if i == i64::MIN { 0x8000_0000_0000_0000 } else { (-i) as u64 };
        push_digits(m, &mut out);
        assert(out@ =~= decimal(i as int));
    } else {
        push_digits(i as u64, &mut out);
        assert(out@ =~= decimal(i as int));
    }
    out
}

} // verus!
