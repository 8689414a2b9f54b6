//! Unsigned LEB128 integers, the length and count prefixes of the wire
//! format. A value is written seven bits at a time, least significant
//! group first, with the high bit of every byte but the last set; a
//! 32-bit value takes at most five bytes, and the fifth byte of a
//! five-byte encoding must carry at most four value bits.

use vstd::prelude::*;
use crate::error::MutationError;

verus! {

/// The canonical (minimal) LEB128 encoding of `v`.
pub open spec fn enc_leb(v: nat) -> Seq<u8>
    decreases v,
{
    if v < 0x80 {
        seq![v as u8]
    } else {
        seq![(v % 0x80 + 0x80) as u8] + enc_leb(v / 0x80)
    }
}

/// Reads one LEB128 value from the front of `b`, with `rem` bytes of
/// budget left, and yields the value and the unread rest. `None` stands
/// for a truncated or over-wide encoding.
pub open spec fn dec_leb(b: Seq<u8>, rem: nat) -> Option<(nat, Seq<u8>)>
    decreases b.len(),
{
    if rem == 0 || b.len() == 0 {
        None
    } else {
        let x = b[0];
        if rem == 1 && x > 0x0f {
            None
        } else if x < 0x80 {
            Some((x as nat, b.skip(1)))
        } else {
            match dec_leb(b.skip(1), (rem - 1) as nat) {
                Option::None => None,
                Option::Some((v, r)) => Some(((x - 0x80) as nat + 0x80 * v, r)),
            }
        }
    }
}

/// Exclusive upper bound on the value a `rem`-byte budget can decode to.
pub open spec fn leb_max(rem: nat) -> nat
    decreases rem,
{
    if rem <= 1 {
        0x10
    } else {
        0x80 * leb_max((rem - 1) as nat)
    }
}

/// A five-byte budget decodes exactly the 32-bit range.
pub proof fn lemma_leb_max_5()
    ensures
        leb_max(5) == 0x1_0000_0000,
        leb_max(4) == 0x200_0000,
        leb_max(3) == 0x4_0000,
        leb_max(2) == 0x800,
        leb_max(1) == 0x10,
{
    assert(leb_max(1) == 0x10);
    assert(leb_max(2) == 0x80 * leb_max(1));
    assert(leb_max(3) == 0x80 * leb_max(2));
    assert(leb_max(4) == 0x80 * leb_max(3));
    assert(leb_max(5) == 0x80 * leb_max(4));
}

/// Every decoded value stays under the budget's bound.
pub proof fn lemma_dec_leb_bound(b: Seq<u8>, rem: nat)
    requires
        dec_leb(b, rem) is Some,
    ensures
        dec_leb(b, rem).unwrap().0 < leb_max(rem),
    decreases b.len(),
{
    let x = b[0];
    if rem == 1 || x < 0x80 {
        if rem == 1 {
            assert(x <= 0x0f);
        } else {
            assert(leb_max(rem) >= 0x800) by {
                assert(leb_max(1) == 0x10);
                assert(leb_max(2) == 0x80 * leb_max(1));
                lemma_leb_max_monotone(2, rem);
            }
        }
    } else {
        lemma_dec_leb_bound(b.skip(1), (rem - 1) as nat);
    }
}

/// The bound grows with the budget.
pub proof fn lemma_leb_max_monotone(r1: nat, r2: nat)
    requires
        r1 <= r2,
    ensures
        leb_max(r1) <= leb_max(r2),
    decreases r2,
{
    if r1 < r2 && r2 >= 2 {
        lemma_leb_max_monotone(r1, (r2 - 1) as nat);
        assert(leb_max(r2) == 0x80 * leb_max((r2 - 1) as nat));
    }
}

/// Decoding undoes encoding: the canonical encoding of any value under
/// the budget's bound, followed by anything, reads back as that value
/// with the tail untouched.
pub proof fn lemma_leb_round_trip(v: nat, rem: nat, tail: Seq<u8>)
    requires
        1 <= rem,
        v < leb_max(rem),
    ensures
        dec_leb(enc_leb(v) + tail, rem) == Some((v, tail)),
    decreases v,
{
    let b = enc_leb(v) + tail;
    if v < 0x80 {
        assert(b[0] == v as u8);
        if rem == 1 {
            assert(leb_max(1) == 0x10);
        }
        assert(b.skip(1) =~= tail);
    } else {
        assert(rem >= 2) by {
            if rem == 1 {
                assert(leb_max(1) == 0x10);
            }
        }
        let x = (v % 0x80 + 0x80) as u8;
        assert(b[0] == x);
        assert(x >= 0x80);
        assert(leb_max(rem) == 0x80 * leb_max((rem - 1) as nat));
        assert(v / 0x80 < leb_max((rem - 1) as nat));
        lemma_leb_round_trip(v / 0x80, (rem - 1) as nat, tail);
        assert(b.skip(1) =~= enc_leb(v / 0x80) + tail);
        assert((x - 0x80) as nat + 0x80 * (v / 0x80) == v);
    }
}

/// Reads one LEB128 value of at most `rem` further bytes.
fn read_leb_rec(bytes: &Vec<u8>, pos: usize, rem: u8) -> (r: Result<(u32, usize), MutationError>)
    requires
        pos <= bytes@.len(),
        1 <= rem <= 5,
    ensures
        match r {
            Ok(vp) => {
                &&& pos < vp.1 <= bytes@.len()
                &&& dec_leb(bytes@.skip(pos as int), rem as nat) == Some(
                    (vp.0 as nat, bytes@.skip(vp.1 as int)),
                )
                &&& (vp.0 as nat) < leb_max(rem as nat)
            },
            Err(e) => {
                &&& e == MutationError::DecodeError
                &&& dec_leb(bytes@.skip(pos as int), rem as nat) is None
            },
        },
    decreases rem,
{
    proof {
        lemma_leb_max_5();
    }
    if pos >= bytes.len() {
        return Err(MutationError::DecodeError);
    }
    let x = bytes[pos];
    assert(bytes@.skip(pos as int)[0] == x);
    if rem == 1 && x > 0x0f {
        Err(MutationError::DecodeError)
    } else if x < 0x80 {
        assert(bytes@.skip(pos as int).skip(1) =~= bytes@.skip(pos + 1));
        Ok((x as u32, pos + 1))
    } else {
        assert(rem >= 2);
        match read_leb_rec(bytes, pos + 1, rem - 1) {
            Err(e) => {
                assert(bytes@.skip(pos as int).skip(1) =~= bytes@.skip(pos + 1));
                Err(e)
            },
            Ok((v, p)) => {
                proof {
                    lemma_leb_max_monotone((rem - 1) as nat, 4);
                }
                assert(v < 0x200_0000);
                let val: u32 = (x - 0x80) as u32 + 0x80 * v;
                assert(bytes@.skip(pos as int).skip(1) =~= bytes@.skip(pos + 1));
                assert(val as nat == (x - 0x80) as nat + 0x80 * (v as nat));
                assert((val as nat) < leb_max(rem as nat)) by {
                    assert(leb_max(rem as nat) == 0x80 * leb_max((rem - 1) as nat));
                }
                Ok((val, p))
            },
        }
    }
}

/// Reads one 32-bit LEB128 value at `pos`, yielding the value and the
/// position just past it.
pub fn read_leb(bytes: &Vec<u8>, pos: usize) -> (r: Result<(u32, usize), MutationError>)
    requires
        pos <= bytes@.len(),
    ensures
        match r {
            Ok(vp) => {
                &&& pos < vp.1 <= bytes@.len()
                &&& dec_leb(bytes@.skip(pos as int), 5) == Some(
                    (vp.0 as nat, bytes@.skip(vp.1 as int)),
                )
            },
            Err(e) => {
                &&& e == MutationError::DecodeError
                &&& dec_leb(bytes@.skip(pos as int), 5) is None
            },
        },
{
    read_leb_rec(bytes, pos, 5)
}

/// Appends the canonical LEB128 encoding of `v` to `out`.
pub fn write_leb(v: u32, out: &mut Vec<u8>)
    ensures
        final(out)@ == old(out)@ + enc_leb(v as nat),
{
    let mut x: u32 = v;
    while x >= 0x80
        invariant
            out@ + enc_leb(x as nat) =~= old(out)@ + enc_leb(v as nat),
        decreases x,
    {
        let byte: u8 = (x % 0x80 + 0x80) as u8;
        let ghost prev = x;
        out.push(byte);
        x = x / 0x80;
        proof {
            assert(enc_leb(prev as nat) == seq![byte] + enc_leb(x as nat));
            assert(out@ + enc_leb(x as nat) =~= old(out)@ + enc_leb(v as nat));
        }
    }
    out.push(x as u8);
    proof {
        assert(enc_leb(x as nat) == seq![x as u8]);
        assert(out@ =~= old(out)@ + enc_leb(v as nat));
    }
}

} // verus!
