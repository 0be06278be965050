use vstd::prelude::*;

use parity_scale_codec::{Compact, Decode};

verus! {

/// The little-endian value of the four bytes at `i`.
pub open spec fn le_u32_at(s: Seq<u8>, i: int) -> int {
    s[i] as int + 256 * (s[i + 1] as int) + 65536 * (s[i + 2] as int) + 16777216 * (
    s[i + 3] as int)
}

/// The compact (SCALE) encoding of a 32-bit integer at the start of `s`:
/// its value and the number of bytes it takes. The two low bits of the first
/// byte give the width; a value that a shorter width could hold is refused.
pub open spec fn compact_u32_of(s: Seq<u8>) -> Option<(u32, int)> {
    if s.len() == 0 {
        None
    } else {
        let p = s[0] as int;
        if p % 4 == 0 {
            Some(((p / 4) as u32, 1))
        } else if p % 4 == 1 {
            if s.len() < 2 {
                None
            } else {
                let x = (p + 256 * (s[1] as int)) / 4;
                if x > 63 {
                    Some((x as u32, 2))
                } else {
                    None
                }
            }
        } else if p % 4 == 2 {
            if s.len() < 4 {
                None
            } else {
                let x = le_u32_at(s, 0) / 4;
                if x > 16383 {
                    Some((x as u32, 4))
                } else {
                    None
                }
            }
        } else {
            if p / 4 == 0 && s.len() >= 5 {
                let x = le_u32_at(s, 1);
                if x > 1073741823 {
                    Some((x as u32, 5))
                } else {
                    None
                }
            } else {
                None
            }
        }
    }
}

/// Relies on parity_scale_codec's `Decode` for `Compact<u32>`: the value
/// at the start of the bytes and how many bytes are left after it.
#[verifier::external_body]
pub(crate) fn decode_compact_u32(s: &[u8]) -> (r: Option<(u32, usize)>)
    ensures
        compact_u32_of(s@) is None ==> r is None,
        compact_u32_of(s@) matches Some(c) ==> r == Some((c.0, (s@.len() - c.1) as usize)),
{
    let mut input: &[u8] = s;
    match <Compact<u32> as Decode>::decode(&mut input) {
        Ok(c) => Some((c.0, input.len())),
        Err(_) => None,
    }
}

/// The compact integer at `pos` of `s`, and the position after it.
pub open spec fn compact_at(s: Seq<u8>, pos: int) -> Option<(u32, int)> {
    match compact_u32_of(s.subrange(pos, s.len() as int)) {
        Some(c) => Some((c.0, pos + c.1)),
        None => None,
    }
}

/// Reads the compact integer at `pos`.
pub fn read_compact(s: &[u8], pos: usize) -> (r: Option<(u32, usize)>)
    requires
        pos <= s.len(),
    ensures
        compact_at(s@, pos as int) is None ==> r is None,
        compact_at(s@, pos as int) matches Some(c) ==> (r matches Some(x) && x.0 == c.0 && x.1
            == c.1 && c.1 <= s.len()),
{
    let (_, rest) = s.split_at(pos);
    match decode_compact_u32(rest) {
        Some((v, left)) => {
            proof {
                lemma_compact_width(rest@);
            }
            Some((v, s.len() - left))
        },
        None => None,
    }
}

/// A compact integer takes one to five bytes, all inside the input.
pub proof fn lemma_compact_width(s: Seq<u8>)
    requires
        compact_u32_of(s) is Some,
    ensures
        1 <= compact_u32_of(s).unwrap().1 <= 5,
        compact_u32_of(s).unwrap().1 <= s.len(),
{
}

} // verus!
