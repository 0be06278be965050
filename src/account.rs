use vstd::prelude::*;

use crate::error::ClientError;

verus! {

/// The balances of an account.
#[derive(Debug, Clone, Copy, PartialEq, Eq, Structural)]
pub struct AccountData {
    pub free: u128,
    pub reserved: u128,
    pub misc_frozen: u128,
    pub fee_frozen: u128,
}

/// The record that the node keeps of an account.
#[derive(Debug, Clone, Copy, PartialEq, Eq, Structural)]
pub struct AccountInfo {
    /// The number of transactions the account has sent.
    pub nonce: u32,
    pub refcount: u32,
    pub data: AccountData,
}

/// The number of bytes of an encoded account record.
pub const ACCOUNT_INFO_LEN: usize = 72;

/// The unsigned integer whose little-endian bytes these are.
pub open spec fn le_value(s: Seq<u8>) -> nat
    decreases s.len(),
{
    if s.len() == 0 {
        0
    } else {
        s[0] as nat + 256 * le_value(s.drop_first())
    }
}

pub open spec fn pow256(n: nat) -> nat
    decreases n,
{
    if n == 0 {
        1
    } else {
        256 * pow256((n - 1) as nat)
    }
}

proof fn lemma_pow256_values()
    ensures
        pow256(4) == 0x1_0000_0000,
        pow256(16) == 0x1_0000_0000_0000_0000_0000_0000_0000_0000,
{
    reveal_with_fuel(pow256, 17);
}

proof fn lemma_pow256_mono(a: nat, b: nat)
    requires
        a <= b,
    ensures
        pow256(a) <= pow256(b),
    decreases b,
{
    if a < b {
        lemma_pow256_mono(a, (b - 1) as nat);
    }
}

/// The little-endian integer of `width` bytes at `pos`.
pub fn read_le(s: &[u8], pos: usize, width: usize) -> (r: u128)
    requires
        width <= 16,
        pos + width <= s.len(),
    ensures
        r == le_value(s@.subrange(pos as int, pos + width)),
{
    let mut i: usize = width;
    let mut v: u128 = 0;
    proof {
        lemma_pow256_values();
    }
    while i > 0
        invariant
            i <= width <= 16,
            pos + width <= s.len(),
            v == le_value(s@.subrange(pos + i, pos + width)),
            v < pow256((width - i) as nat),
            pow256(16) == 0x1_0000_0000_0000_0000_0000_0000_0000_0000,
        decreases i,
    {
        let ghost k = (width - i) as nat;
        proof {
            lemma_pow256_mono(k + 1, 16);
            assert(s@.subrange(pos + i - 1, pos + width).drop_first() =~= s@.subrange(
                pos + i,
                pos + width,
            ));
            assert(pow256(k + 1) == 256 * pow256(k));
        }
        v = v * 256 + s[pos + i - 1] as u128;
        i = i - 1;
    }
    v
}

/// The account record encoded in `b`: nonce and reference count as 32-bit
/// integers, then the four balances as 128-bit integers, all little-endian.
pub open spec fn account_info_of(b: Seq<u8>) -> AccountInfo {
    AccountInfo {
        nonce: le_value(b.subrange(0, 4)) as u32,
        refcount: le_value(b.subrange(4, 8)) as u32,
        data: AccountData {
            free: le_value(b.subrange(8, 24)) as u128,
            reserved: le_value(b.subrange(24, 40)) as u128,
            misc_frozen: le_value(b.subrange(40, 56)) as u128,
            fee_frozen: le_value(b.subrange(56, 72)) as u128,
        },
    }
}

/// Decodes an account record; fails where there are too few bytes.
pub fn decode_account_info(b: &[u8]) -> (r: Result<AccountInfo, ClientError>)
    ensures
        b.len() >= ACCOUNT_INFO_LEN ==> r == Ok::<_, ClientError>(account_info_of(b@)),
        b.len() < ACCOUNT_INFO_LEN ==> r == Err::<AccountInfo, _>(ClientError::DecodeError),
{
    if b.len() < ACCOUNT_INFO_LEN {
        return Err(ClientError::DecodeError);
    }
    let nonce = read_le(b, 0, 4);
    let refcount = read_le(b, 4, 4);
    proof {
        lemma_le_value_bound(b@.subrange(0, 4));
        lemma_le_value_bound(b@.subrange(4, 8));
        lemma_pow256_values();
    }
    Ok(
        AccountInfo {
            nonce: nonce as u32,
            refcount: refcount as u32,
            data: AccountData {
                free: read_le(b, 8, 16),
                reserved: read_le(b, 24, 16),
                misc_frozen: read_le(b, 40, 16),
                fee_frozen: read_le(b, 56, 16),
            },
        },
    )
}

proof fn lemma_le_value_bound(s: Seq<u8>)
    ensures
        le_value(s) < pow256(s.len()),
    decreases s.len(),
{
    if s.len() > 0 {
        lemma_le_value_bound(s.drop_first());
    }
}

/// The nonce to sign the next transaction with: a signer must be set; an
/// account that the node has no record of (`stored` is `None`) has sent
/// nothing yet, so its nonce is 0.
pub fn nonce_from_storage(signer_set: bool, stored: Option<&[u8]>) -> (r: Result<u32, ClientError>)
    ensures
        !signer_set ==> r == Err::<u32, _>(ClientError::ConfigurationError),
        signer_set && stored is None ==> r == Ok::<u32, ClientError>(0),
        signer_set ==> (stored matches Some(b) ==> (if b.len() >= ACCOUNT_INFO_LEN {
            r == Ok::<u32, ClientError>(account_info_of(b@).nonce)
        } else {
            r == Err::<u32, _>(ClientError::DecodeError)
        })),
{
    if !signer_set {
        return Err(ClientError::ConfigurationError);
    }
    match stored {
        None => Ok(0),
        Some(b) => match decode_account_info(b) {
            Ok(info) => Ok(info.nonce),
            Err(e) => Err(e),
        },
    }
}

} // verus!
