use vstd::prelude::*;

use crate::error::ClientError;
use crate::hashing::{
    blake2_128, blake2_128_of, blake2_256, blake2_256_of, twox_128, twox_128_of, twox_256,
    twox_256_of, twox_64, twox_64_of,
};

verus! {

/// How the key of a storage map is turned into part of a storage address.
#[derive(Debug, Clone, Copy, PartialEq, Eq, Structural)]
pub enum StorageHasher {
    Blake2_128,
    Blake2_256,
    /// The 128-bit Blake2 digest followed by the key itself.
    Blake2_128Concat,
    Twox128,
    Twox256,
    /// The 64-bit xxHash digest followed by the key itself.
    Twox64Concat,
    /// The key itself.
    Identity,
}

/// The shape of a storage entry.
#[derive(Debug, Clone, Copy, PartialEq, Eq, Structural)]
pub enum StorageKind {
    Plain,
    SingleMap(StorageHasher),
    DoubleMap(StorageHasher, StorageHasher),
}

/// The part of a storage address that `h` makes of an encoded key.
pub open spec fn hashed(h: StorageHasher, key: Seq<u8>) -> Seq<u8> {
    match h {
        StorageHasher::Blake2_128 => blake2_128_of(key),
        StorageHasher::Blake2_256 => blake2_256_of(key),
        StorageHasher::Blake2_128Concat => blake2_128_of(key) + key,
        StorageHasher::Twox128 => twox_128_of(key),
        StorageHasher::Twox256 => twox_256_of(key),
        StorageHasher::Twox64Concat => twox_64_of(key) + key,
        StorageHasher::Identity => key,
    }
}

/// Whether the encoded key can be read back from the address.
pub open spec fn is_reversible(h: StorageHasher) -> bool {
    h == StorageHasher::Blake2_128Concat || h == StorageHasher::Twox64Concat || h
        == StorageHasher::Identity
}

/// The width of the digest part of `h` on `key`: what the hash functions
/// always give.
pub open spec fn digest_widths(key: Seq<u8>) -> bool {
    blake2_128_of(key).len() == 16 && twox_64_of(key).len() == 8
}

/// The number of keys that an entry of this kind takes.
pub open spec fn arity(kind: StorageKind) -> nat {
    match kind {
        StorageKind::Plain => 0,
        StorageKind::SingleMap(_) => 1,
        StorageKind::DoubleMap(_, _) => 2,
    }
}

/// The address of an entry: the short hashes of module and item names, then
/// each key as its entry declares.
pub open spec fn storage_key_of(
    module: Seq<u8>,
    item: Seq<u8>,
    kind: StorageKind,
    keys: Seq<Seq<u8>>,
) -> Seq<u8> {
    let prefix = twox_128_of(module) + twox_128_of(item);
    match kind {
        StorageKind::Plain => prefix,
        StorageKind::SingleMap(h) => prefix + hashed(h, keys[0]),
        StorageKind::DoubleMap(h1, h2) => prefix + hashed(h1, keys[0]) + hashed(h2, keys[1]),
    }
}

pub open spec fn keys_view(keys: Seq<Vec<u8>>) -> Seq<Seq<u8>> {
    keys.map_values(|k: Vec<u8>| k@)
}

/// The address part that `h` makes of `key`.
pub fn hash_key(h: StorageHasher, key: &[u8]) -> (r: Vec<u8>)
    ensures
        r@ == hashed(h, key@),
{
    match h {
        StorageHasher::Blake2_128 => blake2_128(key),
        StorageHasher::Blake2_256 => blake2_256(key),
        StorageHasher::Blake2_128Concat => {
            let mut r = blake2_128(key);
            append_bytes(&mut r, key);
            r
        },
        StorageHasher::Twox128 => twox_128(key),
        StorageHasher::Twox256 => twox_256(key),
        StorageHasher::Twox64Concat => {
            let mut r = twox_64(key);
            append_bytes(&mut r, key);
            r
        },
        StorageHasher::Identity => {
            let mut r: Vec<u8> = Vec::new();
            append_bytes(&mut r, key);
            assert(r@ =~= key@);
            r
        },
    }
}

/// Appends `src` to `dst`.
pub fn append_bytes(dst: &mut Vec<u8>, src: &[u8])
    ensures
        final(dst)@ == old(dst)@ + src@,
{
    let mut i: usize = 0;
    while i < src.len()
        invariant
            0 <= i <= src.len(),
            dst@ == old(dst)@ + src@.subrange(0, i as int),
        decreases src.len() - i,
    {
        dst.push(src[i]);
        i = i + 1;
        assert(src@.subrange(0, i as int) == src@.subrange(0, i - 1) + seq![src@[i - 1]]);
    }
    assert(src@.subrange(0, src.len() as int) == src@);
}

/// The storage address of the entry `item` of `module`, of the given kind,
/// for the encoded keys; fails where the number of keys does not fit the kind.
pub fn derive_key(module: &[u8], item: &[u8], kind: StorageKind, keys: &Vec<Vec<u8>>) -> (r:
    Result<Vec<u8>, ClientError>)
    ensures
        keys.len() == arity(kind) ==> (r matches Ok(k) && k@ == storage_key_of(
            module@,
            item@,
            kind,
            keys_view(keys@),
        )),
        keys.len() != arity(kind) ==> r == Err::<Vec<u8>, _>(ClientError::KeyArityMismatch),
{
    let mut out = twox_128(module);
    let item_hash = twox_128(item);
    append_bytes(&mut out, item_hash.as_slice());
    match kind {
        StorageKind::Plain => {
            if keys.len() != 0 {
                return Err(ClientError::KeyArityMismatch);
            }
        },
        StorageKind::SingleMap(h) => {
            if keys.len() != 1 {
                return Err(ClientError::KeyArityMismatch);
            }
            let part = hash_key(h, keys[0].as_slice());
            append_bytes(&mut out, part.as_slice());
        },
        StorageKind::DoubleMap(h1, h2) => {
            if keys.len() != 2 {
                return Err(ClientError::KeyArityMismatch);
            }
            let first = hash_key(h1, keys[0].as_slice());
            append_bytes(&mut out, first.as_slice());
            let second = hash_key(h2, keys[1].as_slice());
            append_bytes(&mut out, second.as_slice());
        },
    }
    Ok(out)
}

/// The same module, item, kind and keys always give the same address: no
/// salt or state enters the derivation.
pub proof fn lemma_key_deterministic(
    module: Seq<u8>,
    item: Seq<u8>,
    kind: StorageKind,
    keys1: Seq<Seq<u8>>,
    keys2: Seq<Seq<u8>>,
)
    requires
        keys1 =~= keys2,
    ensures
        storage_key_of(module, item, kind, keys1) == storage_key_of(module, item, kind, keys2),
{
}

proof fn lemma_differ_after(p: Seq<u8>, a: Seq<u8>, b: Seq<u8>, ra: Seq<u8>, rb: Seq<u8>)
    requires
        a != b,
        a.len() == b.len(),
    ensures
        p + a + ra != p + b + rb,
{
    let i = choose|i: int| 0 <= i < a.len() && a[i] != b[i];
    assert(exists|i: int| 0 <= i < a.len() && a[i] != b[i]) by {
        if forall|i: int| 0 <= i < a.len() ==> a[i] == b[i] {
            assert(a =~= b);
        }
    }
    assert((p + a + ra)[p.len() + i] == a[i]);
    assert((p + b + rb)[p.len() + i] == b[i]);
}

proof fn lemma_reversible_injective(h: StorageHasher, p: Seq<u8>, k1: Seq<u8>, k2: Seq<u8>)
    requires
        is_reversible(h),
        digest_widths(k1),
        digest_widths(k2),
        k1 != k2,
    ensures
        p + hashed(h, k1) != p + hashed(h, k2),
{
    let e = Seq::<u8>::empty();
    let d1 = if h == StorageHasher::Blake2_128Concat {
        blake2_128_of(k1)
    } else if h == StorageHasher::Twox64Concat {
        twox_64_of(k1)
    } else {
        e
    };
    let d2 = if h == StorageHasher::Blake2_128Concat {
        blake2_128_of(k2)
    } else if h == StorageHasher::Twox64Concat {
        twox_64_of(k2)
    } else {
        e
    };
    assert(hashed(h, k1) =~= d1 + k1);
    assert(hashed(h, k2) =~= d2 + k2);
    assert(p + hashed(h, k1) =~= p + d1 + k1 + e);
    assert(p + hashed(h, k2) =~= p + d2 + k2 + e);
    if d1 != d2 {
        lemma_differ_after(p, d1, d2, k1 + e, k2 + e);
        assert(p + d1 + (k1 + e) =~= p + d1 + k1 + e);
        assert(p + d2 + (k2 + e) =~= p + d2 + k2 + e);
    } else if k1.len() != k2.len() {
        assert((p + hashed(h, k1)).len() != (p + hashed(h, k2)).len());
    } else {
        lemma_differ_after(p + d1, k1, k2, e, e);
    }
}

/// For a map whose hasher keeps the key readable, two different keys give
/// two different addresses. The other hashers give no such promise: two
/// keys whose digests collide share an address.
pub proof fn lemma_map_key_injective(
    module: Seq<u8>,
    item: Seq<u8>,
    h: StorageHasher,
    k1: Seq<u8>,
    k2: Seq<u8>,
)
    requires
        is_reversible(h),
        digest_widths(k1),
        digest_widths(k2),
        k1 != k2,
    ensures
        storage_key_of(module, item, StorageKind::SingleMap(h), seq![k1]) != storage_key_of(
            module,
            item,
            StorageKind::SingleMap(h),
            seq![k2],
        ),
{
    lemma_reversible_injective(h, twox_128_of(module) + twox_128_of(item), k1, k2);
}

/// For a double map whose second hasher keeps the key readable, changing
/// the second key alone changes the address.
pub proof fn lemma_double_map_second_key_injective(
    module: Seq<u8>,
    item: Seq<u8>,
    h1: StorageHasher,
    h2: StorageHasher,
    first: Seq<u8>,
    k1: Seq<u8>,
    k2: Seq<u8>,
)
    requires
        is_reversible(h2),
        digest_widths(k1),
        digest_widths(k2),
        k1 != k2,
    ensures
        storage_key_of(module, item, StorageKind::DoubleMap(h1, h2), seq![first, k1])
            != storage_key_of(module, item, StorageKind::DoubleMap(h1, h2), seq![first, k2]),
{
    lemma_reversible_injective(
        h2,
        twox_128_of(module) + twox_128_of(item) + hashed(h1, first),
        k1,
        k2,
    );
}

/// For a double map whose first hasher keeps the key readable, changing the
/// first key to another of the same length changes the address, whatever the
/// second keys are. First keys of different lengths give no such promise:
/// with the identity hasher on both keys, the pairs (`ab`, `c`) and (`a`,
/// `bc`) share an address.
pub proof fn lemma_double_map_first_key_injective(
    module: Seq<u8>,
    item: Seq<u8>,
    h1: StorageHasher,
    h2: StorageHasher,
    k1: Seq<u8>,
    k2: Seq<u8>,
    second1: Seq<u8>,
    second2: Seq<u8>,
)
    requires
        is_reversible(h1),
        digest_widths(k1),
        digest_widths(k2),
        k1 != k2,
        k1.len() == k2.len(),
    ensures
        storage_key_of(module, item, StorageKind::DoubleMap(h1, h2), seq![k1, second1])
            != storage_key_of(module, item, StorageKind::DoubleMap(h1, h2), seq![k2, second2]),
{
    let p = twox_128_of(module) + twox_128_of(item);
    assert(hashed(h1, k1).len() == hashed(h1, k2).len());
    if hashed(h1, k1) == hashed(h1, k2) {
        lemma_reversible_injective(h1, p, k1, k2);
    }
    lemma_differ_after(p, hashed(h1, k1), hashed(h1, k2), hashed(h2, second1), hashed(h2, second2));
}

} // verus!
