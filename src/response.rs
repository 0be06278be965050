use vstd::prelude::*;

use crate::error::ClientError;

verus! {

/// The value of one hex digit, either case.
pub open spec fn hex_val(c: u8) -> Option<u8> {
    if 48 <= c <= 57 {
        Some((c - 48) as u8)
    } else if 65 <= c <= 70 {
        Some((c - 55) as u8)
    } else if 97 <= c <= 102 {
        Some((c - 87) as u8)
    } else {
        None
    }
}

/// The bytes that a hex text stands for: two digits per byte, the high
/// digit first; an odd length or a character that is no digit gives none.
pub open spec fn hex_decoded(s: Seq<u8>) -> Option<Seq<u8>> {
    if s.len() % 2 == 0 && forall|i: int| 0 <= i < s.len() ==> (#[trigger] hex_val(s[i])) is Some {
        Some(
            Seq::new(
                (s.len() / 2) as nat,
                |i: int| (16 * hex_val(s[2 * i]).unwrap() + hex_val(s[2 * i + 1]).unwrap()) as u8,
            ),
        )
    } else {
        None
    }
}

/// Relies on hex::decode: each pair of hex digits (either case) becomes one
/// byte; an odd length or any other character is an error.
#[verifier::external_body]
fn hex_decode(s: &[u8]) -> (r: Option<Vec<u8>>)
    ensures
        r is None <==> hex_decoded(s@) is None,
        r matches Some(x) ==> hex_decoded(s@) == Some(x@),
{
    hex::decode(s).ok()
}

/// A response text without the double quotes at either end.
pub open spec fn unquoted(s: Seq<u8>) -> Seq<u8>
    decreases s.len(),
{
    if s.len() > 0 && s[0] == 34 {
        unquoted(s.drop_first())
    } else if s.len() > 0 && s.last() == 34 {
        unquoted(s.drop_last())
    } else {
        s
    }
}

/// A text without its `0x` prefix, where it has one.
pub open spec fn without_0x(s: Seq<u8>) -> Seq<u8> {
    if s.len() >= 2 && s[0] == 48 && s[1] == 120 {
        s.subrange(2, s.len() as int)
    } else {
        s
    }
}

/// The text `null`.
pub open spec fn is_null(s: Seq<u8>) -> bool {
    s == seq![110u8, 117u8, 108u8, 108u8]
}

/// What a storage read answered: `Some(None)` for `null`, `Some(Some(v))`
/// for the hex text of `v`, and `None` for anything else.
pub open spec fn storage_payload_of(resp: Seq<u8>) -> Option<Option<Seq<u8>>> {
    let body = without_0x(unquoted(resp));
    if is_null(body) {
        Some(None)
    } else {
        match hex_decoded(body) {
            Some(v) => Some(Some(v)),
            None => None,
        }
    }
}

/// The positions between which the response text lies once the quotes
/// round it are gone.
fn unquoted_range(s: &[u8]) -> (r: (usize, usize))
    ensures
        r.0 <= r.1 <= s.len(),
        s@.subrange(r.0 as int, r.1 as int) == unquoted(s@),
{
    let mut lo: usize = 0;
    assert(s@.subrange(0, s.len() as int) =~= s@);
    while lo < s.len() && s[lo] == 34
        invariant
            lo <= s.len(),
            unquoted(s@) == unquoted(s@.subrange(lo as int, s.len() as int)),
        decreases s.len() - lo,
    {
        assert(s@.subrange(lo as int, s.len() as int).drop_first() =~= s@.subrange(
            lo + 1,
            s.len() as int,
        ));
        lo = lo + 1;
    }
    let mut hi: usize = s.len();
    while hi > lo && s[hi - 1] == 34
        invariant
            lo <= hi <= s.len(),
            lo < s.len() ==> s@[lo as int] != 34,
            unquoted(s@) == unquoted(s@.subrange(lo as int, hi as int)),
        decreases hi - lo,
    {
        assert(s@.subrange(lo as int, hi as int).drop_last() =~= s@.subrange(
            lo as int,
            hi - 1,
        ));
        hi = hi - 1;
    }
    (lo, hi)
}

/// Reads the answer of the node to a storage read: `null` for an absent
/// value, else the hex text of the stored bytes, with or without `0x`;
/// double quotes round it are dropped. Any other text gives `DecodeError`.
pub fn parse_storage_response(resp: &[u8]) -> (r: Result<Option<Vec<u8>>, ClientError>)
    ensures
        storage_payload_of(resp@) matches Some(p) ==> (r matches Ok(x) && match p {
            Some(v) => x matches Some(y) && y@ == v,
            None => x is None,
        }),
        storage_payload_of(resp@) is None ==> r == Err::<Option<Vec<u8>>, _>(
            ClientError::DecodeError,
        ),
{
    let (lo, hi) = unquoted_range(resp);
    let (front, _) = resp.split_at(hi);
    let (_, mut body) = front.split_at(lo);
    assert(body@ == unquoted(resp@));
    if body.len() >= 2 && body[0] == 48 && body[1] == 120 {
        let (_, rest) = body.split_at(2);
        body = rest;
    }
    assert(body@ == without_0x(unquoted(resp@)));
    if body.len() == 4 && body[0] == 110 && body[1] == 117 && body[2] == 108 && body[3] == 108 {
        assert(body@ =~= seq![110u8, 117u8, 108u8, 108u8]);
        return Ok(None);
    }
    assert(!is_null(body@)) by {
        if is_null(body@) {
            assert(body@[0] == 110u8 && body@[1] == 117u8 && body@[2] == 108u8 && body@[3] == 108u8);
        }
    }
    match hex_decode(body) {
        Some(v) => Ok(Some(v)),
        None => Err(ClientError::DecodeError),
    }
}

/// The lowercase hex digit of a value below 16.
pub open spec fn hex_digit(d: int) -> u8 {
    if d < 10 {
        (48 + d) as u8
    } else {
        (87 + d) as u8
    }
}

/// The hex text of some bytes: two lowercase digits per byte, high digit first.
pub open spec fn hex_text(v: Seq<u8>) -> Seq<u8> {
    Seq::new(
        2 * v.len(),
        |i: int| hex_digit(if i % 2 == 0 { v[i / 2] / 16 } else { v[i / 2] % 16 } as int),
    )
}

/// The answer of the node for a stored value: the quoted `0x` hex text.
pub open spec fn quoted_hex(v: Seq<u8>) -> Seq<u8> {
    seq![34u8, 48u8, 120u8] + hex_text(v) + seq![34u8]
}

proof fn lemma_hex_text_decodes(v: Seq<u8>)
    ensures
        hex_decoded(hex_text(v)) == Some(v),
{
    let t = hex_text(v);
    assert forall|i: int| 0 <= i < t.len() implies (#[trigger] hex_val(t[i])) is Some by {
        let d = if i % 2 == 0 { v[i / 2] / 16 } else { v[i / 2] % 16 } as int;
        assert(0 <= d < 16);
    }
    assert(t.len() % 2 == 0);
    let r = hex_decoded(t).unwrap();
    assert(r.len() == v.len());
    assert forall|i: int| 0 <= i < v.len() implies r[i] == v[i] by {
        assert((2 * i) % 2 == 0 && (2 * i) / 2 == i);
        assert((2 * i + 1) % 2 == 1 && (2 * i + 1) / 2 == i);
        let hi = v[i] / 16;
        let lo = v[i] % 16;
        assert(hex_val(t[2 * i]) == Some(hi as u8));
        assert(hex_val(t[2 * i + 1]) == Some(lo as u8));
        assert(16 * hi + lo == v[i]);
    }
    assert(r =~= v);
}

/// A storage read answered with `null` finds no value.
pub proof fn lemma_null_payload()
    ensures
        storage_payload_of(seq![110u8, 117u8, 108u8, 108u8]) == Some(None::<Seq<u8>>),
        storage_payload_of(seq![34u8, 110u8, 117u8, 108u8, 108u8, 34u8]) == Some(None::<Seq<u8>>),
{
    let n = seq![110u8, 117u8, 108u8, 108u8];
    let q = seq![34u8, 110u8, 117u8, 108u8, 108u8, 34u8];
    assert(unquoted(n) == n);
    assert(q.drop_first() =~= seq![110u8, 117u8, 108u8, 108u8, 34u8]);
    assert(q.drop_first().drop_last() =~= n);
    assert(unquoted(q.drop_first()) == unquoted(n));
    assert(unquoted(q) == n);
}

proof fn lemma_hex_text_digits(v: Seq<u8>)
    ensures
        forall|i: int| 0 <= i < hex_text(v).len() ==> (#[trigger] hex_val(hex_text(v)[i])) is Some,
{
    let t = hex_text(v);
    assert forall|i: int| 0 <= i < t.len() implies (#[trigger] hex_val(t[i])) is Some by {
        let d = if i % 2 == 0 { v[i / 2] / 16 } else { v[i / 2] % 16 } as int;
        assert(0 <= d < 16);
    }
}

proof fn lemma_quoted_unwraps(t: Seq<u8>)
    requires
        forall|i: int| 0 <= i < t.len() ==> (#[trigger] hex_val(t[i])) is Some,
    ensures
        unquoted(seq![34u8, 48u8, 120u8] + t + seq![34u8]) == seq![48u8, 120u8] + t,
{
    let body = seq![48u8, 120u8] + t;
    let q = seq![34u8, 48u8, 120u8] + t + seq![34u8];
    assert(q.drop_first() =~= body + seq![34u8]);
    assert((body + seq![34u8]).drop_last() =~= body);
    if t.len() > 0 {
        assert(body.last() == t[t.len() - 1]);
        assert(hex_val(t[t.len() - 1]) is Some);
    }
    assert(unquoted(body) == body);
    assert(unquoted(body + seq![34u8]) == unquoted(body));
}

/// A storage read answered with the quoted `0x` hex text of some bytes
/// finds exactly those bytes.
pub proof fn lemma_hex_payload(v: Seq<u8>)
    ensures
        storage_payload_of(quoted_hex(v)) == Some(Some(v)),
{
    let t = hex_text(v);
    let body = seq![48u8, 120u8] + t;
    lemma_hex_text_digits(v);
    lemma_quoted_unwraps(t);
    assert(body.subrange(2, body.len() as int) =~= t);
    assert(without_0x(unquoted(quoted_hex(v))) == t);
    if is_null(t) {
        assert(hex_val(t[0]) is Some);
    }
    lemma_hex_text_decodes(v);
}

} // verus!
