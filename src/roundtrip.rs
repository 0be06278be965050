use vstd::prelude::*;

use crate::events::{
    EventRecord, Phase, arg_end, args_end, events_of, payload_end, phase_at, record_at,
    records_from,
};
use crate::metadata::{ArgShape, Metadata, event_pos};
use crate::scale::{compact_at, compact_u32_of, le_u32_at};
use vstd::arithmetic::div_mod::{lemma_div_denominator, lemma_fundamental_div_mod};

verus! {

/// The four little-endian bytes of a 32-bit value.
pub open spec fn le4(x: u32) -> Seq<u8> {
    seq![
        (x % 256) as u8,
        ((x / 256) % 256) as u8,
        ((x / 65536) % 256) as u8,
        (x / 16777216) as u8,
    ]
}

/// The shortest compact encoding of `n`.
pub open spec fn compact_encoding(n: u32) -> Seq<u8> {
    if n < 64 {
        seq![(4 * n) as u8]
    } else if n < 16384 {
        seq![((4 * n + 1) % 256) as u8, ((4 * n + 1) / 256) as u8]
    } else if n < 1073741824 {
        le4((4 * n + 2) as u32)
    } else {
        seq![3u8] + le4(n)
    }
}

proof fn lemma_le4(x: u32, s: Seq<u8>, i: int)
    requires
        0 <= i,
        i + 4 <= s.len(),
        s.subrange(i, i + 4) == le4(x),
    ensures
        le_u32_at(s, i) == x,
{
    assert(s[i] == le4(x)[0]);
    assert(s[i + 1] == le4(x)[1]);
    assert(s[i + 2] == le4(x)[2]);
    assert(s[i + 3] == le4(x)[3]);
    let xi = x as int;
    let y = xi / 256;
    let z = y / 256;
    let w = z / 256;
    lemma_fundamental_div_mod(xi, 256);
    lemma_fundamental_div_mod(y, 256);
    lemma_fundamental_div_mod(z, 256);
    lemma_div_denominator(xi, 256, 256);
    lemma_div_denominator(xi, 65536, 256);
    assert(xi / 65536 == z);
    assert(xi / 16777216 == w);
    assert(xi == xi % 256 + 256 * (y % 256) + 65536 * (z % 256) + 16777216 * w);
}

/// The compact decoding reads back the compact encoding, whatever follows it.
pub proof fn lemma_compact_encoding(n: u32, rest: Seq<u8>)
    ensures
        compact_u32_of(compact_encoding(n) + rest) == Some((n, compact_encoding(n).len() as int)),
{
    let e = compact_encoding(n);
    let t = e + rest;
    if n < 64 {
        assert(t[0] == (4 * n) as u8);
    } else if n < 16384 {
        assert(t[0] == e[0] && t[1] == e[1]);
        let x = 4 * n + 1;
        assert(((x % 256) + 256 * (x / 256)) == x) by (nonlinear_arith);
        assert((x % 256) % 4 == 1) by (nonlinear_arith)
            requires
                x == 4 * n + 1,
        ;
    } else if n < 1073741824 {
        let x = (4 * n + 2) as u32;
        assert(t.subrange(0, 4) =~= le4(x));
        lemma_le4(x, t, 0);
        assert((x % 256) % 4 == 2) by (nonlinear_arith)
            requires
                x == 4 * n + 2,
        ;
        assert(t[0] == (x % 256) as u8);
    } else {
        assert(t.subrange(1, 5) =~= le4(n));
        lemma_le4(n, t, 1);
        assert(t[0] == 3u8);
    }
}

/// What is known of one record: its phase, indices, payload and topics.
pub struct RecordParts {
    pub phase: Phase,
    pub module_index: u8,
    pub variant_index: u8,
    pub payload: Seq<u8>,
    pub topics: Seq<Seq<u8>>,
}

pub open spec fn encode_phase(p: Phase) -> Seq<u8> {
    match p {
        Phase::ApplyExtrinsic(i) => seq![0u8] + le4(i),
        Phase::Finalization => seq![1u8],
        Phase::Initialization => seq![2u8],
    }
}

pub open spec fn flatten(t: Seq<Seq<u8>>) -> Seq<u8>
    decreases t.len(),
{
    if t.len() == 0 {
        Seq::empty()
    } else {
        t[0] + flatten(t.drop_first())
    }
}

pub open spec fn encode_record(r: RecordParts) -> Seq<u8> {
    encode_phase(r.phase) + seq![r.module_index, r.variant_index] + r.payload + compact_encoding(
        r.topics.len() as u32,
    ) + flatten(r.topics)
}

pub open spec fn encode_records(rs: Seq<RecordParts>) -> Seq<u8>
    decreases rs.len(),
{
    if rs.len() == 0 {
        Seq::empty()
    } else {
        encode_record(rs[0]) + encode_records(rs.drop_first())
    }
}

/// An event buffer holding these records.
pub open spec fn encode_events(rs: Seq<RecordParts>) -> Seq<u8> {
    compact_encoding(rs.len() as u32) + encode_records(rs)
}

/// Whether a record can stand in a buffer for this schema: 32-byte topics,
/// and a payload that is exactly the declared arguments of its event (empty
/// for an event that the schema does not define).
pub open spec fn record_fits(md: Metadata, r: RecordParts) -> bool {
    &&& r.topics.len() <= u32::MAX
    &&& forall|j: int| 0 <= j < r.topics.len() ==> (#[trigger] r.topics[j]).len() == 32
    &&& match event_pos(md, r.module_index, r.variant_index) {
        Some(e) => args_end(md.modules@[e.0].events@[e.1].args@, 0, r.payload, 0) == Some(
            r.payload.len() as int,
        ),
        None => r.payload.len() == 0,
    }
}

/// Whether a decoded record of the buffer `s` gives back the parts `r`.
pub open spec fn decoded_as(md: Metadata, s: Seq<u8>, d: EventRecord, r: RecordParts) -> bool {
    &&& d.phase == r.phase
    &&& d.module_index == r.module_index
    &&& d.variant_index == r.variant_index
    &&& d.supported == event_pos(md, r.module_index, r.variant_index) is Some
    &&& d.payload_start <= d.payload_end <= s.len()
    &&& s.subrange(d.payload_start as int, d.payload_end as int) == r.payload
    &&& d.topic_count == r.topics.len()
}

proof fn lemma_flatten_len(t: Seq<Seq<u8>>)
    requires
        forall|j: int| 0 <= j < t.len() ==> (#[trigger] t[j]).len() == 32,
    ensures
        flatten(t).len() == 32 * t.len(),
    decreases t.len(),
{
    if t.len() > 0 {
        lemma_flatten_len(t.drop_first());
    }
}

proof fn lemma_args_end_local(
    args: Seq<ArgShape>,
    i: int,
    payload: Seq<u8>,
    pl: int,
    s: Seq<u8>,
    q: int,
)
    requires
        0 <= q,
        0 <= pl,
        q + payload.len() <= s.len(),
        s.subrange(q, q + payload.len()) == payload,
        args_end(args, i, payload, pl) is Some,
    ensures
        args_end(args, i, s, q + pl) == Some(q + args_end(args, i, payload, pl).unwrap()),
    decreases args.len() - i,
{
    if 0 <= i < args.len() {
        let p = arg_end(args[i], payload, pl).unwrap();
        match args[i] {
            ArgShape::Compact => {
                assert(s[q + pl] == payload[pl]);
            },
            _ => {},
        }
        assert(arg_end(args[i], s, q + pl) == Some(q + p));
        lemma_args_end_local(args, i + 1, payload, p, s, q);
    }
}

proof fn lemma_phase_decode(pre: Seq<u8>, p: Phase, post: Seq<u8>)
    ensures
        phase_at(pre + encode_phase(p) + post, pre.len() as int) == Some(
            (p, (pre.len() + encode_phase(p).len()) as int),
        ),
{
    let s = pre + encode_phase(p) + post;
    let q0 = pre.len() as int;
    match p {
        Phase::ApplyExtrinsic(i) => {
            assert(s[q0] == 0u8);
            assert(s.subrange(q0 + 1, q0 + 5) =~= le4(i));
            lemma_le4(i, s, q0 + 1);
        },
        _ => {
            assert(s[q0] == encode_phase(p)[0]);
        },
    }
}

#[verifier::rlimit(50)]
proof fn lemma_record_decode(md: Metadata, pre: Seq<u8>, r: RecordParts, post: Seq<u8>)
    requires
        record_fits(md, r),
        (pre + encode_record(r) + post).len() <= usize::MAX,
    ensures
        record_at(md, pre + encode_record(r) + post, pre.len() as int) is Some,
        record_at(md, pre + encode_record(r) + post, pre.len() as int).unwrap().1 == pre.len()
            + encode_record(r).len(),
        decoded_as(
            md,
            pre + encode_record(r) + post,
            record_at(md, pre + encode_record(r) + post, pre.len() as int).unwrap().0,
            r,
        ),
{
    let s = pre + encode_record(r) + post;
    let q0 = pre.len() as int;
    let ph = encode_phase(r.phase);
    let k = r.topics.len() as u32;
    let ce = compact_encoding(k);
    let fl = flatten(r.topics);
    assert(s =~= pre + ph + seq![r.module_index, r.variant_index] + r.payload + ce + fl + post);
    assert(s =~= pre + ph + (seq![r.module_index, r.variant_index] + r.payload + ce + fl + post));
    lemma_phase_decode(pre, r.phase, seq![r.module_index, r.variant_index] + r.payload + ce + fl
        + post);
    let pos1 = q0 + ph.len();
    assert(s[pos1] == r.module_index);
    assert(s[pos1 + 1] == r.variant_index);
    // the payload
    let pos2 = pos1 + 2;
    let pos3 = pos2 + r.payload.len();
    assert(s.subrange(pos2, pos3) =~= r.payload);
    match event_pos(md, r.module_index, r.variant_index) {
        Some(e) => {
            lemma_args_end_local(md.modules@[e.0].events@[e.1].args@, 0, r.payload, 0, s, pos2);
        },
        None => {},
    }
    assert(payload_end(md, r.module_index, r.variant_index, s, pos2) == Some(pos3));
    // the topics
    assert(s.subrange(pos3, s.len() as int) =~= ce + (fl + post));
    lemma_compact_encoding(k, fl + post);
    assert(compact_at(s, pos3) == Some((k, pos3 + ce.len())));
    lemma_flatten_len(r.topics);
    assert(pos3 + ce.len() + 32 * k == q0 + encode_record(r).len());
}

proof fn lemma_records_decode(md: Metadata, pre: Seq<u8>, rs: Seq<RecordParts>)
    requires
        forall|i: int| 0 <= i < rs.len() ==> record_fits(md, #[trigger] rs[i]),
        (pre + encode_records(rs)).len() <= usize::MAX,
    ensures
        records_from(md, pre + encode_records(rs), pre.len() as int, rs.len()) is Some,
        records_from(md, pre + encode_records(rs), pre.len() as int, rs.len()).unwrap().len()
            == rs.len(),
        forall|i: int|
            0 <= i < rs.len() ==> decoded_as(
                md,
                pre + encode_records(rs),
                #[trigger] records_from(md, pre + encode_records(rs), pre.len() as int, rs.len()).unwrap()[i],
                rs[i],
            ),
    decreases rs.len(),
{
    if rs.len() > 0 {
        let s = pre + encode_records(rs);
        let e0 = encode_record(rs[0]);
        let tail = rs.drop_first();
        let et = encode_records(tail);
        assert(s =~= pre + e0 + et);
        assert(record_fits(md, rs[0]));
        lemma_record_decode(md, pre, rs[0], et);
        assert forall|i: int| 0 <= i < tail.len() implies record_fits(md, #[trigger] tail[i]) by {
            assert(tail[i] == rs[i + 1]);
        }
        assert((pre + e0) + et =~= s);
        lemma_records_decode(md, pre + e0, tail);
        let d0 = record_at(md, s, pre.len() as int).unwrap();
        let rest = records_from(md, s, (pre + e0).len() as int, tail.len()).unwrap();
        assert(((rs.len() - 1) as nat) == tail.len());
        let v = records_from(md, s, pre.len() as int, rs.len()).unwrap();
        assert(v == seq![d0.0] + rest);
        assert forall|i: int| 0 <= i < rs.len() implies decoded_as(md, s, #[trigger] v[i], rs[i]) by {
            if i > 0 {
                assert(v[i] == rest[i - 1]);
                assert(rs[i] == tail[i - 1]);
            }
        }
    }
}

/// Decoding a buffer that holds records in order gives back exactly those
/// records, in that order: their phases, indices, payload bytes and topic
/// counts; each is marked supported exactly when the schema defines it.
pub proof fn lemma_decode_encoded_events(md: Metadata, rs: Seq<RecordParts>)
    requires
        rs.len() <= u32::MAX,
        forall|i: int| 0 <= i < rs.len() ==> record_fits(md, #[trigger] rs[i]),
        encode_events(rs).len() <= usize::MAX,
    ensures
        events_of(md, encode_events(rs)) is Some,
        events_of(md, encode_events(rs)).unwrap().len() == rs.len(),
        forall|i: int|
            0 <= i < rs.len() ==> decoded_as(
                md,
                encode_events(rs),
                #[trigger] events_of(md, encode_events(rs)).unwrap()[i],
                rs[i],
            ),
{
    let ce = compact_encoding(rs.len() as u32);
    let s = encode_events(rs);
    lemma_compact_encoding(rs.len() as u32, encode_records(rs));
    assert(s.subrange(0, s.len() as int) =~= s);
    assert(compact_at(s, 0) == Some((rs.len() as u32, ce.len() as int)));
    lemma_records_decode(md, ce, rs);
}

} // verus!
