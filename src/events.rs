use vstd::prelude::*;

use crate::error::ClientError;
use crate::metadata::{ArgShape, Metadata, copy_bytes, bytes_eq, event_pos, first_where, lemma_first_where_found, lemma_first_where_none};
use crate::scale::{compact_at, le_u32_at, lemma_compact_width, read_compact};

verus! {

/// When during block processing an event was emitted.
#[derive(Debug, Clone, Copy, PartialEq, Eq, Structural)]
pub enum Phase {
    /// While applying the extrinsic at this index.
    ApplyExtrinsic(u32),
    Finalization,
    Initialization,
}

/// One record of an event buffer. The payload and the topics are given as
/// positions in the buffer; each topic is a 32-byte hash.
#[derive(Debug, Clone, Copy, PartialEq, Eq, Structural)]
pub struct EventRecord {
    pub phase: Phase,
    pub module_index: u8,
    pub variant_index: u8,
    /// Whether the schema defines this event. An event it does not define
    /// has no declared arguments, so its payload is empty.
    pub supported: bool,
    pub payload_start: usize,
    pub payload_end: usize,
    pub topics_start: usize,
    pub topic_count: usize,
}

/// The width of a compact integer, from its first byte.
pub open spec fn compact_width(b: u8) -> int {
    if b % 4 == 0 {
        1
    } else if b % 4 == 1 {
        2
    } else if b % 4 == 2 {
        4
    } else {
        b / 4 + 5
    }
}

/// Where one argument of this shape, starting at `pos`, ends.
pub open spec fn arg_end(shape: ArgShape, s: Seq<u8>, pos: int) -> Option<int> {
    match shape {
        ArgShape::Fixed(n) => if pos + n <= s.len() {
            Some(pos + n)
        } else {
            None
        },
        ArgShape::Compact => if 0 <= pos < s.len() && pos + compact_width(s[pos]) <= s.len() {
            Some(pos + compact_width(s[pos]))
        } else {
            None
        },
        ArgShape::Unknown => None,
    }
}

/// Where the arguments `args[i..]`, the first starting at `pos`, end.
pub open spec fn args_end(args: Seq<ArgShape>, i: int, s: Seq<u8>, pos: int) -> Option<int>
    decreases args.len() - i,
{
    if i < 0 || i >= args.len() {
        Some(pos)
    } else {
        match arg_end(args[i], s, pos) {
            Some(p) => args_end(args, i + 1, s, p),
            None => None,
        }
    }
}

/// The phase at `pos` and the position after it.
pub open spec fn phase_at(s: Seq<u8>, pos: int) -> Option<(Phase, int)> {
    if pos < 0 || pos >= s.len() {
        None
    } else if s[pos] == 0 {
        if pos + 5 <= s.len() {
            Some((Phase::ApplyExtrinsic(le_u32_at(s, pos + 1) as u32), pos + 5))
        } else {
            None
        }
    } else if s[pos] == 1 {
        Some((Phase::Finalization, pos + 1))
    } else if s[pos] == 2 {
        Some((Phase::Initialization, pos + 1))
    } else {
        None
    }
}

/// The end of the payload of the event `(mi, vi)` that starts at `pos`.
pub open spec fn payload_end(md: Metadata, mi: u8, vi: u8, s: Seq<u8>, pos: int) -> Option<int> {
    match event_pos(md, mi, vi) {
        Some(e) => args_end(md.modules@[e.0].events@[e.1].args@, 0, s, pos),
        None => Some(pos),
    }
}

/// The record at `pos` and the position after it: phase, module and
/// variant indices, payload, then a compact count of 32-byte topics.
pub open spec fn record_at(md: Metadata, s: Seq<u8>, pos: int) -> Option<(EventRecord, int)> {
    match phase_at(s, pos) {
        None => None,
        Some(ph) => {
            let pos1 = ph.1;
            if pos1 + 2 > s.len() {
                None
            } else {
                let mi = s[pos1];
                let vi = s[pos1 + 1];
                match payload_end(md, mi, vi, s, pos1 + 2) {
                    None => None,
                    Some(pos3) => match compact_at(s, pos3) {
                        None => None,
                        Some(c) => if c.1 + 32 * c.0 <= s.len() {
                            Some(
                                (
                                    EventRecord {
                                        phase: ph.0,
                                        module_index: mi,
                                        variant_index: vi,
                                        supported: event_pos(md, mi, vi) is Some,
                                        payload_start: (pos1 + 2) as usize,
                                        payload_end: pos3 as usize,
                                        topics_start: c.1 as usize,
                                        topic_count: c.0 as usize,
                                    },
                                    c.1 + 32 * c.0,
                                ),
                            )
                        } else {
                            None
                        },
                    },
                }
            }
        },
    }
}

/// The `n` records from `pos` on.
pub open spec fn records_from(md: Metadata, s: Seq<u8>, pos: int, n: nat) -> Option<
    Seq<EventRecord>,
>
    decreases n,
{
    if n == 0 {
        Some(Seq::empty())
    } else {
        match record_at(md, s, pos) {
            None => None,
            Some(r) => match records_from(md, s, r.1, (n - 1) as nat) {
                None => None,
                Some(rest) => Some(seq![r.0] + rest),
            },
        }
    }
}

/// The records of an event buffer: a compact count, then that many records.
pub open spec fn events_of(md: Metadata, s: Seq<u8>) -> Option<Seq<EventRecord>> {
    match compact_at(s, 0) {
        None => None,
        Some(c) => records_from(md, s, c.1, c.0 as nat),
    }
}

/// The end of the argument of this shape at `pos`.
pub fn read_arg(shape: ArgShape, s: &[u8], pos: usize) -> (r: Option<usize>)
    requires
        pos <= s.len(),
    ensures
        r matches Some(q) ==> (arg_end(shape, s@, pos as int) == Some(q as int) && q <= s.len()),
        arg_end(shape, s@, pos as int) is None <==> r is None,
{
    match shape {
        ArgShape::Fixed(n) => {
            if n <= s.len() - pos {
                Some(pos + n)
            } else {
                None
            }
        },
        ArgShape::Compact => {
            if pos >= s.len() {
                return None;
            }
            let b = s[pos];
            let w: usize = if b % 4 == 0 {
                1
            } else if b % 4 == 1 {
                2
            } else if b % 4 == 2 {
                4
            } else {
                (b / 4) as usize + 5
            };
            if w <= s.len() - pos {
                Some(pos + w)
            } else {
                None
            }
        },
        ArgShape::Unknown => None,
    }
}

/// The end of the arguments `args`, the first starting at `pos`.
pub fn read_args(args: &Vec<ArgShape>, s: &[u8], pos: usize) -> (r: Option<usize>)
    requires
        pos <= s.len(),
    ensures
        r matches Some(q) ==> (args_end(args@, 0, s@, pos as int) == Some(q as int) && q
            <= s.len()),
        args_end(args@, 0, s@, pos as int) is None <==> r is None,
{
    let mut i: usize = 0;
    let mut p: usize = pos;
    while i < args.len()
        invariant
            0 <= i <= args.len(),
            p <= s.len(),
            args_end(args@, 0, s@, pos as int) == args_end(args@, i as int, s@, p as int),
        decreases args.len() - i,
    {
        match read_arg(args[i], s, p) {
            Some(q) => {
                p = q;
            },
            None => {
                return None;
            },
        }
        i = i + 1;
    }
    Some(p)
}

/// Reads the phase at `pos`.
pub fn read_phase(s: &[u8], pos: usize) -> (r: Option<(Phase, usize)>)
    requires
        pos < s.len(),
    ensures
        r matches Some(x) ==> (phase_at(s@, pos as int) == Some((x.0, x.1 as int)) && x.1
            <= s.len()),
        phase_at(s@, pos as int) is None <==> r is None,
{
    let tag = s[pos];
    let (phase, pos1) = if tag == 0 {
        if s.len() - pos < 5 {
            return None;
        }
        let v: u32 = s[pos + 1] as u32 + 256 * (s[pos + 2] as u32) + 65536 * (s[pos + 3] as u32)
            + 16777216 * (s[pos + 4] as u32);
        (Phase::ApplyExtrinsic(v), pos + 5)
    } else if tag == 1 {
        (Phase::Finalization, pos + 1)
    } else if tag == 2 {
        (Phase::Initialization, pos + 1)
    } else {
        return None;
    };
    Some((phase, pos1))
}

/// The end of the payload of the event `(mi, vi)` that starts at `pos`.
pub fn read_payload(md: &Metadata, mi: u8, vi: u8, s: &[u8], pos: usize) -> (r: Option<usize>)
    requires
        pos <= s.len(),
    ensures
        r matches Some(q) ==> (payload_end(*md, mi, vi, s@, pos as int) == Some(q as int) && q
            <= s.len()),
        payload_end(*md, mi, vi, s@, pos as int) is None <==> r is None,
{
    match md.event_definition(mi, vi) {
        Some((m, e)) => {
            let args = &md.modules[m].events[e].args;
            assert(args@ == md.modules@[m as int].events@[e as int].args@);
            read_args(args, s, pos)
        },
        None => Some(pos),
    }
}

/// Reads the record at `pos`.
pub fn read_record(md: &Metadata, s: &[u8], pos: usize) -> (r: Option<(EventRecord, usize)>)
    requires
        pos <= s.len(),
    ensures
        record_at(*md, s@, pos as int) matches Some(x) ==> (r matches Some(y) && y.0 == x.0 && y.1
            == x.1 && x.1 <= s.len()),
        record_at(*md, s@, pos as int) is None <==> r is None,
{
    if pos >= s.len() {
        return None;
    }
    let (phase, pos1) = match read_phase(s, pos) {
        Some(x) => x,
        None => {
            return None;
        },
    };
    if s.len() - pos1 < 2 {
        return None;
    }
    let mi = s[pos1];
    let vi = s[pos1 + 1];
    let pos2 = pos1 + 2;
    let pos3 = match read_payload(md, mi, vi, s, pos2) {
        Some(q) => q,
        None => {
            return None;
        },
    };
    let supported = md.event_definition(mi, vi).is_some();
    match read_compact(s, pos3) {
        None => None,
        Some((n, pos4)) => {
            if (n as usize) > (s.len() - pos4) / 32 {
                assert(pos4 + 32 * n > s.len()) by (nonlinear_arith)
                    requires
                        n > (s.len() - pos4) / 32,
                        pos4 <= s.len(),
                ;
                return None;
            }
            assert(32 * n <= s.len() - pos4) by (nonlinear_arith)
                requires
                    n <= (s.len() - pos4) / 32,
                    pos4 <= s.len(),
            ;
            let rec = EventRecord {
                phase,
                module_index: mi,
                variant_index: vi,
                supported,
                payload_start: pos2,
                payload_end: pos3,
                topics_start: pos4,
                topic_count: n as usize,
            };
            Some((rec, pos4 + 32 * (n as usize)))
        },
    }
}

/// Decodes an event buffer into its records, in order. An event that the
/// schema does not define is kept, marked as unsupported, and decoding goes
/// on after it; a buffer whose structure is broken (a count or a length
/// that runs past its end, an unknown phase, an argument of unknown width)
/// gives `DecodeError`.
pub fn decode_events(md: &Metadata, s: &[u8]) -> (r: Result<Vec<EventRecord>, ClientError>)
    ensures
        events_of(*md, s@) matches Some(v) ==> (r matches Ok(o) && o@ == v),
        events_of(*md, s@) is None ==> r == Err::<Vec<EventRecord>, _>(ClientError::DecodeError),
{
    let (n, start) = match read_compact(s, 0) {
        Some(c) => c,
        None => {
            return Err(ClientError::DecodeError);
        },
    };
    let mut out: Vec<EventRecord> = Vec::new();
    let mut pos: usize = start;
    let mut k: u32 = 0;
    while k < n
        invariant
            k <= n,
            pos <= s.len(),
            events_of(*md, s@) == match records_from(*md, s@, pos as int, (n - k) as nat) {
                Some(rest) => Some(out@ + rest),
                None => None::<Seq<EventRecord>>,
            },
        decreases n - k,
    {
        match read_record(md, s, pos) {
            Some((rec, next)) => {
                let ghost before = out@;
                out.push(rec);
                pos = next;
                k = k + 1;
                proof {
                    match records_from(*md, s@, pos as int, (n - k) as nat) {
                        Some(rest) => {
                            assert(before + (seq![rec] + rest) =~= out@ + rest);
                        },
                        None => {},
                    }
                }
            },
            None => {
                return Err(ClientError::DecodeError);
            },
        }
    }
    assert(out@ + Seq::<EventRecord>::empty() =~= out@);
    Ok(out)
}

/// A decoded event of the schema: its module's and its own name, and its
/// payload, left for the caller to decode.
#[derive(Debug, Clone, PartialEq, Eq)]
pub struct RawEvent {
    pub module: Vec<u8>,
    pub variant: Vec<u8>,
    pub data: Vec<u8>,
}

/// Whether the record's payload and topics lie inside a buffer of length `len`.
pub open spec fn record_in_bounds(r: EventRecord, len: int) -> bool {
    r.payload_start <= r.payload_end <= r.topics_start <= len
}

proof fn lemma_args_end_bounds(args: Seq<ArgShape>, i: int, s: Seq<u8>, pos: int)
    requires
        args_end(args, i, s, pos) is Some,
    ensures
        pos <= args_end(args, i, s, pos).unwrap(),
        0 <= i < args.len() ==> args_end(args, i, s, pos).unwrap() <= s.len(),
    decreases args.len() - i,
{
    if 0 <= i < args.len() {
        let p = arg_end(args[i], s, pos).unwrap();
        assert(pos <= p <= s.len());
        lemma_args_end_bounds(args, i + 1, s, p);
    }
}

proof fn lemma_record_bounds(md: Metadata, s: Seq<u8>, pos: int)
    requires
        0 <= pos,
        s.len() <= usize::MAX,
        record_at(md, s, pos) is Some,
    ensures
        record_in_bounds(record_at(md, s, pos).unwrap().0, s.len() as int),
        pos < record_at(md, s, pos).unwrap().1 <= s.len(),
{
    let pos1 = phase_at(s, pos).unwrap().1;
    let mi = s[pos1];
    let vi = s[pos1 + 1];
    match event_pos(md, mi, vi) {
        Some(e) => lemma_args_end_bounds(md.modules@[e.0].events@[e.1].args@, 0, s, pos1 + 2),
        None => {},
    }
    let pos3 = payload_end(md, mi, vi, s, pos1 + 2).unwrap();
    if pos3 > s.len() {
        assert(compact_at(s, pos3) is None);
    }
    lemma_compact_width(s.subrange(pos3, s.len() as int));
}

proof fn lemma_records_bounds(md: Metadata, s: Seq<u8>, pos: int, n: nat)
    requires
        0 <= pos,
        s.len() <= usize::MAX,
        records_from(md, s, pos, n) is Some,
    ensures
        forall|i: int|
            0 <= i < records_from(md, s, pos, n).unwrap().len() ==> record_in_bounds(
                #[trigger] records_from(md, s, pos, n).unwrap()[i],
                s.len() as int,
            ),
    decreases n,
{
    if n > 0 {
        let r = record_at(md, s, pos).unwrap();
        lemma_record_bounds(md, s, pos);
        lemma_records_bounds(md, s, r.1, (n - 1) as nat);
        let rest = records_from(md, s, r.1, (n - 1) as nat).unwrap();
        assert forall|i: int| 0 <= i < records_from(md, s, pos, n).unwrap().len() implies record_in_bounds(
            #[trigger] records_from(md, s, pos, n).unwrap()[i],
            s.len() as int,
        ) by {
            if i > 0 {
                assert(records_from(md, s, pos, n).unwrap()[i] == rest[i - 1]);
            }
        }
    }
}

/// Every record of a decoded buffer lies inside the buffer.
pub proof fn lemma_events_in_bounds(md: Metadata, s: Seq<u8>)
    requires
        s.len() <= usize::MAX,
        events_of(md, s) is Some,
    ensures
        forall|i: int|
            0 <= i < events_of(md, s).unwrap().len() ==> record_in_bounds(
                #[trigger] events_of(md, s).unwrap()[i],
                s.len() as int,
            ),
{
    let c = compact_at(s, 0).unwrap();
    lemma_compact_width(s.subrange(0, s.len() as int));
    lemma_records_bounds(md, s, c.1, c.0 as nat);
}

/// Whether the record is the event `variant` of the module `module`.
pub open spec fn is_event_named(md: Metadata, r: EventRecord, module: Seq<u8>, variant: Seq<u8>) -> bool {
    match event_pos(md, r.module_index, r.variant_index) {
        Some(e) => md.modules@[e.0].name@ == module && md.modules@[e.0].events@[e.1].name@
            == variant,
        None => false,
    }
}

/// Decodes an event buffer and hands back the first event named `variant`
/// of the module `module`, with its payload; `None` where the buffer holds
/// no such event.
pub fn find_event(md: &Metadata, s: &[u8], module: &[u8], variant: &[u8]) -> (r: Result<
    Option<RawEvent>,
    ClientError,
>)
    ensures
        events_of(*md, s@) is None ==> r == Err::<Option<RawEvent>, _>(ClientError::DecodeError),
        events_of(*md, s@) matches Some(v) ==> (r matches Ok(x) && match first_where(
            v.len() as int,
            |i: int| is_event_named(*md, v[i], module@, variant@),
        ) {
            Some(i) => x matches Some(e) && e.module@ == module@ && e.variant@ == variant@
                && e.data@ == s@.subrange(v[i].payload_start as int, v[i].payload_end as int),
            None => x is None,
        }),
{
    let records = match decode_events(md, s) {
        Ok(v) => v,
        Err(e) => {
            return Err(e);
        },
    };
    proof {
        assert(s@.len() == s.len());
        lemma_events_in_bounds(*md, s@);
    }
    let ghost f = |i: int| is_event_named(*md, records@[i], module@, variant@);
    let mut i: usize = 0;
    while i < records.len()
        invariant
            0 <= i <= records.len(),
            events_of(*md, s@) == Some(records@),
            f == (|i: int| is_event_named(*md, records@[i], module@, variant@)),
            forall|j: int| 0 <= j < i ==> !(#[trigger] f(j)),
            forall|j: int|
                0 <= j < records@.len() ==> record_in_bounds(#[trigger] records@[j], s@.len() as int),
        decreases records.len() - i,
    {
        let rec = records[i];
        assert(record_in_bounds(records@[i as int], s@.len() as int));
        if let Some((m, e)) = md.event_definition(rec.module_index, rec.variant_index) {
            let mm = &md.modules[m];
            if bytes_eq(mm.name.as_slice(), module) && bytes_eq(mm.events[e].name.as_slice(), variant) {
                proof {
                    assert(f(i as int));
                    lemma_first_where_found(records@.len() as int, f, i as int);
                }
                let (front, _) = s.split_at(rec.payload_end);
                let (_, data) = front.split_at(rec.payload_start);
                assert(data@ =~= s@.subrange(rec.payload_start as int, rec.payload_end as int));
                return Ok(
                    Some(
                        RawEvent {
                            module: copy_bytes(mm.name.as_slice()),
                            variant: copy_bytes(mm.events[e].name.as_slice()),
                            data: copy_bytes(data),
                        },
                    ),
                );
            }
        }
        i = i + 1;
    }
    proof {
        lemma_first_where_none(records@.len() as int, f);
    }
    Ok(None)
}

/// A record of an event that the schema does not define does not stop the
/// decoding: it is kept, marked unsupported, with an empty payload; its
/// topics are passed over, and the records after it are decoded from the
/// position right after them.
pub proof fn lemma_unsupported_record_skipped(md: Metadata, s: Seq<u8>, pos: int, n: nat)
    requires
        phase_at(s, pos) is Some,
        phase_at(s, pos).unwrap().1 + 2 <= s.len(),
        event_pos(
            md,
            s[phase_at(s, pos).unwrap().1],
            s[phase_at(s, pos).unwrap().1 + 1],
        ) is None,
        compact_at(s, phase_at(s, pos).unwrap().1 + 2) is Some,
        compact_at(s, phase_at(s, pos).unwrap().1 + 2).unwrap().1 + 32 * compact_at(
            s,
            phase_at(s, pos).unwrap().1 + 2,
        ).unwrap().0 <= s.len(),
    ensures
        record_at(md, s, pos) is Some,
        !record_at(md, s, pos).unwrap().0.supported,
        record_at(md, s, pos).unwrap().0.payload_start == record_at(md, s, pos).unwrap().0.payload_end,
        records_from(md, s, pos, n + 1) == match records_from(
            md,
            s,
            record_at(md, s, pos).unwrap().1,
            n,
        ) {
            Some(rest) => Some(seq![record_at(md, s, pos).unwrap().0] + rest),
            None => None::<Seq<EventRecord>>,
        },
{
    let pos1 = phase_at(s, pos).unwrap().1;
    assert(payload_end(md, s[pos1], s[pos1 + 1], s, pos1 + 2) == Some(pos1 + 2));
    assert(((n + 1) - 1) as nat == n);
}

} // verus!
