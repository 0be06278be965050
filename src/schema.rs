use vstd::prelude::*;

use crate::error::ClientError;
use crate::metadata::{ArgShape, EventMetadata, Metadata, ModuleMetadata, StorageEntry, bytes_eq, copy_bytes};
use crate::scale::{compact_at, read_compact};
use crate::storage::{StorageHasher, StorageKind};

verus! {

/// The schema version that this client reads.
pub const SCHEMA_VERSION: u8 = 11;

/// A text at `pos`: a compact length, then that many bytes.
pub open spec fn str_at(s: Seq<u8>, pos: int) -> Option<(Seq<u8>, int)> {
    match compact_at(s, pos) {
        Some(c) => if c.1 + c.0 <= s.len() {
            Some((s.subrange(c.1, c.1 + c.0), c.1 + c.0))
        } else {
            None
        },
        None => None,
    }
}

/// Parts of the schema that this client passes over.
#[derive(Debug, Clone, Copy, PartialEq, Eq, Structural)]
pub enum Piece {
    /// A call argument: name and type.
    CallArg,
    /// A constant: name, type, value and documentation.
    Constant,
    /// An error: name and documentation.
    ErrorDef,
}

/// Where `n` texts from `pos` on end.
pub open spec fn strs_end(s: Seq<u8>, pos: int, n: nat) -> Option<int>
    decreases n,
{
    if n == 0 {
        Some(pos)
    } else {
        match str_at(s, pos) {
            Some(x) => strs_end(s, x.1, (n - 1) as nat),
            None => None,
        }
    }
}

/// Where a list of texts at `pos` ends.
pub open spec fn strs_at(s: Seq<u8>, pos: int) -> Option<int> {
    match compact_at(s, pos) {
        Some(c) => strs_end(s, c.1, c.0 as nat),
        None => None,
    }
}

/// Where `n` texts, then a list of texts, from `pos` on end.
pub open spec fn strs_then_list(s: Seq<u8>, pos: int, n: nat) -> Option<int> {
    match strs_end(s, pos, n) {
        Some(p) => strs_at(s, p),
        None => None,
    }
}

/// Where a piece of kind `k` at `pos` ends.
pub open spec fn piece_end(k: Piece, s: Seq<u8>, pos: int) -> Option<int> {
    match k {
        Piece::CallArg => strs_end(s, pos, 2),
        Piece::Constant => strs_then_list(s, pos, 3),
        Piece::ErrorDef => strs_then_list(s, pos, 1),
    }
}

/// Where `n` pieces of kind `k` from `pos` on end.
pub open spec fn pieces_end(k: Piece, s: Seq<u8>, pos: int, n: nat) -> Option<int>
    decreases n,
{
    if n == 0 {
        Some(pos)
    } else {
        match piece_end(k, s, pos) {
            Some(p) => pieces_end(k, s, p, (n - 1) as nat),
            None => None,
        }
    }
}

/// Where a list of pieces of kind `k` at `pos` ends.
pub open spec fn pieces_at(k: Piece, s: Seq<u8>, pos: int) -> Option<int> {
    match compact_at(s, pos) {
        Some(c) => pieces_end(k, s, c.1, c.0 as nat),
        None => None,
    }
}

/// Reads the text at `pos`, as the positions of its bytes.
pub fn read_str(s: &[u8], pos: usize) -> (r: Option<(usize, usize)>)
    requires
        pos <= s.len(),
    ensures
        str_at(s@, pos as int) is None <==> r is None,
        r matches Some(x) ==> (x.0 <= x.1 <= s.len() && str_at(s@, pos as int) == Some(
            (s@.subrange(x.0 as int, x.1 as int), x.1 as int),
        )),
{
    match read_compact(s, pos) {
        Some((n, p)) => {
            if (n as usize) <= s.len() - p {
                Some((p, p + n as usize))
            } else {
                None
            }
        },
        None => None,
    }
}

/// Passes over `n` texts from `pos` on.
pub fn skip_strs(s: &[u8], pos: usize, n: u32) -> (r: Option<usize>)
    requires
        pos <= s.len(),
    ensures
        strs_end(s@, pos as int, n as nat) is None <==> r is None,
        r matches Some(p) ==> (p <= s.len() && strs_end(s@, pos as int, n as nat) == Some(
            p as int,
        )),
{
    let mut p: usize = pos;
    let mut k: u32 = 0;
    while k < n
        invariant
            k <= n,
            p <= s.len(),
            strs_end(s@, pos as int, n as nat) == strs_end(s@, p as int, (n - k) as nat),
        decreases n - k,
    {
        match read_str(s, p) {
            Some((_, e)) => {
                p = e;
            },
            None => {
                return None;
            },
        }
        k = k + 1;
    }
    Some(p)
}

/// Passes over a list of texts at `pos`.
pub fn skip_str_list(s: &[u8], pos: usize) -> (r: Option<usize>)
    requires
        pos <= s.len(),
    ensures
        strs_at(s@, pos as int) is None <==> r is None,
        r matches Some(p) ==> (p <= s.len() && strs_at(s@, pos as int) == Some(p as int)),
{
    match read_compact(s, pos) {
        Some((n, p)) => skip_strs(s, p, n),
        None => None,
    }
}

/// Passes over one piece of kind `k` at `pos`.
pub fn skip_piece(k: Piece, s: &[u8], pos: usize) -> (r: Option<usize>)
    requires
        pos <= s.len(),
    ensures
        piece_end(k, s@, pos as int) is None <==> r is None,
        r matches Some(p) ==> (p <= s.len() && piece_end(k, s@, pos as int) == Some(p as int)),
{
    match k {
        Piece::CallArg => skip_strs(s, pos, 2),
        Piece::Constant => match skip_strs(s, pos, 3) {
            Some(p) => skip_str_list(s, p),
            None => None,
        },
        Piece::ErrorDef => match skip_strs(s, pos, 1) {
            Some(p) => skip_str_list(s, p),
            None => None,
        },
    }
}

/// Passes over a list of pieces of kind `k` at `pos`.
pub fn skip_list(k: Piece, s: &[u8], pos: usize) -> (r: Option<usize>)
    requires
        pos <= s.len(),
    ensures
        pieces_at(k, s@, pos as int) is None <==> r is None,
        r matches Some(p) ==> (p <= s.len() && pieces_at(k, s@, pos as int) == Some(p as int)),
{
    let (n, mut p) = match read_compact(s, pos) {
        Some(c) => c,
        None => {
            return None;
        },
    };
    let ghost start = p;
    let mut i: u32 = 0;
    while i < n
        invariant
            i <= n,
            p <= s.len(),
            compact_at(s@, pos as int) == Some((n, start as int)),
            pieces_end(k, s@, start as int, n as nat) == pieces_end(
                k,
                s@,
                p as int,
                (n - i) as nat,
            ),
        decreases n - i,
    {
        match skip_piece(k, s, p) {
            Some(q) => {
                p = q;
            },
            None => {
                return None;
            },
        }
        i = i + 1;
    }
    Some(p)
}

/// What the client reads of a module.
pub struct ModuleView {
    pub name: Seq<u8>,
    pub index: u8,
    pub storage: Seq<(Seq<u8>, StorageKind)>,
    pub calls: Seq<Seq<u8>>,
    pub events: Seq<(Seq<u8>, Seq<ArgShape>)>,
}

pub open spec fn entry_view(e: StorageEntry) -> (Seq<u8>, StorageKind) {
    (e.name@, e.kind)
}

pub open spec fn event_view(e: EventMetadata) -> (Seq<u8>, Seq<ArgShape>) {
    (e.name@, e.args@)
}

pub open spec fn bytes_view(b: Vec<u8>) -> Seq<u8> {
    b@
}

pub open spec fn module_view(m: ModuleMetadata) -> ModuleView {
    ModuleView {
        name: m.name@,
        index: m.index,
        storage: m.storage@.map_values(|e: StorageEntry| entry_view(e)),
        calls: m.calls@.map_values(|c: Vec<u8>| bytes_view(c)),
        events: m.events@.map_values(|e: EventMetadata| event_view(e)),
    }
}

/// The width of a payload argument, by the name of its type.
#[verifier::opaque]
pub open spec fn shape_of(t: Seq<u8>) -> ArgShape {
    if t == seq![98u8, 111, 111, 108] || t == seq![117u8, 56] {
        ArgShape::Fixed(1)
    } else if t == seq![117u8, 49, 54] {
        ArgShape::Fixed(2)
    } else if t == seq![117u8, 51, 50] {
        ArgShape::Fixed(4)
    } else if t == seq![117u8, 54, 52] {
        ArgShape::Fixed(8)
    } else if t == seq![117u8, 49, 50, 56] || t == seq![66u8, 97, 108, 97, 110, 99, 101] {
        ArgShape::Fixed(16)
    } else if t == seq![65u8, 99, 99, 111, 117, 110, 116, 73, 100] || t == seq![
        72u8,
        97,
        115,
        104,
    ] {
        ArgShape::Fixed(32)
    } else if t.len() >= 8 && t.subrange(0, 8) == seq![67u8, 111, 109, 112, 97, 99, 116, 60] {
        ArgShape::Compact
    } else {
        ArgShape::Unknown
    }
}

/// The hasher that a schema byte names.
pub open spec fn hasher_of(b: u8) -> Option<StorageHasher> {
    if b == 0 {
        Some(StorageHasher::Blake2_128)
    } else if b == 1 {
        Some(StorageHasher::Blake2_256)
    } else if b == 2 {
        Some(StorageHasher::Blake2_128Concat)
    } else if b == 3 {
        Some(StorageHasher::Twox128)
    } else if b == 4 {
        Some(StorageHasher::Twox256)
    } else if b == 5 {
        Some(StorageHasher::Twox64Concat)
    } else if b == 6 {
        Some(StorageHasher::Identity)
    } else {
        None
    }
}

/// The shapes of `n` argument types from `pos` on.
pub open spec fn shapes_from(s: Seq<u8>, pos: int, n: nat) -> Option<(Seq<ArgShape>, int)>
    decreases n,
{
    if n == 0 {
        Some((Seq::empty(), pos))
    } else {
        match str_at(s, pos) {
            Some(x) => match shapes_from(s, x.1, (n - 1) as nat) {
                Some(r) => Some((seq![shape_of(x.0)] + r.0, r.1)),
                None => None,
            },
            None => None,
        }
    }
}

/// The shapes of a list of argument types at `pos`.
pub open spec fn shapes_at(s: Seq<u8>, pos: int) -> Option<(Seq<ArgShape>, int)> {
    match compact_at(s, pos) {
        Some(c) => shapes_from(s, c.1, c.0 as nat),
        None => None,
    }
}

/// The kind of a storage entry at `pos`: plain (a value type), map (hasher,
/// key and value types, a flag) or double map (hasher, two key types, value
/// type, second hasher).
pub open spec fn entry_type_at(s: Seq<u8>, pos: int) -> Option<(StorageKind, int)> {
    if pos < 0 || pos + 1 >= s.len() {
        None
    } else if s[pos] == 0 {
        match strs_end(s, pos + 1, 1) {
            Some(p) => Some((StorageKind::Plain, p)),
            None => None,
        }
    } else if s[pos] == 1 {
        match (hasher_of(s[pos + 1]), strs_end(s, pos + 2, 2)) {
            (Some(h), Some(p)) => if p < s.len() && s[p] <= 1 {
                Some((StorageKind::SingleMap(h), p + 1))
            } else {
                None
            },
            _ => None,
        }
    } else if s[pos] == 2 {
        match (hasher_of(s[pos + 1]), strs_end(s, pos + 2, 3)) {
            (Some(h1), Some(p)) => if p < s.len() && hasher_of(s[p]) is Some {
                Some((StorageKind::DoubleMap(h1, hasher_of(s[p]).unwrap()), p + 1))
            } else {
                None
            },
            _ => None,
        }
    } else {
        None
    }
}

/// A storage entry at `pos`: name, modifier, kind, default value bytes and
/// documentation.
pub open spec fn entry_at(s: Seq<u8>, pos: int) -> Option<((Seq<u8>, StorageKind), int)> {
    match str_at(s, pos) {
        Some(name) => if name.1 < s.len() && s[name.1] <= 1 {
            match entry_type_at(s, name.1 + 1) {
                Some(t) => match strs_then_list(s, t.1, 1) {
                    Some(p) => Some(((name.0, t.0), p)),
                    None => None,
                },
                None => None,
            }
        } else {
            None
        },
        None => None,
    }
}

pub open spec fn entries_from(s: Seq<u8>, pos: int, n: nat) -> Option<
    (Seq<(Seq<u8>, StorageKind)>, int),
>
    decreases n,
{
    if n == 0 {
        Some((Seq::empty(), pos))
    } else {
        match entry_at(s, pos) {
            Some(x) => match entries_from(s, x.1, (n - 1) as nat) {
                Some(r) => Some((seq![x.0] + r.0, r.1)),
                None => None,
            },
            None => None,
        }
    }
}

/// The optional storage section at `pos`: a prefix, then the entries.
pub open spec fn storage_at(s: Seq<u8>, pos: int) -> Option<(Seq<(Seq<u8>, StorageKind)>, int)> {
    if pos < 0 || pos >= s.len() {
        None
    } else if s[pos] == 0 {
        Some((Seq::empty(), pos + 1))
    } else if s[pos] == 1 {
        match strs_end(s, pos + 1, 1) {
            Some(p) => match compact_at(s, p) {
                Some(c) => entries_from(s, c.1, c.0 as nat),
                None => None,
            },
            None => None,
        }
    } else {
        None
    }
}

/// A call at `pos`: name, arguments and documentation.
pub open spec fn call_at(s: Seq<u8>, pos: int) -> Option<(Seq<u8>, int)> {
    match str_at(s, pos) {
        Some(name) => match pieces_at(Piece::CallArg, s, name.1) {
            Some(p) => match strs_at(s, p) {
                Some(q) => Some((name.0, q)),
                None => None,
            },
            None => None,
        },
        None => None,
    }
}

pub open spec fn calls_from(s: Seq<u8>, pos: int, n: nat) -> Option<(Seq<Seq<u8>>, int)>
    decreases n,
{
    if n == 0 {
        Some((Seq::empty(), pos))
    } else {
        match call_at(s, pos) {
            Some(x) => match calls_from(s, x.1, (n - 1) as nat) {
                Some(r) => Some((seq![x.0] + r.0, r.1)),
                None => None,
            },
            None => None,
        }
    }
}

/// An event at `pos`: name, argument types and documentation.
pub open spec fn event_at(s: Seq<u8>, pos: int) -> Option<((Seq<u8>, Seq<ArgShape>), int)> {
    match str_at(s, pos) {
        Some(name) => match shapes_at(s, name.1) {
            Some(a) => match strs_at(s, a.1) {
                Some(q) => Some(((name.0, a.0), q)),
                None => None,
            },
            None => None,
        },
        None => None,
    }
}

pub open spec fn events_from(s: Seq<u8>, pos: int, n: nat) -> Option<
    (Seq<(Seq<u8>, Seq<ArgShape>)>, int),
>
    decreases n,
{
    if n == 0 {
        Some((Seq::empty(), pos))
    } else {
        match event_at(s, pos) {
            Some(x) => match events_from(s, x.1, (n - 1) as nat) {
                Some(r) => Some((seq![x.0] + r.0, r.1)),
                None => None,
            },
            None => None,
        }
    }
}

/// An optional list at `pos`: a byte 0 for none, 1 then a compact count.
pub open spec fn list_count_at(s: Seq<u8>, pos: int) -> Option<(u32, int)> {
    if pos < 0 || pos >= s.len() {
        None
    } else if s[pos] == 0 {
        Some((0, pos + 1))
    } else if s[pos] == 1 {
        compact_at(s, pos + 1)
    } else {
        None
    }
}

/// A module at `pos`, which gets the wire index `index`: name, storage,
/// calls, events, constants and errors.
pub open spec fn module_at(s: Seq<u8>, pos: int, index: u8) -> Option<(ModuleView, int)> {
    match str_at(s, pos) {
        Some(name) => match storage_at(s, name.1) {
            Some(st) => match list_count_at(s, st.1) {
                Some(cc) => match calls_from(s, cc.1, cc.0 as nat) {
                    Some(calls) => match list_count_at(s, calls.1) {
                        Some(ec) => match events_from(s, ec.1, ec.0 as nat) {
                            Some(evs) => match pieces_at(Piece::Constant, s, evs.1) {
                                Some(p) => match pieces_at(Piece::ErrorDef, s, p) {
                                    Some(q) => Some(
                                        (
                                            ModuleView {
                                                name: name.0,
                                                index,
                                                storage: st.0,
                                                calls: calls.0,
                                                events: evs.0,
                                            },
                                            q,
                                        ),
                                    ),
                                    None => None,
                                },
                                None => None,
                            },
                            None => None,
                        },
                        None => None,
                    },
                    None => None,
                },
                None => None,
            },
            None => None,
        },
        None => None,
    }
}

/// The modules `i..n` from `pos` on; each module's wire index is its position.
pub open spec fn modules_from(s: Seq<u8>, pos: int, i: nat, n: nat) -> Option<(Seq<ModuleView>, int)>
    decreases n - i,
{
    if i >= n {
        Some((Seq::empty(), pos))
    } else {
        match module_at(s, pos, i as u8) {
            Some(x) => match modules_from(s, x.1, i + 1, n) {
                Some(r) => Some((seq![x.0] + r.0, r.1)),
                None => None,
            },
            None => None,
        }
    }
}

/// The schema a blob describes: the four bytes `meta`, a version byte, the
/// modules (at most 256), then the transaction format (a version byte and a
/// list of texts). Another version byte is unsupported; anything else that
/// does not follow this layout is malformed.
pub open spec fn schema_of(s: Seq<u8>) -> Result<Seq<ModuleView>, ClientError> {
    if s.len() < 5 || s[0] != 0x6d || s[1] != 0x65 || s[2] != 0x74 || s[3] != 0x61 {
        Err(ClientError::MalformedSchema)
    } else if s[4] != SCHEMA_VERSION {
        Err(ClientError::UnsupportedSchemaVersion)
    } else {
        match compact_at(s, 5) {
            Some(c) => if c.0 <= 256 {
                match modules_from(s, c.1, 0, c.0 as nat) {
                    Some(m) => if m.1 < s.len() && strs_at(s, m.1 + 1) is Some {
                        Ok(m.0)
                    } else {
                        Err(ClientError::MalformedSchema)
                    },
                    None => Err(ClientError::MalformedSchema),
                }
            } else {
                Err(ClientError::MalformedSchema)
            },
            None => Err(ClientError::MalformedSchema),
        }
    }
}

/// The width of a payload argument, by the name of its type.
pub fn arg_shape(t: &[u8]) -> (r: ArgShape)
    ensures
        r == shape_of(t@),
{
    let bool_name: [u8; 4] = [98, 111, 111, 108];
    let u8_name: [u8; 2] = [117, 56];
    let u16_name: [u8; 3] = [117, 49, 54];
    let u32_name: [u8; 3] = [117, 51, 50];
    let u64_name: [u8; 3] = [117, 54, 52];
    let u128_name: [u8; 4] = [117, 49, 50, 56];
    let balance_name: [u8; 7] = [66, 97, 108, 97, 110, 99, 101];
    let account_name: [u8; 9] = [65, 99, 99, 111, 117, 110, 116, 73, 100];
    let hash_name: [u8; 4] = [72, 97, 115, 104];
    let compact_prefix: [u8; 8] = [67, 111, 109, 112, 97, 99, 116, 60];
    assert(bool_name@ == seq![98u8, 111, 111, 108]);
    assert(u8_name@ == seq![117u8, 56]);
    assert(u16_name@ == seq![117u8, 49, 54]);
    assert(u32_name@ == seq![117u8, 51, 50]);
    assert(u64_name@ == seq![117u8, 54, 52]);
    assert(u128_name@ == seq![117u8, 49, 50, 56]);
    assert(balance_name@ == seq![66u8, 97, 108, 97, 110, 99, 101]);
    assert(account_name@ == seq![65u8, 99, 99, 111, 117, 110, 116, 73, 100]);
    assert(hash_name@ == seq![72u8, 97, 115, 104]);
    assert(compact_prefix@ == seq![67u8, 111, 109, 112, 97, 99, 116, 60]);
    reveal(shape_of);
    if bytes_eq(t, &bool_name) || bytes_eq(t, &u8_name) {
        ArgShape::Fixed(1)
    } else if bytes_eq(t, &u16_name) {
        ArgShape::Fixed(2)
    } else if bytes_eq(t, &u32_name) {
        ArgShape::Fixed(4)
    } else if bytes_eq(t, &u64_name) {
        ArgShape::Fixed(8)
    } else if bytes_eq(t, &u128_name) || bytes_eq(t, &balance_name) {
        ArgShape::Fixed(16)
    } else if bytes_eq(t, &account_name) || bytes_eq(t, &hash_name) {
        ArgShape::Fixed(32)
    } else if t.len() >= 8 && bytes_eq(t.split_at(8).0, &compact_prefix) {
        ArgShape::Compact
    } else {
        ArgShape::Unknown
    }
}

/// The hasher that a schema byte names.
pub fn hasher(b: u8) -> (r: Option<StorageHasher>)
    ensures
        r == hasher_of(b),
{
    match b {
        0 => Some(StorageHasher::Blake2_128),
        1 => Some(StorageHasher::Blake2_256),
        2 => Some(StorageHasher::Blake2_128Concat),
        3 => Some(StorageHasher::Twox128),
        4 => Some(StorageHasher::Twox256),
        5 => Some(StorageHasher::Twox64Concat),
        6 => Some(StorageHasher::Identity),
        _ => None,
    }
}

/// Reads the argument types of an event, as shapes.
pub fn read_shapes(s: &[u8], pos: usize) -> (r: Option<(Vec<ArgShape>, usize)>)
    requires
        pos <= s.len(),
    ensures
        shapes_at(s@, pos as int) matches Some(x) ==> (r matches Some(y) && y.0@ == x.0 && y.1
            == x.1),
        shapes_at(s@, pos as int) is None ==> r is None,
        r matches Some(y) ==> y.1 <= s.len(),
{
    let (n, start) = match read_compact(s, pos) {
        Some(c) => c,
        None => {
            return None;
        },
    };
    let mut out: Vec<ArgShape> = Vec::new();
    let mut p: usize = start;
    let mut k: u32 = 0;
    while k < n
        invariant
            k <= n,
            compact_at(s@, pos as int) == Some((n, start as int)),
            p <= s.len(),
            shapes_from(s@, start as int, n as nat) == match shapes_from(
                s@,
                p as int,
                (n - k) as nat,
            ) {
                Some(r) => Some((out@ + r.0, r.1)),
                None => None::<(Seq<ArgShape>, int)>,
            },
        decreases n - k,
    {
        match read_str(s, p) {
            Some((a, e)) => {
                let (front, _) = s.split_at(e);
                let (_, t) = front.split_at(a);
                assert(t@ =~= s@.subrange(a as int, e as int));
                let shape = arg_shape(t);
                let ghost before = out@;
                out.push(shape);
                p = e;
                k = k + 1;
                proof {
                    match shapes_from(s@, p as int, (n - k) as nat) {
                        Some(r) => {
                            assert(before + (seq![shape] + r.0) =~= out@ + r.0);
                        },
                        None => {},
                    }
                }
            },
            None => {
                assert(str_at(s@, p as int) is None);
                assert(shapes_from(s@, p as int, (n - k) as nat) is None);
                return None;
            },
        }
    }
    assert(out@ + Seq::<ArgShape>::empty() =~= out@);
    Some((out, p))
}

/// The bytes of `s` between `a` and `e`.
fn text(s: &[u8], a: usize, e: usize) -> (r: &[u8])
    requires
        a <= e <= s.len(),
    ensures
        r@ == s@.subrange(a as int, e as int),
{
    let (front, _) = s.split_at(e);
    let (_, t) = front.split_at(a);
    assert(t@ =~= s@.subrange(a as int, e as int));
    t
}

/// Reads the kind of a storage entry.
pub fn read_entry_type(s: &[u8], pos: usize) -> (r: Option<(StorageKind, usize)>)
    requires
        pos <= s.len(),
    ensures
        entry_type_at(s@, pos as int) is None <==> r is None,
        r matches Some(y) ==> (y.1 <= s.len() && entry_type_at(s@, pos as int) == Some(
            (y.0, y.1 as int),
        )),
{
    if s.len() - pos < 2 {
        return None;
    }
    let tag = s[pos];
    if tag == 0 {
        match skip_strs(s, pos + 1, 1) {
            Some(p) => Some((StorageKind::Plain, p)),
            None => None,
        }
    } else if tag == 1 {
        match hasher(s[pos + 1]) {
            Some(h) => match skip_strs(s, pos + 2, 2) {
                Some(p) => if p < s.len() && s[p] <= 1 {
                    Some((StorageKind::SingleMap(h), p + 1))
                } else {
                    None
                },
                None => None,
            },
            None => None,
        }
    } else if tag == 2 {
        match hasher(s[pos + 1]) {
            Some(h1) => match skip_strs(s, pos + 2, 3) {
                Some(p) => if p < s.len() {
                    match hasher(s[p]) {
                        Some(h2) => Some((StorageKind::DoubleMap(h1, h2), p + 1)),
                        None => None,
                    }
                } else {
                    None
                },
                None => None,
            },
            None => None,
        }
    } else {
        None
    }
}

/// Reads one storage entry.
pub fn read_entry(s: &[u8], pos: usize) -> (r: Option<(StorageEntry, usize)>)
    requires
        pos <= s.len(),
    ensures
        entry_at(s@, pos as int) is None <==> r is None,
        r matches Some(y) ==> (y.1 <= s.len() && entry_at(s@, pos as int) == Some(
            (entry_view(y.0), y.1 as int),
        )),
{
    let (a, e) = match read_str(s, pos) {
        Some(x) => x,
        None => {
            return None;
        },
    };
    if e >= s.len() || s[e] > 1 {
        return None;
    }
    let (kind, p) = match read_entry_type(s, e + 1) {
        Some(x) => x,
        None => {
            return None;
        },
    };
    let q = match skip_strs(s, p, 1) {
        Some(q) => q,
        None => {
            return None;
        },
    };
    match skip_str_list(s, q) {
        Some(end) => Some((StorageEntry { name: copy_bytes(text(s, a, e)), kind }, end)),
        None => None,
    }
}

/// Reads `n` storage entries.
pub fn read_entries(s: &[u8], pos: usize, n: u32) -> (r: Option<(Vec<StorageEntry>, usize)>)
    requires
        pos <= s.len(),
    ensures
        entries_from(s@, pos as int, n as nat) is None <==> r is None,
        r matches Some(y) ==> (y.1 <= s.len() && entries_from(s@, pos as int, n as nat) == Some(
            (y.0@.map_values(|e: StorageEntry| entry_view(e)), y.1 as int),
        )),
{
    let mut out: Vec<StorageEntry> = Vec::new();
    let mut p: usize = pos;
    let mut k: u32 = 0;
    while k < n
        invariant
            k <= n,
            p <= s.len(),
            entries_from(s@, pos as int, n as nat) == match entries_from(
                s@,
                p as int,
                (n - k) as nat,
            ) {
                Some(r) => Some((out@.map_values(|e: StorageEntry| entry_view(e)) + r.0, r.1)),
                None => None::<(Seq<(Seq<u8>, StorageKind)>, int)>,
            },
        decreases n - k,
    {
        match read_entry(s, p) {
            Some((e, q)) => {
                let ghost before = out@;
                let ghost ev = entry_view(e);
                out.push(e);
                p = q;
                k = k + 1;
                proof {
                    assert(out@.map_values(|e: StorageEntry| entry_view(e)) =~= before.map_values(
                        |e: StorageEntry| entry_view(e),
                    ).push(ev));
                    match entries_from(s@, p as int, (n - k) as nat) {
                        Some(r) => {
                            assert(before.map_values(|e: StorageEntry| entry_view(e)) + (seq![ev]
                                + r.0) =~= out@.map_values(|e: StorageEntry| entry_view(e)) + r.0);
                        },
                        None => {},
                    }
                }
            },
            None => {
                return None;
            },
        }
    }
    assert(out@.map_values(|e: StorageEntry| entry_view(e)) + Seq::empty() =~= out@.map_values(
        |e: StorageEntry| entry_view(e),
    ));
    Some((out, p))
}

/// Reads the optional storage section.
pub fn read_storage(s: &[u8], pos: usize) -> (r: Option<(Vec<StorageEntry>, usize)>)
    requires
        pos <= s.len(),
    ensures
        storage_at(s@, pos as int) is None <==> r is None,
        r matches Some(y) ==> (y.1 <= s.len() && storage_at(s@, pos as int) == Some(
            (y.0@.map_values(|e: StorageEntry| entry_view(e)), y.1 as int),
        )),
{
    if pos >= s.len() {
        return None;
    }
    if s[pos] == 0 {
        let v: Vec<StorageEntry> = Vec::new();
        assert(v@.map_values(|e: StorageEntry| entry_view(e)) =~= Seq::empty());
        Some((v, pos + 1))
    } else if s[pos] == 1 {
        match skip_strs(s, pos + 1, 1) {
            Some(p) => match read_compact(s, p) {
                Some((n, q)) => read_entries(s, q, n),
                None => None,
            },
            None => None,
        }
    } else {
        None
    }
}

/// Reads one call, keeping its name.
pub fn read_call(s: &[u8], pos: usize) -> (r: Option<(Vec<u8>, usize)>)
    requires
        pos <= s.len(),
    ensures
        call_at(s@, pos as int) is None <==> r is None,
        r matches Some(y) ==> (y.1 <= s.len() && call_at(s@, pos as int) == Some(
            (y.0@, y.1 as int),
        )),
{
    let (a, e) = match read_str(s, pos) {
        Some(x) => x,
        None => {
            return None;
        },
    };
    match skip_list(Piece::CallArg, s, e) {
        Some(p) => match skip_str_list(s, p) {
            Some(q) => Some((copy_bytes(text(s, a, e)), q)),
            None => None,
        },
        None => None,
    }
}

/// Reads `n` calls.
pub fn read_calls(s: &[u8], pos: usize, n: u32) -> (r: Option<(Vec<Vec<u8>>, usize)>)
    requires
        pos <= s.len(),
    ensures
        calls_from(s@, pos as int, n as nat) is None <==> r is None,
        r matches Some(y) ==> (y.1 <= s.len() && calls_from(s@, pos as int, n as nat) == Some(
            (y.0@.map_values(|c: Vec<u8>| bytes_view(c)), y.1 as int),
        )),
{
    let mut out: Vec<Vec<u8>> = Vec::new();
    let mut p: usize = pos;
    let mut k: u32 = 0;
    while k < n
        invariant
            k <= n,
            p <= s.len(),
            calls_from(s@, pos as int, n as nat) == match calls_from(s@, p as int, (n - k) as nat) {
                Some(r) => Some((out@.map_values(|c: Vec<u8>| bytes_view(c)) + r.0, r.1)),
                None => None::<(Seq<Seq<u8>>, int)>,
            },
        decreases n - k,
    {
        match read_call(s, p) {
            Some((c, q)) => {
                let ghost before = out@;
                let ghost cv = c@;
                out.push(c);
                p = q;
                k = k + 1;
                proof {
                    assert(out@.map_values(|c: Vec<u8>| bytes_view(c)) =~= before.map_values(
                        |c: Vec<u8>| bytes_view(c),
                    ).push(cv));
                    match calls_from(s@, p as int, (n - k) as nat) {
                        Some(r) => {
                            assert(before.map_values(|c: Vec<u8>| bytes_view(c)) + (seq![cv] + r.0)
                                =~= out@.map_values(|c: Vec<u8>| bytes_view(c)) + r.0);
                        },
                        None => {},
                    }
                }
            },
            None => {
                return None;
            },
        }
    }
    assert(out@.map_values(|c: Vec<u8>| bytes_view(c)) + Seq::empty() =~= out@.map_values(
        |c: Vec<u8>| bytes_view(c),
    ));
    Some((out, p))
}

/// Reads one event definition.
pub fn read_event(s: &[u8], pos: usize) -> (r: Option<(EventMetadata, usize)>)
    requires
        pos <= s.len(),
    ensures
        event_at(s@, pos as int) is None <==> r is None,
        r matches Some(y) ==> (y.1 <= s.len() && event_at(s@, pos as int) == Some(
            (event_view(y.0), y.1 as int),
        )),
{
    let (a, e) = match read_str(s, pos) {
        Some(x) => x,
        None => {
            return None;
        },
    };
    match read_shapes(s, e) {
        Some((args, p)) => match skip_str_list(s, p) {
            Some(q) => Some((EventMetadata { name: copy_bytes(text(s, a, e)), args }, q)),
            None => None,
        },
        None => None,
    }
}

/// Reads `n` event definitions.
pub fn read_events(s: &[u8], pos: usize, n: u32) -> (r: Option<(Vec<EventMetadata>, usize)>)
    requires
        pos <= s.len(),
    ensures
        events_from(s@, pos as int, n as nat) is None <==> r is None,
        r matches Some(y) ==> (y.1 <= s.len() && events_from(s@, pos as int, n as nat) == Some(
            (y.0@.map_values(|e: EventMetadata| event_view(e)), y.1 as int),
        )),
{
    let mut out: Vec<EventMetadata> = Vec::new();
    let mut p: usize = pos;
    let mut k: u32 = 0;
    while k < n
        invariant
            k <= n,
            p <= s.len(),
            events_from(s@, pos as int, n as nat) == match events_from(
                s@,
                p as int,
                (n - k) as nat,
            ) {
                Some(r) => Some((out@.map_values(|e: EventMetadata| event_view(e)) + r.0, r.1)),
                None => None::<(Seq<(Seq<u8>, Seq<ArgShape>)>, int)>,
            },
        decreases n - k,
    {
        match read_event(s, p) {
            Some((e, q)) => {
                let ghost before = out@;
                let ghost ev = event_view(e);
                out.push(e);
                p = q;
                k = k + 1;
                proof {
                    assert(out@.map_values(|e: EventMetadata| event_view(e)) =~= before.map_values(
                        |e: EventMetadata| event_view(e),
                    ).push(ev));
                    match events_from(s@, p as int, (n - k) as nat) {
                        Some(r) => {
                            assert(before.map_values(|e: EventMetadata| event_view(e)) + (seq![ev]
                                + r.0) =~= out@.map_values(|e: EventMetadata| event_view(e))
                                + r.0);
                        },
                        None => {},
                    }
                }
            },
            None => {
                return None;
            },
        }
    }
    assert(out@.map_values(|e: EventMetadata| event_view(e)) + Seq::empty() =~= out@.map_values(
        |e: EventMetadata| event_view(e),
    ));
    Some((out, p))
}

/// Reads the count of an optional list.
pub fn read_list_count(s: &[u8], pos: usize) -> (r: Option<(u32, usize)>)
    requires
        pos <= s.len(),
    ensures
        list_count_at(s@, pos as int) is None <==> r is None,
        r matches Some(y) ==> (y.1 <= s.len() && list_count_at(s@, pos as int) == Some(
            (y.0, y.1 as int),
        )),
{
    if pos >= s.len() {
        None
    } else if s[pos] == 0 {
        Some((0, pos + 1))
    } else if s[pos] == 1 {
        read_compact(s, pos + 1)
    } else {
        None
    }
}

/// Reads one module, which gets the wire index `index`.
pub fn read_module(s: &[u8], pos: usize, index: u8) -> (r: Option<(ModuleMetadata, usize)>)
    requires
        pos <= s.len(),
    ensures
        module_at(s@, pos as int, index) is None <==> r is None,
        r matches Some(y) ==> (y.1 <= s.len() && module_at(s@, pos as int, index) == Some(
            (module_view(y.0), y.1 as int),
        )),
{
    let (a, e) = match read_str(s, pos) {
        Some(x) => x,
        None => {
            return None;
        },
    };
    let (storage, pos1) = match read_storage(s, e) {
        Some(x) => x,
        None => {
            return None;
        },
    };
    let (nc, pos2) = match read_list_count(s, pos1) {
        Some(x) => x,
        None => {
            return None;
        },
    };
    let (calls, pos3) = match read_calls(s, pos2, nc) {
        Some(x) => x,
        None => {
            return None;
        },
    };
    let (ne, pos4) = match read_list_count(s, pos3) {
        Some(x) => x,
        None => {
            return None;
        },
    };
    let (events, pos5) = match read_events(s, pos4, ne) {
        Some(x) => x,
        None => {
            return None;
        },
    };
    let pos6 = match skip_list(Piece::Constant, s, pos5) {
        Some(x) => x,
        None => {
            return None;
        },
    };
    match skip_list(Piece::ErrorDef, s, pos6) {
        Some(end) => {
            let m = ModuleMetadata { name: copy_bytes(text(s, a, e)), index, storage, calls, events };
            Some((m, end))
        },
        None => None,
    }
}

/// Reads the modules `0..n`.
pub fn read_modules(s: &[u8], pos: usize, n: u32) -> (r: Option<(Vec<ModuleMetadata>, usize)>)
    requires
        pos <= s.len(),
        n <= 256,
    ensures
        modules_from(s@, pos as int, 0, n as nat) is None <==> r is None,
        r matches Some(y) ==> (y.1 <= s.len() && modules_from(s@, pos as int, 0, n as nat) == Some(
            (y.0@.map_values(|m: ModuleMetadata| module_view(m)), y.1 as int),
        )),
{
    let mut out: Vec<ModuleMetadata> = Vec::new();
    let mut p: usize = pos;
    let mut k: u32 = 0;
    while k < n
        invariant
            k <= n <= 256,
            p <= s.len(),
            modules_from(s@, pos as int, 0, n as nat) == match modules_from(
                s@,
                p as int,
                k as nat,
                n as nat,
            ) {
                Some(r) => Some((out@.map_values(|m: ModuleMetadata| module_view(m)) + r.0, r.1)),
                None => None::<(Seq<ModuleView>, int)>,
            },
        decreases n - k,
    {
        match read_module(s, p, k as u8) {
            Some((m, q)) => {
                let ghost before = out@;
                let ghost mv = module_view(m);
                out.push(m);
                p = q;
                k = k + 1;
                proof {
                    assert(out@.map_values(|m: ModuleMetadata| module_view(m)) =~= before.map_values(
                        |m: ModuleMetadata| module_view(m),
                    ).push(mv));
                    match modules_from(s@, p as int, k as nat, n as nat) {
                        Some(r) => {
                            assert(before.map_values(|m: ModuleMetadata| module_view(m)) + (seq![mv]
                                + r.0) =~= out@.map_values(|m: ModuleMetadata| module_view(m))
                                + r.0);
                        },
                        None => {},
                    }
                }
            },
            None => {
                return None;
            },
        }
    }
    assert(out@.map_values(|m: ModuleMetadata| module_view(m)) + Seq::empty() =~= out@.map_values(
        |m: ModuleMetadata| module_view(m),
    ));
    Some((out, p))
}

/// Builds the metadata model from the node's schema blob. A blob of another
/// version gives `UnsupportedSchemaVersion`; one that does not follow the
/// layout gives `MalformedSchema`.
pub fn build_metadata(s: &[u8]) -> (r: Result<Metadata, ClientError>)
    ensures
        schema_of(s@) matches Ok(m) ==> (r matches Ok(md) && md.modules@.map_values(
            |x: ModuleMetadata| module_view(x),
        ) == m),
        schema_of(s@) matches Err(e) ==> r == Err::<Metadata, _>(e),
{
    if s.len() < 5 || s[0] != 0x6d || s[1] != 0x65 || s[2] != 0x74 || s[3] != 0x61 {
        return Err(ClientError::MalformedSchema);
    }
    if s[4] != SCHEMA_VERSION {
        return Err(ClientError::UnsupportedSchemaVersion);
    }
    let (n, p) = match read_compact(s, 5) {
        Some(c) => c,
        None => {
            return Err(ClientError::MalformedSchema);
        },
    };
    if n > 256 {
        return Err(ClientError::MalformedSchema);
    }
    let (modules, q) = match read_modules(s, p, n) {
        Some(x) => x,
        None => {
            return Err(ClientError::MalformedSchema);
        },
    };
    if q >= s.len() {
        return Err(ClientError::MalformedSchema);
    }
    match skip_str_list(s, q + 1) {
        Some(_) => Ok(Metadata { modules }),
        None => Err(ClientError::MalformedSchema),
    }
}

} // verus!
