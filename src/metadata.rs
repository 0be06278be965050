use vstd::prelude::*;

use crate::error::ClientError;
use crate::storage::{arity, derive_key, keys_view, storage_key_of, StorageKind};

verus! {

/// How many payload bytes one event argument takes.
#[derive(Debug, Clone, Copy, PartialEq, Eq, Structural)]
pub enum ArgShape {
    /// A value of this many bytes.
    Fixed(usize),
    /// A compact-encoded integer, whose first byte gives its width.
    Compact,
    /// A type whose width this client does not know.
    Unknown,
}

/// A storage entry of a module.
#[derive(Debug, Clone)]
pub struct StorageEntry {
    pub name: Vec<u8>,
    pub kind: StorageKind,
}

/// An event that a module can emit; its variant index is its position.
#[derive(Debug, Clone)]
pub struct EventMetadata {
    pub name: Vec<u8>,
    pub args: Vec<ArgShape>,
}

/// A module of the node; `index` is the discriminant on the wire.
#[derive(Debug, Clone)]
pub struct ModuleMetadata {
    pub name: Vec<u8>,
    pub index: u8,
    pub storage: Vec<StorageEntry>,
    /// The callable operations, by name; the call index is the position.
    pub calls: Vec<Vec<u8>>,
    pub events: Vec<EventMetadata>,
}

/// The node's schema: its modules in order.
#[derive(Debug, Clone)]
pub struct Metadata {
    pub modules: Vec<ModuleMetadata>,
}

/// The first position below `len` where `f` holds.
pub open spec fn first_where(len: int, f: spec_fn(int) -> bool) -> Option<int> {
    if exists|p: int| 0 <= p < len && #[trigger] f(p) && forall|j: int| 0 <= j < p ==> !(#[trigger] f(j)) {
        Some(choose|p: int| 0 <= p < len && #[trigger] f(p) && forall|j: int| 0 <= j < p ==> !(#[trigger] f(j)))
    } else {
        None
    }
}

pub proof fn lemma_first_where_found(len: int, f: spec_fn(int) -> bool, p: int)
    requires
        0 <= p < len,
        f(p),
        forall|j: int| 0 <= j < p ==> !(#[trigger] f(j)),
    ensures
        first_where(len, f) == Some(p),
{
    let c = choose|c: int| 0 <= c < len && #[trigger] f(c) && forall|j: int| 0 <= j < c ==> !(#[trigger] f(j));
    assert(0 <= c < len && f(c) && forall|j: int| 0 <= j < c ==> !(#[trigger] f(j)));
    if c < p {
        assert(!f(c));
    } else if c > p {
        assert(!f(p));
    }
}

pub proof fn lemma_first_where_none(len: int, f: spec_fn(int) -> bool)
    requires
        forall|j: int| 0 <= j < len ==> !(#[trigger] f(j)),
    ensures
        first_where(len, f) == None::<int>,
{
}

/// Position of the first module named `name`.
pub open spec fn module_pos(md: Metadata, name: Seq<u8>) -> Option<int> {
    first_where(md.modules@.len() as int, |p: int| md.modules@[p].name@ == name)
}

/// Position of the first module whose wire index is `index`.
pub open spec fn module_pos_by_index(md: Metadata, index: u8) -> Option<int> {
    first_where(md.modules@.len() as int, |p: int| md.modules@[p].index == index)
}

/// Position of the first storage entry named `item` in a module.
pub open spec fn entry_pos(m: ModuleMetadata, item: Seq<u8>) -> Option<int> {
    first_where(m.storage@.len() as int, |p: int| m.storage@[p].name@ == item)
}

/// The kind of the entry `item` of the module `module`, if both exist.
pub open spec fn storage_kind_of(md: Metadata, module: Seq<u8>, item: Seq<u8>) -> Option<
    StorageKind,
> {
    match module_pos(md, module) {
        Some(p) => match entry_pos(md.modules@[p], item) {
            Some(q) => Some(md.modules@[p].storage@[q].kind),
            None => None,
        },
        None => None,
    }
}

/// Where the definition of an event lies: the module's position and the
/// event's position in it.
pub open spec fn event_pos(md: Metadata, module_index: u8, variant_index: u8) -> Option<
    (int, int),
> {
    match module_pos_by_index(md, module_index) {
        Some(p) => if (variant_index as int) < md.modules@[p].events@.len() {
            Some((p, variant_index as int))
        } else {
            None
        },
        None => None,
    }
}

/// Whether two byte strings are equal.
pub fn bytes_eq(a: &[u8], b: &[u8]) -> (r: bool)
    ensures
        r == (a@ == b@),
{
    if a.len() != b.len() {
        return false;
    }
    let mut i: usize = 0;
    while i < a.len()
        invariant
            a.len() == b.len(),
            0 <= i <= a.len(),
            forall|j: int| 0 <= j < i ==> a@[j] == b@[j],
        decreases a.len() - i,
    {
        if a[i] != b[i] {
            return false;
        }
        i = i + 1;
    }
    assert(a@ =~= b@);
    true
}

/// A fresh copy of some bytes.
pub fn copy_bytes(src: &[u8]) -> (r: Vec<u8>)
    ensures
        r@ == src@,
{
    let mut r: Vec<u8> = Vec::new();
    crate::storage::append_bytes(&mut r, src);
    assert(r@ =~= src@);
    r
}

impl Metadata {
    /// The position of the first module named `name`.
    pub fn module_position(&self, name: &[u8]) -> (r: Option<usize>)
        ensures
            r matches Some(p) ==> module_pos(*self, name@) == Some(p as int),
            r is None ==> module_pos(*self, name@) is None,
    {
        let ghost f = |p: int| self.modules@[p].name@ == name@;
        let mut i: usize = 0;
        while i < self.modules.len()
            invariant
                0 <= i <= self.modules.len(),
                f == (|p: int| self.modules@[p].name@ == name@),
                forall|j: int| 0 <= j < i ==> !(#[trigger] f(j)),
            decreases self.modules.len() - i,
        {
            if bytes_eq(self.modules[i].name.as_slice(), name) {
                proof {
                    lemma_first_where_found(self.modules@.len() as int, f, i as int);
                }
                return Some(i);
            }
            i = i + 1;
        }
        proof {
            lemma_first_where_none(self.modules@.len() as int, f);
        }
        None
    }

    /// The first module named `name`.
    pub fn module(&self, name: &[u8]) -> (r: Option<&ModuleMetadata>)
        ensures
            r matches Some(m) ==> (module_pos(*self, name@) matches Some(p) && *m
                == self.modules@[p]),
            r is None ==> module_pos(*self, name@) is None,
    {
        match self.module_position(name) {
            Some(p) => Some(&self.modules[p]),
            None => None,
        }
    }

    /// The position of the first module whose wire index is `index`.
    pub fn module_position_by_index(&self, index: u8) -> (r: Option<usize>)
        ensures
            r matches Some(p) ==> module_pos_by_index(*self, index) == Some(p as int),
            r is None ==> module_pos_by_index(*self, index) is None,
    {
        let ghost f = |p: int| self.modules@[p].index == index;
        let mut i: usize = 0;
        while i < self.modules.len()
            invariant
                0 <= i <= self.modules.len(),
                f == (|p: int| self.modules@[p].index == index),
                forall|j: int| 0 <= j < i ==> !(#[trigger] f(j)),
            decreases self.modules.len() - i,
        {
            if self.modules[i].index == index {
                proof {
                    lemma_first_where_found(self.modules@.len() as int, f, i as int);
                }
                return Some(i);
            }
            i = i + 1;
        }
        proof {
            lemma_first_where_none(self.modules@.len() as int, f);
        }
        None
    }

    /// The kind of the storage entry `item` of `module`.
    pub fn storage(&self, module: &[u8], item: &[u8]) -> (r: Option<StorageKind>)
        ensures
            r == storage_kind_of(*self, module@, item@),
    {
        match self.module_position(module) {
            Some(p) => {
                let m = &self.modules[p];
                match m.entry_position(item) {
                    Some(q) => Some(m.storage[q].kind),
                    None => None,
                }
            },
            None => None,
        }
    }

    /// The module's and the event's positions of the event definition for
    /// the wire indices.
    pub fn event_definition(&self, module_index: u8, variant_index: u8) -> (r: Option<
        (usize, usize),
    >)
        ensures
            r matches Some(x) ==> event_pos(*self, module_index, variant_index) == Some(
                (x.0 as int, x.1 as int),
            ),
            r is None ==> event_pos(*self, module_index, variant_index) is None,
    {
        match self.module_position_by_index(module_index) {
            Some(p) => {
                if (variant_index as usize) < self.modules[p].events.len() {
                    Some((p, variant_index as usize))
                } else {
                    None
                }
            },
            None => None,
        }
    }

    /// The storage address of `item` of `module` for the encoded keys.
    pub fn storage_key(&self, module: &[u8], item: &[u8], keys: &Vec<Vec<u8>>) -> (r: Result<
        Vec<u8>,
        ClientError,
    >)
        ensures
            storage_kind_of(*self, module@, item@) is None ==> r == Err::<Vec<u8>, _>(
                ClientError::UnknownStorageItem,
            ),
            storage_kind_of(*self, module@, item@) matches Some(kind) ==> (if keys.len() == arity(
                kind,
            ) {
                r matches Ok(k) && k@ == storage_key_of(module@, item@, kind, keys_view(keys@))
            } else {
                r == Err::<Vec<u8>, _>(ClientError::KeyArityMismatch)
            }),
    {
        match self.storage(module, item) {
            Some(kind) => derive_key(module, item, kind, keys),
            None => Err(ClientError::UnknownStorageItem),
        }
    }
}

impl ModuleMetadata {
    /// The position of the first storage entry named `item`.
    pub fn entry_position(&self, item: &[u8]) -> (r: Option<usize>)
        ensures
            r matches Some(p) ==> entry_pos(*self, item@) == Some(p as int),
            r is None ==> entry_pos(*self, item@) is None,
    {
        let ghost f = |p: int| self.storage@[p].name@ == item@;
        let mut i: usize = 0;
        while i < self.storage.len()
            invariant
                0 <= i <= self.storage.len(),
                f == (|p: int| self.storage@[p].name@ == item@),
                forall|j: int| 0 <= j < i ==> !(#[trigger] f(j)),
            decreases self.storage.len() - i,
        {
            if bytes_eq(self.storage[i].name.as_slice(), item) {
                proof {
                    lemma_first_where_found(self.storage@.len() as int, f, i as int);
                }
                return Some(i);
            }
            i = i + 1;
        }
        proof {
            lemma_first_where_none(self.storage@.len() as int, f);
        }
        None
    }
}

} // verus!
