//! The object store: objects read once, on demand, and kept.

use std::collections::HashMap;
use vstd::prelude::*;
use crate::object::{lemma_object_identity, object_at, read_object, Obj, ObjModel};
use crate::xref::{XrefEntry, XrefTable};

verus! {

broadcast use vstd::std_specs::hash::group_hash_axioms;

/// Why a reference gave no object.
#[derive(Debug, Clone, Copy, PartialEq, Eq, Structural)]
pub enum ReferenceError {
    /// The table has no entry for the id, or the id is free.
    NotFound,
    /// The id is one of those whose resolution led here.
    CyclicReference,
    /// The generation of the reference is not that of the table.
    IdGenMismatch,
}

/// What resolving `id` gives in a file `bytes` with the table `table`: the
/// object that stands where the table says, if the table has the id in
/// use.
pub open spec fn resolved(bytes: Seq<u8>, table: Map<u64, XrefEntry>, id: u64) -> Result<
    ObjModel,
    ReferenceError,
> {
    if table.contains_key(id) {
        match table[id] {
            XrefEntry::InUse { offset, generation } => Ok(object_at(bytes, id, offset, generation)),
            _ => Err(ReferenceError::NotFound),
        }
    } else {
        Err(ReferenceError::NotFound)
    }
}

/// An object that was resolved has the id that was asked for.
pub proof fn lemma_resolved_identity(bytes: Seq<u8>, table: Map<u64, XrefEntry>, id: u64)
    ensures
        resolved(bytes, table, id) matches Ok(o) ==> o.id == id,
{
    if table.contains_key(id) {
        match table[id] {
            XrefEntry::InUse { offset, generation } => {
                lemma_object_identity(bytes, id, offset, generation);
            },
            _ => {},
        }
    }
}

/// An object, or the error, with the object taken by its view.
pub open spec fn obj_view(r: Result<&Obj, ReferenceError>) -> Result<ObjModel, ReferenceError> {
    match r {
        Ok(o) => Ok(o@),
        Err(e) => Err(e),
    }
}

/// The bytes of a file, its cross-reference table, and the objects read so
/// far. Each object is read at most once.
#[derive(Debug)]
pub struct ObjectStore {
    data: Vec<u8>,
    table: XrefTable,
    cache: HashMap<u64, Obj>,
}

impl ObjectStore {
    /// The bytes of the file.
    pub closed spec fn bytes(&self) -> Seq<u8> {
        self.data@
    }

    /// The cross-reference table.
    pub closed spec fn table(&self) -> Map<u64, XrefEntry> {
        self.table@
    }

    /// The ids of the objects that have been read.
    pub closed spec fn cached(&self) -> Set<u64> {
        self.cache@.dom()
    }

    /// Every object that the store holds is what resolving its id gives.
    #[verifier::type_invariant]
    spec fn well_formed(&self) -> bool {
        forall|id: u64| #[trigger]
            self.cache@.contains_key(id) ==> resolved(self.data@, self.table@, id) == Ok::<
                ObjModel,
                ReferenceError,
            >(self.cache@[id]@)
    }

    /// A store over `data` with `table`, in which no object has been read.
    pub fn new(data: Vec<u8>, table: XrefTable) -> (s: Self)
        ensures
            s.bytes() == data@,
            s.table() == table@,
            s.cached() == Set::<u64>::empty(),
    {
        ObjectStore { data, table, cache: HashMap::new() }
    }

    /// The bytes of the file.
    pub fn data(&self) -> (d: &[u8])
        ensures
            d@ == self.bytes(),
    {
        self.data.as_slice()
    }

    /// The entry that the table has for `id`.
    pub fn entry(&self, id: u64) -> (r: Option<XrefEntry>)
        ensures
            r == if self.table().contains_key(id) {
                Some(self.table()[id])
            } else {
                None
            },
    {
        self.table.get(id)
    }

    /// Reads the object `id` unless it has been read, and says whether the
    /// store now holds it.
    pub fn load(&mut self, id: u64) -> (r: Result<(), ReferenceError>)
        ensures
            final(self).bytes() == old(self).bytes(),
            final(self).table() == old(self).table(),
            match r {
                Ok(()) => resolved(old(self).bytes(), old(self).table(), id) is Ok && final(self).cached() == old(self).cached().insert(id),
                Err(e) => resolved(old(self).bytes(), old(self).table(), id) == Err::<
                    ObjModel,
                    ReferenceError,
                >(e) && final(self).cached() == old(self).cached(),
            },
    {
        proof {
            use_type_invariant(&*self);
        }
        if self.cache.contains_key(&id) {
            assert(self.cached() =~= self.cached().insert(id));
            return Ok(());
        }
        let (offset, generation) = match self.table.get(id) {
            Some(XrefEntry::InUse { offset, generation }) => (offset, generation),
            _ => {
                return Err(ReferenceError::NotFound);
            },
        };
        let obj = read_object(self.data.as_slice(), id, offset, generation);
        let mut cache: HashMap<u64, Obj> = HashMap::new();
        core::mem::swap(&mut self.cache, &mut cache);
        cache.insert(id, obj);
        core::mem::swap(&mut self.cache, &mut cache);
        assert(self.cached() =~= old(self).cached().insert(id));
        Ok(())
    }

    /// The object `id` if the store holds it.
    pub fn get(&self, id: u64) -> (r: Option<&Obj>)
        ensures
            match r {
                Some(o) => self.cached().contains(id) && resolved(self.bytes(), self.table(), id)
                    == Ok::<ObjModel, ReferenceError>(o@),
                None => !self.cached().contains(id),
            },
    {
        proof {
            use_type_invariant(self);
        }
        self.cache.get(&id)
    }

    /// The object `id`: read from the file the first time, and from the
    /// store after that. An id that the table does not have in use is not
    /// found.
    pub fn resolve(&mut self, id: u64) -> (r: Result<&Obj, ReferenceError>)
        ensures
            final(self).bytes() == old(self).bytes(),
            final(self).table() == old(self).table(),
            final(self).cached() == if r is Ok {
                old(self).cached().insert(id)
            } else {
                old(self).cached()
            },
            obj_view(r) == resolved(old(self).bytes(), old(self).table(), id),
            r matches Ok(o) ==> o@.id == id,
    {
        proof {
            lemma_resolved_identity(self.bytes(), self.table(), id);
        }
        match self.load(id) {
            Err(e) => Err(e),
            Ok(()) => match self.get(id) {
                Some(o) => Ok(o),
                None => Err(ReferenceError::NotFound),
            },
        }
    }
}

/// The ids through which a resolution has come, in their order.
#[derive(Debug)]
pub struct ResolveChain {
    pub visited: Vec<u64>,
}

impl ResolveChain {
    /// A chain through no id.
    pub fn new() -> (c: Self)
        ensures
            c.visited@ == Seq::<u64>::empty(),
    {
        ResolveChain { visited: Vec::new() }
    }

    /// Whether the chain has come through `id`.
    pub fn contains(&self, id: u64) -> (r: bool)
        ensures
            r == self.visited@.contains(id),
    {
        let mut i: usize = 0;
        while i < self.visited.len()
            invariant
                i <= self.visited@.len(),
                forall|j: int| 0 <= j < i ==> self.visited@[j] != id,
            decreases self.visited@.len() - i,
        {
            if self.visited[i] == id {
                return true;
            }
            i = i + 1;
        }
        false
    }

    /// Goes on through `id`.
    pub fn enter(&mut self, id: u64)
        ensures
            final(self).visited@ == old(self).visited@.push(id),
    {
        self.visited.push(id);
    }

    /// Steps back from the last id, if there is one.
    pub fn leave(&mut self)
        ensures
            final(self).visited@ == if old(self).visited@.len() > 0 {
                old(self).visited@.drop_last()
            } else {
                old(self).visited@
            },
    {
        if self.visited.len() > 0 {
            self.visited.pop();
        }
    }
}

/// What following the reference `id generation R` gives when the
/// resolution has come through `visited`: an id among those is a cycle;
/// else the object is resolved, and its generation must be that of the
/// reference.
pub open spec fn dereferenced(
    bytes: Seq<u8>,
    table: Map<u64, XrefEntry>,
    visited: Seq<u64>,
    id: i64,
    generation: i64,
) -> Result<ObjModel, ReferenceError> {
    if id < 0 {
        Err(ReferenceError::NotFound)
    } else if visited.contains(id as u64) {
        Err(ReferenceError::CyclicReference)
    } else {
        match resolved(bytes, table, id as u64) {
            Err(e) => Err(e),
            Ok(o) => if o.genid != generation {
                Err(ReferenceError::IdGenMismatch)
            } else {
                Ok(o)
            },
        }
    }
}

impl ObjectStore {
    /// Follows the reference `id generation R` from the end of `chain`,
    /// which on success goes on through `id`.
    pub fn deref(&mut self, chain: &mut ResolveChain, id: i64, generation: i64) -> (r: Result<
        &Obj,
        ReferenceError,
    >)
        ensures
            final(self).bytes() == old(self).bytes(),
            final(self).table() == old(self).table(),
            old(self).cached().subset_of(final(self).cached()),
            final(self).cached().subset_of(old(self).cached().insert(id as u64)),
            obj_view(r) == dereferenced(
                old(self).bytes(),
                old(self).table(),
                old(chain).visited@,
                id,
                generation,
            ),
            final(chain).visited@ == if r is Ok {
                old(chain).visited@.push(id as u64)
            } else {
                old(chain).visited@
            },
            r matches Ok(o) ==> o@.id == id as u64,
    {
        if id < 0 {
            return Err(ReferenceError::NotFound);
        }
        if chain.contains(id as u64) {
            return Err(ReferenceError::CyclicReference);
        }
        match self.resolve(id as u64) {
            Err(e) => Err(e),
            Ok(o) => {
                if generation < 0 || generation as u64 != o.genid as u64 {
                    Err(ReferenceError::IdGenMismatch)
                } else {
                    chain.enter(id as u64);
                    Ok(o)
                }
            },
        }
    }
}

/// An id that the table marks free, or does not hold, is not found,
/// whatever the bytes of the file are.
pub proof fn lemma_free_is_not_found(bytes: Seq<u8>, table: Map<u64, XrefEntry>, id: u64)
    requires
        !table.contains_key(id) || table[id] is Free,
    ensures
        resolved(bytes, table, id) == Err::<ObjModel, ReferenceError>(ReferenceError::NotFound),
        forall|visited: Seq<u64>, generation: i64|
            !visited.contains(id) && id <= i64::MAX ==> #[trigger] dereferenced(
                bytes,
                table,
                visited,
                id as i64,
                generation,
            ) == Err::<ObjModel, ReferenceError>(ReferenceError::NotFound),
{
}

/// A reference to an id through which the resolution has come is a cycle,
/// whatever the id holds; so a chain of references is followed through
/// each id once at most.
pub proof fn lemma_revisit_is_cycle(
    bytes: Seq<u8>,
    table: Map<u64, XrefEntry>,
    visited: Seq<u64>,
    id: i64,
    generation: i64,
)
    requires
        id >= 0,
        visited.contains(id as u64),
    ensures
        dereferenced(bytes, table, visited, id, generation) == Err::<ObjModel, ReferenceError>(
            ReferenceError::CyclicReference,
        ),
        forall|more: Seq<u64>| #[trigger]
            dereferenced(bytes, table, visited + more, id, generation) == Err::<
                ObjModel,
                ReferenceError,
            >(ReferenceError::CyclicReference),
{
    assert forall|more: Seq<u64>| #[trigger]
        dereferenced(bytes, table, visited + more, id, generation) == Err::<
            ObjModel,
            ReferenceError,
        >(ReferenceError::CyclicReference) by {
        let i = choose|i: int| 0 <= i < visited.len() && visited[i] == id as u64;
        assert((visited + more)[i] == id as u64);
    }
}

} // verus!
