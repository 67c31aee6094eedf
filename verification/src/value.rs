//! Values: what the parser builds from tokens.

use vstd::prelude::*;
use crate::text::str_equal;
use crate::token::Real;

verus! {

/// What a value is, with its text, bytes and children as sequences.
pub enum ValueModel {
    Null,
    Bool(bool),
    Integer(i64),
    Real(Real),
    Name(Seq<char>),
    String(Seq<u8>),
    Array(Seq<ValueModel>),
    Dict(Seq<(Seq<char>, ValueModel)>),
    Reference { id: i64, generation: i64 },
}

/// What a dictionary is: its entries, each a key with its value, in the
/// order in which the keys first came.
pub type DictModel = Seq<(Seq<char>, ValueModel)>;

/// The index of the first entry of `m` at or after `from` whose key is
/// `key`; the length of `m` where there is none.
pub open spec fn dict_find(m: DictModel, key: Seq<char>, from: int) -> int
    decreases m.len() - from,
{
    if 0 <= from < m.len() {
        if m[from].0 == key {
            from
        } else {
            dict_find(m, key, from + 1)
        }
    } else {
        m.len() as int
    }
}

/// The value that `m` holds under `key`.
pub open spec fn dict_get(m: DictModel, key: Seq<char>) -> Option<ValueModel> {
    let i = dict_find(m, key, 0);
    if i < m.len() {
        Some(m[i].1)
    } else {
        None
    }
}

/// `m` with `value` under `key`: in the place of the entry that had the key,
/// or at the end where none had it.
pub open spec fn dict_insert(m: DictModel, key: Seq<char>, value: ValueModel) -> DictModel {
    let i = dict_find(m, key, 0);
    if i < m.len() {
        m.update(i, (key, value))
    } else {
        m.push((key, value))
    }
}

/// No two entries of `m` have the same key.
pub open spec fn unique_keys(m: DictModel) -> bool {
    forall|i: int, j: int| 0 <= i < j < m.len() ==> (#[trigger] m[i]).0 != (#[trigger] m[j]).0
}

/// `dict_find` gives an index at or after `from` that holds the key, before
/// which, from `from` on, no entry holds it; or the length.
pub proof fn lemma_dict_find(m: DictModel, key: Seq<char>, from: int)
    requires
        0 <= from <= m.len(),
    ensures
        from <= dict_find(m, key, from) <= m.len(),
        dict_find(m, key, from) < m.len() ==> m[dict_find(m, key, from)].0 == key,
        forall|j: int| from <= j < dict_find(m, key, from) ==> (#[trigger] m[j]).0 != key,
    decreases m.len() - from,
{
    if from < m.len() && m[from].0 != key {
        lemma_dict_find(m, key, from + 1);
    }
}

/// A value of the PDF syntax.
#[derive(Debug, PartialEq, Eq)]
pub enum Value {
    Null,
    Bool(bool),
    Integer(i64),
    Real(Real),
    Name(String),
    /// The decoded bytes of a string, which need not be text.
    String(Vec<u8>),
    Array(Vec<Value>),
    Dict(Dict),
    Reference { id: i64, generation: i64 },
}

/// One entry of a dictionary.
#[derive(Debug, PartialEq, Eq)]
pub struct DictEntry {
    pub key: String,
    pub value: Value,
}

/// A dictionary: values under names, each name once.
#[derive(Debug, PartialEq, Eq)]
pub struct Dict {
    entries: Vec<DictEntry>,
}

impl View for Value {
    type V = ValueModel;

    open spec fn view(&self) -> ValueModel
        decreases self,
    {
        match self {
            Value::Null => ValueModel::Null,
            Value::Bool(b) => ValueModel::Bool(*b),
            Value::Integer(n) => ValueModel::Integer(*n),
            Value::Real(r) => ValueModel::Real(*r),
            Value::Name(s) => ValueModel::Name(s@),
            Value::String(v) => ValueModel::String(v@),
            Value::Array(v) => ValueModel::Array(values_view(*v)),
            Value::Dict(d) => ValueModel::Dict(d.view()),
            Value::Reference { id, generation } => ValueModel::Reference {
                id: *id,
                generation: *generation,
            },
        }
    }
}

/// The views of the values of `v`, in their order.
pub open spec fn values_view(v: Vec<Value>) -> Seq<ValueModel>
    decreases v,
{
    Seq::new(
        v@.len(),
        |i: int|
            if 0 <= i < v@.len() {
                v@[i].view()
            } else {
                ValueModel::Null
            },
    )
}

impl View for Dict {
    type V = DictModel;

    closed spec fn view(&self) -> DictModel
        decreases self,
    {
        entries_view(self.entries)
    }
}

/// The entries of a dictionary as pairs of views, in their order.
pub open spec fn entries_view(entries: Vec<DictEntry>) -> DictModel
    decreases entries,
{
    Seq::new(
        entries@.len(),
        |i: int|
            if 0 <= i < entries@.len() {
                (entries@[i].key@, entries@[i].value.view())
            } else {
                (Seq::empty(), ValueModel::Null)
            },
    )
}

impl Dict {
    /// No key stands twice.
    #[verifier::type_invariant]
    spec fn well_formed(&self) -> bool {
        unique_keys(self@)
    }

    /// The empty dictionary.
    pub fn new() -> (d: Self)
        ensures
            d@ == DictModel::empty(),
    {
        let d = Dict { entries: Vec::new() };
        assert(d@ =~= DictModel::empty());
        d
    }

    /// The number of entries.
    pub fn len(&self) -> (n: usize)
        ensures
            n == self@.len(),
    {
        self.entries.len()
    }

    /// The index of the entry under `key`, or the number of entries where
    /// no entry has that key.
    fn find(&self, key: &str) -> (i: usize)
        ensures
            i == dict_find(self@, key@, 0),
            i <= self.entries@.len(),
            self@.len() == self.entries@.len(),
    {
        let mut i: usize = 0;
        while i < self.entries.len()
            invariant
                i <= self.entries@.len(),
                self@.len() == self.entries@.len(),
                dict_find(self@, key@, i as int) == dict_find(self@, key@, 0),
            decreases self.entries@.len() - i,
        {
            if str_equal(self.entries[i].key.as_str(), key) {
                return i;
            }
            i = i + 1;
        }
        i
    }

    /// Puts `val` under `key`, in the place of the value that the key had.
    pub fn push(&mut self, key: String, val: Value)
        ensures
            final(self)@ == dict_insert(old(self)@, key@, val@),
            unique_keys(final(self)@),
    {
        proof {
            use_type_invariant(&*self);
            lemma_insert_unique(self@, key@, val@);
        }
        let i = self.find(key.as_str());
        let ghost before = self@;
        let mut taken = Dict { entries: Vec::new() };
        assert(taken@ =~= DictModel::empty());
        core::mem::swap(self, &mut taken);
        let Dict { entries } = taken;
        let mut entries = entries;
        if i < entries.len() {
            entries.set(i, DictEntry { key, value: val });
        } else {
            entries.push(DictEntry { key, value: val });
        }
        proof {
            if i < before.len() {
                assert(entries_view(entries) =~= before.update(i as int, (key@, val@)));
            } else {
                assert(entries_view(entries) =~= before.push((key@, val@)));
            }
        }
        *self = Dict { entries };
    }

    /// The value under `key`.
    pub fn get(&self, key: &str) -> (r: Option<&Value>)
        ensures
            match r {
                Some(v) => dict_get(self@, key@) == Some(v@),
                None => dict_get(self@, key@) is None,
            },
            unique_keys(self@),
    {
        proof {
            use_type_invariant(self);
        }
        let i = self.find(key);
        if i < self.entries.len() {
            Some(&self.entries[i].value)
        } else {
            None
        }
    }
}

/// Putting a value under a key keeps every key single.
pub proof fn lemma_insert_unique(m: DictModel, key: Seq<char>, value: ValueModel)
    requires
        unique_keys(m),
    ensures
        unique_keys(dict_insert(m, key, value)),
{
    lemma_dict_find(m, key, 0);
    let i = dict_find(m, key, 0);
    let r = dict_insert(m, key, value);
    assert forall|a: int, b: int| 0 <= a < b < r.len() implies (#[trigger] r[a]).0 != (
    #[trigger] r[b]).0 by {
        if i < m.len() {
            assert(r[a].0 == m[a].0);
            assert(r[b].0 == m[b].0);
        } else {
            if b < m.len() {
                assert(r[a] == m[a]);
                assert(r[b] == m[b]);
            } else {
                assert(r[a] == m[a]);
                assert(m[a].0 != key);
            }
        }
    }
}

/// After a value was put under a key, the key gives that value, and every
/// other key gives what it gave before.
pub proof fn lemma_get_after_insert(
    m: DictModel,
    key: Seq<char>,
    value: ValueModel,
    other: Seq<char>,
)
    ensures
        dict_get(dict_insert(m, key, value), key) == Some(value),
        other != key ==> dict_get(dict_insert(m, key, value), other) == dict_get(m, other),
{
    let r = dict_insert(m, key, value);
    lemma_dict_find(m, key, 0);
    lemma_dict_find(r, key, 0);
    lemma_dict_find(m, other, 0);
    lemma_dict_find(r, other, 0);
    let i = dict_find(m, key, 0);
    let j = dict_find(r, key, 0);
    if i < m.len() {
        assert(r[i].0 == key);
        if j < i {
            assert(r[j].0 == m[j].0);
        }
    } else {
        assert(r[m.len() as int].0 == key);
        if j < m.len() {
            assert(r[j] == m[j]);
        }
    }
    if other != key {
        let a = dict_find(m, other, 0);
        let b = dict_find(r, other, 0);
        if a < m.len() {
            assert(m[a].0 == other);
            assert(a != i);
            assert(r[a] == m[a]);
        }
        if b < r.len() {
            assert(r[b].0 == other);
            assert(b != i);
            assert(b < m.len());
            assert(m[b] == r[b]);
        }
        if a < b && a < m.len() {
            assert(r[a].0 == other);
        }
        if b < a {
            assert(m[b].0 == other);
        }
    }
}

/// The kinds of values.
#[derive(Debug, Clone, Copy, PartialEq, Eq, Structural)]
pub enum Kind {
    Null,
    Bool,
    Integer,
    Real,
    Name,
    String,
    Array,
    Dict,
    Reference,
}

/// A value is of another kind than the one that was asked for.
#[derive(Debug, Clone, Copy, PartialEq, Eq, Structural)]
pub struct TypeMismatch {
    pub expected: Kind,
    pub found: Kind,
}

/// The kind of a value.
pub open spec fn kind_of(v: ValueModel) -> Kind {
    match v {
        ValueModel::Null => Kind::Null,
        ValueModel::Bool(_) => Kind::Bool,
        ValueModel::Integer(_) => Kind::Integer,
        ValueModel::Real(_) => Kind::Real,
        ValueModel::Name(_) => Kind::Name,
        ValueModel::String(_) => Kind::String,
        ValueModel::Array(_) => Kind::Array,
        ValueModel::Dict(_) => Kind::Dict,
        ValueModel::Reference { .. } => Kind::Reference,
    }
}

/// The mismatch of a value `v` that was asked for as `expected`.
pub open spec fn mismatch(expected: Kind, v: ValueModel) -> TypeMismatch {
    TypeMismatch { expected, found: kind_of(v) }
}

impl Value {
    /// The kind of the value.
    pub fn kind(&self) -> (k: Kind)
        ensures
            k == kind_of(self@),
    {
        match self {
            Value::Null => Kind::Null,
            Value::Bool(_) => Kind::Bool,
            Value::Integer(_) => Kind::Integer,
            Value::Real(_) => Kind::Real,
            Value::Name(_) => Kind::Name,
            Value::String(_) => Kind::String,
            Value::Array(_) => Kind::Array,
            Value::Dict(_) => Kind::Dict,
            Value::Reference { .. } => Kind::Reference,
        }
    }

    /// The integer that the value is; a mismatch where it is none.
    pub fn as_integer(&self) -> (r: Result<i64, TypeMismatch>)
        ensures
            r == (match self@ {
                ValueModel::Integer(n) => Ok(n),
                _ => Err(mismatch(Kind::Integer, self@)),
            }),
    {
        match self {
            Value::Integer(n) => Ok(*n),
            _ => Err(TypeMismatch { expected: Kind::Integer, found: self.kind() }),
        }
    }

    /// The text of the name that the value is; a mismatch where it is
    /// none.
    pub fn as_name(&self) -> (r: Result<&str, TypeMismatch>)
        ensures
            match r {
                Ok(text) => self@ == ValueModel::Name(text@),
                Err(e) => !(self@ is Name) && e == mismatch(Kind::Name, self@),
            },
    {
        match self {
            Value::Name(s) => Ok(s.as_str()),
            _ => Err(TypeMismatch { expected: Kind::Name, found: self.kind() }),
        }
    }

    /// The bytes of the string that the value is; a mismatch where it is
    /// none.
    pub fn as_string(&self) -> (r: Result<&Vec<u8>, TypeMismatch>)
        ensures
            match r {
                Ok(bytes) => self@ == ValueModel::String(bytes@),
                Err(e) => !(self@ is String) && e == mismatch(Kind::String, self@),
            },
    {
        match self {
            Value::String(bytes) => Ok(bytes),
            _ => Err(TypeMismatch { expected: Kind::String, found: self.kind() }),
        }
    }

    /// The values of the array that the value is; a mismatch where it is
    /// none.
    pub fn as_array(&self) -> (r: Result<&Vec<Value>, TypeMismatch>)
        ensures
            match r {
                Ok(items) => self@ == ValueModel::Array(values_view(*items)),
                Err(e) => !(self@ is Array) && e == mismatch(Kind::Array, self@),
            },
    {
        match self {
            Value::Array(items) => Ok(items),
            _ => Err(TypeMismatch { expected: Kind::Array, found: self.kind() }),
        }
    }

    /// The dictionary that the value is; a mismatch where it is none.
    pub fn as_dict(&self) -> (r: Result<&Dict, TypeMismatch>)
        ensures
            match r {
                Ok(d) => self@ == ValueModel::Dict(d@),
                Err(e) => !(self@ is Dict) && e == mismatch(Kind::Dict, self@),
            },
    {
        match self {
            Value::Dict(d) => Ok(d),
            _ => Err(TypeMismatch { expected: Kind::Dict, found: self.kind() }),
        }
    }

    /// The object id and generation of the reference that the value is; a
    /// mismatch where it is none.
    pub fn as_reference(&self) -> (r: Result<(i64, i64), TypeMismatch>)
        ensures
            r == (match self@ {
                ValueModel::Reference { id, generation } => Ok((id, generation)),
                _ => Err(mismatch(Kind::Reference, self@)),
            }),
    {
        match self {
            Value::Reference { id, generation } => Ok((*id, *generation)),
            _ => Err(TypeMismatch { expected: Kind::Reference, found: self.kind() }),
        }
    }
}

} // verus!
