//! Values with metadata: the errors found in a value, the remarks on what
//! redaction did to it, and its length before truncation.
use vstd::prelude::*;

use crate::types::{Remark, RemarkView};

verus! {

/// Metadata of one field.
#[derive(Clone, Debug, PartialEq, Default)]
pub struct Meta {
    /// Validation errors of this field, in the order they were found.
    pub errors: Vec<String>,
    /// Remarks on the field's string value, sorted by start offset.
    pub remarks: Vec<Remark>,
    /// The length of the value before it was truncated, if it was.
    pub original_length: Option<usize>,
}

/// The mathematical value of a `Meta`.
pub struct MetaView {
    pub errors: Seq<Seq<char>>,
    pub remarks: Seq<RemarkView>,
    pub original_length: Option<usize>,
}

impl View for Meta {
    type V = MetaView;

    open spec fn view(&self) -> MetaView {
        MetaView {
            errors: self.errors@.map_values(|e: String| e@),
            remarks: self.remarks@.map_values(|r: Remark| r@),
            original_length: self.original_length,
        }
    }
}

impl MetaView {
    /// Nothing is recorded.
    pub open spec fn is_empty(self) -> bool {
        self.errors.len() == 0 && self.remarks.len() == 0 && self.original_length is None
    }
}

impl Meta {
    /// Metadata that records nothing.
    pub fn new() -> (r: Meta)
        ensures
            r@.is_empty(),
    {
        Meta { errors: Vec::new(), remarks: Vec::new(), original_length: None }
    }

    /// Whether any error is recorded for this field itself.
    pub fn has_errors(&self) -> (r: bool)
        ensures
            r <==> self@.errors.len() > 0,
    {
        self.errors.len() > 0
    }

    /// Whether nothing at all is recorded.
    pub fn is_empty(&self) -> (r: bool)
        ensures
            r <==> self@.is_empty(),
    {
        self.errors.len() == 0 && self.remarks.len() == 0 && self.original_length.is_none()
    }

    /// Records an error after those already recorded.
    pub fn add_error(&mut self, err: &str)
        ensures
            final(self)@ == (MetaView { errors: old(self)@.errors.push(err@), ..old(self)@ }),
    {
        let ghost before = self@;
        self.errors.push(err.to_owned());
        assert(self@.errors =~= before.errors.push(err@));
    }
}

/// A value that may be absent, with its metadata.
#[derive(Clone, Debug, PartialEq)]
pub struct Annotated<T>(pub Option<T>, pub Meta);

impl<T> Annotated<T> {
    /// A present value with no metadata.
    pub fn new(value: T) -> (r: Annotated<T>)
        ensures
            r.0 == Some(value),
            r.1@.is_empty(),
    {
        Annotated(Some(value), Meta::new())
    }

    /// An absent value with no metadata.
    pub fn empty() -> (r: Annotated<T>)
        ensures
            r.0 is None,
            r.1@.is_empty(),
    {
        Annotated(None, Meta::new())
    }

    /// A value, present or not, with one error recorded.
    pub fn from_error(err: &str, value: Option<T>) -> (r: Annotated<T>)
        ensures
            r.0 == value,
            r.1@ == (MetaView { errors: seq![err@], remarks: seq![], original_length: None }),
    {
        let mut meta = Meta::new();
        meta.add_error(err);
        proof {
            assert(meta@.errors =~= seq![err@]);
            assert(meta@.remarks =~= seq![]);
        }
        Annotated(value, meta)
    }

    /// The value, if present.
    pub fn value(&self) -> (r: Option<&T>)
        ensures
            r matches Some(v) ==> self.0 == Some(*v),
            r is None <==> self.0 is None,
    {
        match &self.0 {
            Some(v) => Some(v),
            None => None,
        }
    }

    /// The metadata.
    pub fn meta(&self) -> (r: &Meta)
        ensures
            *r == self.1,
    {
        &self.1
    }

    /// Absent and without metadata: such a field is left out of the wire form.
    pub fn skip_serialization(&self) -> (r: bool)
        ensures
            r <==> self.0 is None && self.1@.is_empty(),
    {
        self.0.is_none() && self.1.is_empty()
    }
}

impl<T> Default for Annotated<T> {
    fn default() -> (r: Annotated<T>)
        ensures
            r.0 is None,
            r.1@.is_empty(),
    {
        Annotated::empty()
    }
}

/// A dynamically typed value. An absent value (`null` on the wire) is an
/// `Annotated` without a value, so there is no null variant.
#[derive(Debug, PartialEq)]
pub enum Value {
    Bool(bool),
    I64(i64),
    U64(u64),
    String(String),
    Array(Vec<Annotated<Value>>),
    Object(Object<Value>),
}

/// A mapping from keys to annotated values that keeps its entries in the
/// order they were first inserted. No key occurs twice.
#[derive(Clone, Debug, PartialEq)]
pub struct Object<T> {
    entries: Vec<(String, Annotated<T>)>,
}

/// The keys of a sequence of entries.
pub open spec fn keys_of<T>(es: Seq<(String, Annotated<T>)>) -> Seq<Seq<char>> {
    es.map_values(|e: (String, Annotated<T>)| e.0@)
}

/// The index of the entry with key `k`, or -1.
pub open spec fn index_of<T>(es: Seq<(String, Annotated<T>)>, k: Seq<char>) -> int
    decreases es.len(),
{
    if es.len() == 0 {
        -1
    } else if es.last().0@ == k {
        es.len() - 1
    } else {
        index_of(es.drop_last(), k)
    }
}

/// Where `k` is a key of `es`, `index_of` finds an entry with key `k`.
pub proof fn lemma_index_of<T>(es: Seq<(String, Annotated<T>)>, k: Seq<char>)
    ensures
        keys_of(es).contains(k) ==> 0 <= index_of(es, k) < es.len() && es[index_of(es, k)].0@ == k,
        !keys_of(es).contains(k) ==> index_of(es, k) == -1,
    decreases es.len(),
{
    if es.len() > 0 {
        let pre = es.drop_last();
        lemma_index_of(pre, k);
        if keys_of(es).contains(k) && es.last().0@ != k {
            let j = choose|j: int| 0 <= j < keys_of(es).len() && keys_of(es)[j] == k;
            assert(j < pre.len());
            assert(keys_of(pre)[j] == k);
        }
        if keys_of(pre).contains(k) {
            let j = choose|j: int| 0 <= j < keys_of(pre).len() && keys_of(pre)[j] == k;
            assert(keys_of(es)[j] == k);
        }
        if es.last().0@ == k {
            assert(keys_of(es)[es.len() - 1] == k);
        }
    }
}

impl<T> Object<T> {
    /// The entries, in order.
    pub closed spec fn entries(&self) -> Seq<(String, Annotated<T>)> {
        self.entries@
    }

    /// No key occurs twice.
    pub open spec fn wf(&self) -> bool {
        keys_of(self.entries()).no_duplicates()
    }

    /// An empty mapping.
    pub fn new() -> (r: Object<T>)
        ensures
            r.entries() == Seq::<(String, Annotated<T>)>::empty(),
            r.wf(),
    {
        let r = Object { entries: Vec::new() };
        assert(keys_of(r.entries()) =~= seq![]);
        r
    }

    /// The number of entries.
    pub fn len(&self) -> (r: usize)
        ensures
            r == self.entries().len(),
    {
        self.entries.len()
    }

    /// The entry at position `i`.
    pub fn entry(&self, i: usize) -> (r: (&String, &Annotated<T>))
        requires
            i < self.entries().len(),
        ensures
            *r.0 == self.entries()[i as int].0,
            *r.1 == self.entries()[i as int].1,
    {
        let e = &self.entries[i];
        (&e.0, &e.1)
    }

    /// The position of the entry with key `key`, if there is one.
    pub fn position(&self, key: &str) -> (r: Option<usize>)
        ensures
            r matches Some(i) ==> i < self.entries().len() && self.entries()[i as int].0@ == key@,
            r is None ==> !keys_of(self.entries()).contains(key@),
            r matches Some(i) ==> i == index_of(self.entries(), key@),
    {
        let k = key.to_owned();
        let mut i: usize = self.entries.len();
        assert(self.entries().subrange(0, i as int) =~= self.entries());
        while i > 0
            invariant
                i <= self.entries().len(),
                k@ == key@,
                index_of(self.entries(), key@) == index_of(self.entries().subrange(0, i as int), key@),
                forall|j: int| i <= j < self.entries().len() ==> self.entries()[j].0@ != key@,
            decreases i,
        {
            let ghost pre = self.entries().subrange(0, i as int);
            assert(pre.drop_last() =~= self.entries().subrange(0, i - 1));
            let found = self.entries[i - 1].0.eq(&k);
            if found {
                assert(self.entries@[i - 1].0@ == key@);
                assert(pre.last() == self.entries()[i - 1]);
                return Some(i - 1);
            }
            i -= 1;
        }
        assert(self.entries().subrange(0, 0) =~= seq![]);
        assert(!keys_of(self.entries()).contains(key@)) by {
            if keys_of(self.entries()).contains(key@) {
                let j = choose|j: int| 0 <= j < keys_of(self.entries()).len() && keys_of(self.entries())[j] == key@;
                assert(self.entries()[j].0@ == key@);
            }
        }
        None
    }

    /// Puts `value` under `key`: in place of the entry with that key, or as
    /// a new last entry. Returns the value that was replaced.
    pub fn insert(&mut self, key: String, value: Annotated<T>) -> (r: Option<Annotated<T>>)
        ensures
            old(self).wf() ==> final(self).wf(),
            keys_of(old(self).entries()).contains(key@) ==> {
                let i = index_of(old(self).entries(), key@);
                &&& final(self).entries() == old(self).entries().update(i, (key, value))
                &&& r == Some(old(self).entries()[i].1)
            },
            !keys_of(old(self).entries()).contains(key@) ==> {
                &&& final(self).entries() == old(self).entries().push((key, value))
                &&& r is None
            },
    {
        let ghost old_es = self.entries();
        match self.position(key.as_str()) {
            Some(i) => {
                let old_entry = self.entries.remove(i);
                self.entries.insert(i, (key, value));
                proof {
                    assert(self.entries() =~= old_es.update(i as int, (key, value)));
                    assert(keys_of(self.entries()) =~= keys_of(old_es));
                    assert(keys_of(old_es)[i as int] == key@);
                }
                Some(old_entry.1)
            },
            None => {
                self.entries.push((key, value));
                proof {
                    assert(keys_of(self.entries()) =~= keys_of(old_es).push(key@));
                }
                None
            },
        }
    }

    /// Takes out the entry with key `key` and returns its value; the other
    /// entries keep their order.
    pub fn remove(&mut self, key: &str) -> (r: Option<Annotated<T>>)
        ensures
            old(self).wf() ==> final(self).wf(),
            keys_of(old(self).entries()).contains(key@) ==> {
                let i = index_of(old(self).entries(), key@);
                &&& final(self).entries() == old(self).entries().remove(i)
                &&& r == Some(old(self).entries()[i].1)
            },
            !keys_of(old(self).entries()).contains(key@) ==> {
                &&& final(self).entries() == old(self).entries()
                &&& r is None
            },
    {
        let ghost old_es = self.entries();
        match self.position(key) {
            Some(i) => {
                let e = self.entries.remove(i);
                proof {
                    assert(keys_of(self.entries()) =~= keys_of(old_es).remove(i as int));
                    assert(keys_of(old_es)[i as int] == key@);
                }
                Some(e.1)
            },
            None => None,
        }
    }
}

impl<T> Object<T> {
    /// The entries, in order, taken out of the mapping.
    pub fn into_entries(self) -> (r: Vec<(String, Annotated<T>)>)
        ensures
            r@ == self.entries(),
    {
        self.entries
    }
}

impl<T> Default for Object<T> {
    fn default() -> (r: Object<T>)
        ensures
            r.entries() == Seq::<(String, Annotated<T>)>::empty(),
            r.wf(),
    {
        Object::new()
    }
}

} // verus!
