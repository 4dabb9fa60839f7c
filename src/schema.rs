//! The rules that every record shares when it is read from, or written to, a
//! dynamically typed `Value`: fields are taken out of an object by key, a
//! required field that is missing gets an error in its own metadata, and a
//! field that is absent and carries no metadata is left out when written.
use vstd::prelude::*;

use crate::annotated::{index_of, lemma_index_of, keys_of, Annotated, MetaView, Object, Value};

verus! {

/// The value under key `k`, if there is one.
pub open spec fn raw_field(es: Seq<(String, Annotated<Value>)>, k: Seq<char>) -> Option<Annotated<Value>> {
    if keys_of(es).contains(k) {
        Some(es[index_of(es, k)].1)
    } else {
        None
    }
}

/// The entries without the one under key `k`.
pub open spec fn without(es: Seq<(String, Annotated<Value>)>, k: Seq<char>) -> Seq<(String, Annotated<Value>)> {
    if keys_of(es).contains(k) {
        es.remove(index_of(es, k))
    } else {
        es
    }
}

/// `r` is what reading key `k` from `es` gives: the value there, or an
/// absent value without metadata.
pub open spec fn taken(es: Seq<(String, Annotated<Value>)>, k: Seq<char>, r: Annotated<Value>) -> bool {
    match raw_field(es, k) {
        Some(a) => r == a,
        None => r.0 is None && r.1@.is_empty(),
    }
}

/// The metadata with one more error.
pub open spec fn with_error(m: MetaView, e: Seq<char>) -> MetaView {
    MetaView { errors: m.errors.push(e), ..m }
}

/// `r` is `a`, with a "value required" error where `a` is absent and has no
/// error yet.
pub open spec fn required<T>(a: Annotated<T>, r: Annotated<T>) -> bool {
    if a.0 is None && a.1@.errors.len() == 0 {
        r.0 is None && r.1@ == with_error(a.1@, "value required"@)
    } else {
        r == a
    }
}

/// `r` has no value, and `v`'s metadata with the error `e`.
pub open spec fn rejected<T>(v: Annotated<Value>, r: Annotated<T>, e: Seq<char>) -> bool {
    r.0 is None && r.1@ == with_error(v.1@, e)
}

/// `r` is `v` read as a string.
pub open spec fn reads_string(v: Annotated<Value>, r: Annotated<String>) -> bool {
    match v.0 {
        None => r.0 is None && r.1 == v.1,
        Some(Value::String(s)) => r.0 == Some(s) && r.1 == v.1,
        Some(_) => rejected(v, r, "expected a string"@),
    }
}

/// `r` is `v` read as a boolean.
pub open spec fn reads_bool(v: Annotated<Value>, r: Annotated<bool>) -> bool {
    match v.0 {
        None => r.0 is None && r.1 == v.1,
        Some(Value::Bool(b)) => r.0 == Some(b) && r.1 == v.1,
        Some(_) => rejected(v, r, "expected a boolean"@),
    }
}

/// `r` is `v` read as an array.
pub open spec fn reads_array(v: Annotated<Value>, r: Annotated<Vec<Annotated<Value>>>) -> bool {
    match v.0 {
        None => r.0 is None && r.1 == v.1,
        Some(Value::Array(items)) => r.0 == Some(items) && r.1 == v.1,
        Some(_) => rejected(v, r, "expected an array"@),
    }
}

/// Takes the value under `key` out of `obj`.
pub fn take(obj: &mut Object<Value>, key: &str) -> (r: Annotated<Value>)
    ensures
        old(obj).wf() ==> final(obj).wf(),
        taken(old(obj).entries(), key@, r),
        final(obj).entries() == without(old(obj).entries(), key@),
{
    match obj.remove(key) {
        Some(v) => v,
        None => Annotated::empty(),
    }
}

/// Takes the value under `key` out of `obj`, or where there is none the
/// value under `alias`.
pub fn take_aliased(obj: &mut Object<Value>, key: &str, alias: &str) -> (r: Annotated<Value>)
    ensures
        old(obj).wf() ==> final(obj).wf(),
        keys_of(old(obj).entries()).contains(key@) ==> taken(old(obj).entries(), key@, r)
            && final(obj).entries() == without(old(obj).entries(), key@),
        !keys_of(old(obj).entries()).contains(key@) ==> taken(old(obj).entries(), alias@, r)
            && final(obj).entries() == without(old(obj).entries(), alias@),
{
    match obj.remove(key) {
        Some(v) => v,
        None => take(obj, alias),
    }
}

/// Adds the error "value required" to a field that is absent without error.
pub fn require<T>(a: Annotated<T>) -> (r: Annotated<T>)
    ensures
        required(a, r),
{
    if a.0.is_none() && !a.1.has_errors() {
        let Annotated(v, mut meta) = a;
        meta.add_error("value required");
        proof {
            reveal_strlit("value required");
        }
        Annotated(v, meta)
    } else {
        a
    }
}

/// Reads a string.
pub fn string_from_value(v: Annotated<Value>) -> (r: Annotated<String>)
    ensures
        reads_string(v, r),
{
    let Annotated(value, mut meta) = v;
    match value {
        None => Annotated(None, meta),
        Some(Value::String(s)) => Annotated(Some(s), meta),
        Some(_) => {
            meta.add_error("expected a string");
            Annotated(None, meta)
        },
    }
}

/// Reads a boolean.
pub fn bool_from_value(v: Annotated<Value>) -> (r: Annotated<bool>)
    ensures
        reads_bool(v, r),
{
    let Annotated(value, mut meta) = v;
    match value {
        None => Annotated(None, meta),
        Some(Value::Bool(b)) => Annotated(Some(b), meta),
        Some(_) => {
            meta.add_error("expected a boolean");
            Annotated(None, meta)
        },
    }
}

/// Reads an array.
pub fn array_from_value(v: Annotated<Value>) -> (r: Annotated<Vec<Annotated<Value>>>)
    ensures
        reads_array(v, r),
{
    let Annotated(value, mut meta) = v;
    match value {
        None => Annotated(None, meta),
        Some(Value::Array(items)) => Annotated(Some(items), meta),
        Some(_) => {
            meta.add_error("expected an array");
            Annotated(None, meta)
        },
    }
}

/// Writes a string.
pub fn string_to_value(a: Annotated<String>) -> (r: Annotated<Value>)
    ensures
        r.1 == a.1,
        match a.0 {
            Some(s) => r.0 == Some(Value::String(s)),
            None => r.0 is None,
        },
{
    let Annotated(value, meta) = a;
    match value {
        Some(s) => Annotated(Some(Value::String(s)), meta),
        None => Annotated(None, meta),
    }
}

/// Writes a boolean.
pub fn bool_to_value(a: Annotated<bool>) -> (r: Annotated<Value>)
    ensures
        r.1 == a.1,
        match a.0 {
            Some(b) => r.0 == Some(Value::Bool(b)),
            None => r.0 is None,
        },
{
    let Annotated(value, meta) = a;
    match value {
        Some(b) => Annotated(Some(Value::Bool(b)), meta),
        None => Annotated(None, meta),
    }
}

/// Writes an array.
pub fn array_to_value(a: Annotated<Vec<Annotated<Value>>>) -> (r: Annotated<Value>)
    ensures
        r.1 == a.1,
        match a.0 {
            Some(items) => r.0 == Some(Value::Array(items)),
            None => r.0 is None,
        },
{
    let Annotated(value, meta) = a;
    match value {
        Some(items) => Annotated(Some(Value::Array(items)), meta),
        None => Annotated(None, meta),
    }
}

/// The entries with their keys as character sequences.
pub open spec fn entry_views(es: Seq<(String, Annotated<Value>)>) -> Seq<(Seq<char>, Annotated<Value>)> {
    es.map_values(|e: (String, Annotated<Value>)| (e.0@, e.1))
}

/// The index of the last entry with key `k`, or -1.
pub open spec fn vindex_of(es: Seq<(Seq<char>, Annotated<Value>)>, k: Seq<char>) -> int
    decreases es.len(),
{
    if es.len() == 0 {
        -1
    } else if es.last().0 == k {
        es.len() - 1
    } else {
        vindex_of(es.drop_last(), k)
    }
}

proof fn lemma_vindex_of(es: Seq<(String, Annotated<Value>)>, k: Seq<char>)
    ensures
        vindex_of(entry_views(es), k) == index_of(es, k),
    decreases es.len(),
{
    lemma_index_of(es, k);
    if es.len() > 0 {
        assert(entry_views(es).drop_last() =~= entry_views(es.drop_last()));
        lemma_vindex_of(es.drop_last(), k);
    }
}

/// Absent and without metadata: left out when written.
pub open spec fn skipped(v: Annotated<Value>) -> bool {
    v.0 is None && v.1@.is_empty()
}

/// The entries after writing `v` under key `k`: unchanged where `v` is
/// skipped; else `v` takes the place of the value under `k`, or where there
/// is none becomes a new last entry.
pub open spec fn put_view(es: Seq<(Seq<char>, Annotated<Value>)>, k: Seq<char>, v: Annotated<Value>) -> Seq<(Seq<char>, Annotated<Value>)> {
    if skipped(v) {
        es
    } else if vindex_of(es, k) >= 0 {
        es.update(vindex_of(es, k), (k, v))
    } else {
        es.push((k, v))
    }
}

/// The entries after writing each of `items` in order.
pub open spec fn put_all(es: Seq<(Seq<char>, Annotated<Value>)>, items: Seq<(Seq<char>, Annotated<Value>)>) -> Seq<(Seq<char>, Annotated<Value>)>
    decreases items.len(),
{
    if items.len() == 0 {
        es
    } else {
        put_view(put_all(es, items.drop_last()), items.last().0, items.last().1)
    }
}

/// Writes `v` under `key` into `obj`, unless it is absent and carries no
/// metadata.
pub fn put(obj: &mut Object<Value>, key: &str, v: Annotated<Value>)
    ensures
        old(obj).wf() ==> final(obj).wf(),
        entry_views(final(obj).entries()) == put_view(entry_views(old(obj).entries()), key@, v),
{
    let ghost es = obj.entries();
    proof {
        lemma_vindex_of(es, key@);
        lemma_index_of(es, key@);
    }
    if !v.skip_serialization() {
        let ghost gv = v;
        let k = key.to_owned();
        let _ = obj.insert(k, v);
        proof {
            if keys_of(es).contains(key@) {
                assert(entry_views(obj.entries()) =~= entry_views(es).update(index_of(es, key@), (key@, gv)));
            } else {
                assert(entry_views(obj.entries()) =~= entry_views(es).push((key@, gv)));
            }
        }
    }
}

/// Writes each of `items` into `obj`, in order.
pub fn put_entries(obj: &mut Object<Value>, items: Vec<(String, Annotated<Value>)>)
    ensures
        old(obj).wf() ==> final(obj).wf(),
        entry_views(final(obj).entries()) == put_all(entry_views(old(obj).entries()), entry_views(items@)),
{
    let ghost start = entry_views(obj.entries());
    let ghost all = entry_views(items@);
    let ghost was_wf = obj.wf();
    let mut rest = items;
    let mut i: usize = 0;
    let n = rest.len();
    assert(all.take(0) =~= seq![]);
    while rest.len() > 0
        invariant
            i + rest.len() == n,
            n == all.len(),
            entry_views(rest@) == all.skip(i as int),
            entry_views(obj.entries()) == put_all(start, all.take(i as int)),
            was_wf ==> obj.wf(),
        decreases rest.len(),
    {
        let ghost before = rest@;
        let (k, v) = rest.remove(0);
        proof {
            assert(all.take(i + 1).drop_last() =~= all.take(i as int));
            assert(all[i as int] == entry_views(before)[0]);
            assert(entry_views(rest@) =~= entry_views(before).skip(1));
            assert(all.skip(i as int).skip(1) =~= all.skip(i + 1));
        }
        put(obj, k.as_str(), v);
        i += 1;
    }
    assert(all.take(i as int) =~= all);
}

} // verus!
