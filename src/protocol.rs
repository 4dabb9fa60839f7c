//! Records of the event protocol, read from and written to `Value`s by the
//! shared rules of `schema`.
use vstd::prelude::*;

use crate::annotated::{Annotated, Object, Value};
use crate::schema::{
    array_from_value, array_to_value, bool_from_value, bool_to_value, entry_views,
    put, put_all, put_entries, put_view, reads_array, reads_bool, reads_string, rejected,
    required, require, string_from_value, string_to_value, take, take_aliased, without,
};

verus! {

/// `r` is what reading key `k` from `es` gives, by the reader `reads`: an
/// absent field reads as an absent value without metadata.
pub open spec fn field_reads<T>(
    es: Seq<(String, Annotated<Value>)>,
    k: Seq<char>,
    r: Annotated<T>,
    reads: spec_fn(Annotated<Value>, Annotated<T>) -> bool,
) -> bool {
    match crate::schema::raw_field(es, k) {
        Some(a) => reads(a, r),
        None => r.0 is None && r.1@.is_empty(),
    }
}

/// Like `field_reads`, and then the field is required.
pub open spec fn required_field_reads<T>(
    es: Seq<(String, Annotated<Value>)>,
    k: Seq<char>,
    r: Annotated<T>,
    reads: spec_fn(Annotated<Value>, Annotated<T>) -> bool,
) -> bool {
    exists|a: Annotated<T>| field_reads(es, k, a, reads) && required(a, r)
}

/// `r` is the string `a` as a value.
pub open spec fn string_value(a: Annotated<String>) -> Annotated<Value> {
    Annotated(
        match a.0 {
            Some(s) => Some(Value::String(s)),
            None => None,
        },
        a.1,
    )
}

/// `r` is the boolean `a` as a value.
pub open spec fn bool_value(a: Annotated<bool>) -> Annotated<Value> {
    Annotated(
        match a.0 {
            Some(b) => Some(Value::Bool(b)),
            None => None,
        },
        a.1,
    )
}

/// `r` is the array `a` as a value.
pub open spec fn array_value(a: Annotated<Vec<Annotated<Value>>>) -> Annotated<Value> {
    Annotated(
        match a.0 {
            Some(items) => Some(Value::Array(items)),
            None => None,
        },
        a.1,
    )
}

// ---------------------------------------------------------------------------
// Thread ids, IP addresses, lenient strings
// ---------------------------------------------------------------------------

/// The identifier of a thread: a number or a name.
#[derive(Debug, PartialEq)]
pub enum ThreadId {
    Int(u64),
    String(String),
}

/// `r` is `v` read as a thread id: an unsigned or non-negative number, or a
/// string.
pub open spec fn reads_thread_id(v: Annotated<Value>, r: Annotated<ThreadId>) -> bool {
    match v.0 {
        None => r.0 is None && r.1 == v.1,
        Some(Value::U64(n)) => r.0 == Some(ThreadId::Int(n)) && r.1 == v.1,
        Some(Value::I64(n)) => if n >= 0 {
            r.0 == Some(ThreadId::Int(n as u64)) && r.1 == v.1
        } else {
            rejected(v, r, "expected a thread id"@)
        },
        Some(Value::String(s)) => r.0 == Some(ThreadId::String(s)) && r.1 == v.1,
        Some(_) => rejected(v, r, "expected a thread id"@),
    }
}

/// The thread id `a` as a value.
pub open spec fn thread_id_value(a: Annotated<ThreadId>) -> Annotated<Value> {
    Annotated(
        match a.0 {
            Some(ThreadId::Int(n)) => Some(Value::U64(n)),
            Some(ThreadId::String(s)) => Some(Value::String(s)),
            None => None,
        },
        a.1,
    )
}

impl ThreadId {
    /// Reads a thread id.
    pub fn from_value(v: Annotated<Value>) -> (r: Annotated<ThreadId>)
        ensures
            reads_thread_id(v, r),
    {
        let Annotated(value, mut meta) = v;
        match value {
            None => Annotated(None, meta),
            Some(Value::U64(n)) => Annotated(Some(ThreadId::Int(n)), meta),
            Some(Value::I64(n)) => {
                if n >= 0 {
                    Annotated(Some(ThreadId::Int(n as u64)), meta)
                } else {
                    meta.add_error("expected a thread id");
                    Annotated(None, meta)
                }
            },
            Some(Value::String(s)) => Annotated(Some(ThreadId::String(s)), meta),
            Some(_) => {
                meta.add_error("expected a thread id");
                Annotated(None, meta)
            },
        }
    }

    /// Writes a thread id.
    pub fn to_value(a: Annotated<ThreadId>) -> (r: Annotated<Value>)
        ensures
            r == thread_id_value(a),
    {
        let Annotated(value, meta) = a;
        match value {
            Some(ThreadId::Int(n)) => Annotated(Some(Value::U64(n)), meta),
            Some(ThreadId::String(s)) => Annotated(Some(Value::String(s)), meta),
            None => Annotated(None, meta),
        }
    }
}

/// An IP address as text, or the placeholder that asks for the address the
/// event came from.
#[derive(Debug, PartialEq)]
pub struct IpAddr(pub String);

/// `r` is `v` read as an IP address: any string.
pub open spec fn reads_ip(v: Annotated<Value>, r: Annotated<IpAddr>) -> bool {
    match v.0 {
        None => r.0 is None && r.1 == v.1,
        Some(Value::String(s)) => r.0 == Some(IpAddr(s)) && r.1 == v.1,
        Some(_) => rejected(v, r, "expected an ip address"@),
    }
}

/// The IP address `a` as a value.
pub open spec fn ip_value(a: Annotated<IpAddr>) -> Annotated<Value> {
    Annotated(
        match a.0 {
            Some(ip) => Some(Value::String(ip.0)),
            None => None,
        },
        a.1,
    )
}

impl IpAddr {
    /// The placeholder `{{auto}}`.
    pub fn auto() -> (r: IpAddr)
        ensures
            r.0@ == "{{auto}}"@,
    {
        IpAddr("{{auto}}".to_owned())
    }

    /// Reads an IP address from a string.
    pub fn from_value(v: Annotated<Value>) -> (r: Annotated<IpAddr>)
        ensures
            reads_ip(v, r),
    {
        let Annotated(value, mut meta) = v;
        match value {
            None => Annotated(None, meta),
            Some(Value::String(s)) => Annotated(Some(IpAddr(s)), meta),
            Some(_) => {
                meta.add_error("expected an ip address");
                Annotated(None, meta)
            },
        }
    }

    /// Writes an IP address as a string.
    pub fn to_value(a: Annotated<IpAddr>) -> (r: Annotated<Value>)
        ensures
            r == ip_value(a),
    {
        let Annotated(value, meta) = a;
        match value {
            Some(ip) => Annotated(Some(Value::String(ip.0)), meta),
            None => Annotated(None, meta),
        }
    }
}

/// A string field that also takes a boolean on input, as its text.
#[derive(Debug, PartialEq)]
pub struct JsonLenientString(pub String);

impl From<String> for JsonLenientString {
    fn from(s: String) -> (r: JsonLenientString) {
        JsonLenientString(s)
    }
}

impl vstd::std_specs::convert::FromSpecImpl<String> for JsonLenientString {
    open spec fn obeys_from_spec() -> bool {
        true
    }

    open spec fn from_spec(s: String) -> JsonLenientString {
        JsonLenientString(s)
    }
}

/// `r` is `v` read as a lenient string: a string, or a boolean as its text.
pub open spec fn reads_lenient(v: Annotated<Value>, r: Annotated<JsonLenientString>) -> bool {
    match v.0 {
        None => r.0 is None && r.1 == v.1,
        Some(Value::String(s)) => r.0 == Some(JsonLenientString(s)) && r.1 == v.1,
        Some(Value::Bool(b)) => r.0 matches Some(t) && r.1 == v.1 && t.0@ == (if b {
            "true"@
        } else {
            "false"@
        }),
        Some(_) => rejected(v, r, "expected a string"@),
    }
}

/// The lenient string `a` as a value.
pub open spec fn lenient_value(a: Annotated<JsonLenientString>) -> Annotated<Value> {
    Annotated(
        match a.0 {
            Some(t) => Some(Value::String(t.0)),
            None => None,
        },
        a.1,
    )
}

impl JsonLenientString {
    /// Reads a string, or a boolean as `true` or `false`.
    pub fn from_value(v: Annotated<Value>) -> (r: Annotated<JsonLenientString>)
        ensures
            reads_lenient(v, r),
    {
        let Annotated(value, mut meta) = v;
        match value {
            None => Annotated(None, meta),
            Some(Value::String(s)) => Annotated(Some(JsonLenientString(s)), meta),
            Some(Value::Bool(b)) => {
                let text = if b {
                    "true".to_owned()
                } else {
                    "false".to_owned()
                };
                Annotated(Some(JsonLenientString(text)), meta)
            },
            Some(_) => {
                meta.add_error("expected a string");
                Annotated(None, meta)
            },
        }
    }

    /// Writes the text as a string.
    pub fn to_value(a: Annotated<JsonLenientString>) -> (r: Annotated<Value>)
        ensures
            r == lenient_value(a),
    {
        let Annotated(value, meta) = a;
        match value {
            Some(t) => Annotated(Some(Value::String(t.0)), meta),
            None => Annotated(None, meta),
        }
    }
}

/// Geographical location of the end user or device.
#[derive(Debug, PartialEq, Default)]
pub struct Geo {
    /// Two-letter country code (ISO 3166-1 alpha-2).
    pub country_code: Annotated<String>,
    /// Human readable city name.
    pub city: Annotated<String>,
    /// Human readable region name or code.
    pub region: Annotated<String>,
    /// Additional arbitrary fields for forwards compatibility.
    pub other: Object<Value>,
}

/// `g` holds the fields read from the entries `es`; what no field takes
/// stays in `other`.
pub open spec fn geo_read(es: Seq<(String, Annotated<Value>)>, g: Geo) -> bool {
    let es1 = without(es, "country_code"@);
    let es2 = without(es1, "city"@);
    let es3 = without(es2, "region"@);
    &&& field_reads(es, "country_code"@, g.country_code, |v: Annotated<Value>, r: Annotated<String>| reads_string(v, r))
    &&& field_reads(es1, "city"@, g.city, |v: Annotated<Value>, r: Annotated<String>| reads_string(v, r))
    &&& field_reads(es2, "region"@, g.region, |v: Annotated<Value>, r: Annotated<String>| reads_string(v, r))
    &&& g.other.entries() == es3
}

/// `r` is `v` read as a `Geo`.
pub open spec fn reads_geo(v: Annotated<Value>, r: Annotated<Geo>) -> bool {
    match v.0 {
        None => r.0 is None && r.1 == v.1,
        Some(Value::Object(o)) => r.1 == v.1 && (r.0 matches Some(g) && geo_read(o.entries(), g)),
        Some(_) => rejected(v, r, "expected an object"@),
    }
}

/// The known fields of `g`, in the order they are written.
pub open spec fn geo_fields(g: Geo) -> Seq<(Seq<char>, Annotated<Value>)> {
    let f1 = put_view(seq![], "country_code"@, string_value(g.country_code));
    let f2 = put_view(f1, "city"@, string_value(g.city));
    put_view(f2, "region"@, string_value(g.region))
}

/// `r` is `a` written as a value: its known fields, then its catch-all
/// entries.
pub open spec fn writes_geo(a: Annotated<Geo>, r: Annotated<Value>) -> bool {
    r.1 == a.1 && match a.0 {
        None => r.0 is None,
        Some(g) => r.0 matches Some(Value::Object(o)) && entry_views(o.entries()) == put_all(
            geo_fields(g),
            entry_views(g.other.entries()),
        ),
    }
}

impl Geo {
    /// Reads a `Geo` from an object.
    pub fn from_value(v: Annotated<Value>) -> (r: Annotated<Geo>)
        ensures
            reads_geo(v, r),
    {
        let Annotated(value, mut meta) = v;
        match value {
            None => Annotated(None, meta),
            Some(Value::Object(mut obj)) => {
                let country_code = string_from_value(take(&mut obj, "country_code"));
                let city = string_from_value(take(&mut obj, "city"));
                let region = string_from_value(take(&mut obj, "region"));
                Annotated(Some(Geo { country_code, city, region, other: obj }), meta)
            },
            Some(_) => {
                meta.add_error("expected an object");
                Annotated(None, meta)
            },
        }
    }

    /// Writes a `Geo` as an object.
    pub fn to_value(a: Annotated<Geo>) -> (r: Annotated<Value>)
        ensures
            writes_geo(a, r),
    {
        let Annotated(value, meta) = a;
        match value {
            None => Annotated(None, meta),
            Some(g) => {
                let ghost gg = g;
                let mut obj = Object::new();
                proof {
                    assert(entry_views(obj.entries()) =~= seq![]);
                }
                put(&mut obj, "country_code", string_to_value(g.country_code));
                put(&mut obj, "city", string_to_value(g.city));
                put(&mut obj, "region", string_to_value(g.region));
                put_entries(&mut obj, g.other.into_entries());
                Annotated(Some(Value::Object(obj)), meta)
            },
        }
    }
}

/// A stack trace: its frames, kept as values, and what else it holds.
#[derive(Debug, PartialEq, Default)]
pub struct Stacktrace {
    /// The frames, innermost last.
    pub frames: Annotated<Vec<Annotated<Value>>>,
    /// Additional arbitrary fields for forwards compatibility.
    pub other: Object<Value>,
}

/// `r` is `v` read as a `Stacktrace`.
pub open spec fn reads_stacktrace(v: Annotated<Value>, r: Annotated<Stacktrace>) -> bool {
    match v.0 {
        None => r.0 is None && r.1 == v.1,
        Some(Value::Object(o)) => r.1 == v.1 && (r.0 matches Some(st) && {
            let es = o.entries();
            &&& field_reads(es, "frames"@, st.frames, |v: Annotated<Value>, r: Annotated<Vec<Annotated<Value>>>| reads_array(v, r))
            &&& st.other.entries() == without(es, "frames"@)
        }),
        Some(_) => rejected(v, r, "expected an object"@),
    }
}

/// `r` is `a` written as a value.
pub open spec fn writes_stacktrace(a: Annotated<Stacktrace>, r: Annotated<Value>) -> bool {
    r.1 == a.1 && match a.0 {
        None => r.0 is None,
        Some(st) => r.0 matches Some(Value::Object(o)) && entry_views(o.entries()) == put_all(
            put_view(seq![], "frames"@, array_value(st.frames)),
            entry_views(st.other.entries()),
        ),
    }
}

impl Stacktrace {
    /// Reads a `Stacktrace` from an object.
    pub fn from_value(v: Annotated<Value>) -> (r: Annotated<Stacktrace>)
        ensures
            reads_stacktrace(v, r),
    {
        let Annotated(value, mut meta) = v;
        match value {
            None => Annotated(None, meta),
            Some(Value::Object(mut obj)) => {
                let frames = array_from_value(take(&mut obj, "frames"));
                Annotated(Some(Stacktrace { frames, other: obj }), meta)
            },
            Some(_) => {
                meta.add_error("expected an object");
                Annotated(None, meta)
            },
        }
    }

    /// Writes a `Stacktrace` as an object.
    pub fn to_value(a: Annotated<Stacktrace>) -> (r: Annotated<Value>)
        ensures
            writes_stacktrace(a, r),
    {
        let Annotated(value, meta) = a;
        match value {
            None => Annotated(None, meta),
            Some(st) => {
                let mut obj = Object::new();
                proof {
                    assert(entry_views(obj.entries()) =~= seq![]);
                }
                put(&mut obj, "frames", array_to_value(st.frames));
                put_entries(&mut obj, st.other.into_entries());
                Annotated(Some(Value::Object(obj)), meta)
            },
        }
    }
}

/// How an exception was raised and whether it was handled.
#[derive(Debug, PartialEq, Default)]
pub struct Mechanism {
    /// The kind of mechanism (required).
    pub ty: Annotated<String>,
    /// Whether the exception was handled.
    pub handled: Annotated<bool>,
    /// Additional arbitrary fields for forwards compatibility.
    pub other: Object<Value>,
}

/// `r` is `v` read as a `Mechanism`.
pub open spec fn reads_mechanism(v: Annotated<Value>, r: Annotated<Mechanism>) -> bool {
    match v.0 {
        None => r.0 is None && r.1 == v.1,
        Some(Value::Object(o)) => r.1 == v.1 && (r.0 matches Some(m) && {
            let es = o.entries();
            let es1 = without(es, "type"@);
            &&& required_field_reads(es, "type"@, m.ty, |v: Annotated<Value>, r: Annotated<String>| reads_string(v, r))
            &&& field_reads(es1, "handled"@, m.handled, |v: Annotated<Value>, r: Annotated<bool>| reads_bool(v, r))
            &&& m.other.entries() == without(es1, "handled"@)
        }),
        Some(_) => rejected(v, r, "expected an object"@),
    }
}

/// `r` is `a` written as a value.
pub open spec fn writes_mechanism(a: Annotated<Mechanism>, r: Annotated<Value>) -> bool {
    r.1 == a.1 && match a.0 {
        None => r.0 is None,
        Some(m) => r.0 matches Some(Value::Object(o)) && entry_views(o.entries()) == put_all(
            put_view(put_view(seq![], "type"@, string_value(m.ty)), "handled"@, bool_value(m.handled)),
            entry_views(m.other.entries()),
        ),
    }
}

impl Mechanism {
    /// Reads a `Mechanism` from an object.
    pub fn from_value(v: Annotated<Value>) -> (r: Annotated<Mechanism>)
        ensures
            reads_mechanism(v, r),
    {
        let Annotated(value, mut meta) = v;
        match value {
            None => Annotated(None, meta),
            Some(Value::Object(mut obj)) => {
                let ty_read = string_from_value(take(&mut obj, "type"));
                let ghost t = ty_read;
                let ty = require(ty_read);
                let handled = bool_from_value(take(&mut obj, "handled"));
                let r = Annotated(Some(Mechanism { ty, handled, other: obj }), meta);
                assert(field_reads(
                    v.0->Some_0->Object_0.entries(),
                    "type"@,
                    t,
                    |v: Annotated<Value>, r: Annotated<String>| reads_string(v, r),
                ));
                r
            },
            Some(_) => {
                meta.add_error("expected an object");
                Annotated(None, meta)
            },
        }
    }

    /// Writes a `Mechanism` as an object.
    pub fn to_value(a: Annotated<Mechanism>) -> (r: Annotated<Value>)
        ensures
            writes_mechanism(a, r),
    {
        let Annotated(value, meta) = a;
        match value {
            None => Annotated(None, meta),
            Some(m) => {
                let mut obj = Object::new();
                proof {
                    assert(entry_views(obj.entries()) =~= seq![]);
                }
                put(&mut obj, "type", string_to_value(m.ty));
                put(&mut obj, "handled", bool_to_value(m.handled));
                put_entries(&mut obj, m.other.into_entries());
                Annotated(Some(Value::Object(obj)), meta)
            },
        }
    }
}

/// An exception: its type, its message, where it was raised, and how.
#[derive(Debug, PartialEq, Default)]
pub struct Exception {
    /// Exception type (required); written under the key `type`.
    pub ty: Annotated<String>,
    /// Human readable display value.
    pub value: Annotated<String>,
    /// Module name of this exception.
    pub module: Annotated<String>,
    /// Stack trace containing frames of this exception; read from the key
    /// `sentry.interfaces.Stacktrace` where `stacktrace` is missing.
    pub stacktrace: Annotated<Stacktrace>,
    /// Optional unprocessed stack trace.
    pub raw_stacktrace: Annotated<Stacktrace>,
    /// Identifier of the thread this exception occurred in.
    pub thread_id: Annotated<ThreadId>,
    /// Mechanism by which this exception was generated and handled.
    pub mechanism: Annotated<Mechanism>,
    /// Additional arbitrary fields for forwards compatibility.
    pub other: Object<Value>,
}

/// The key that the stack trace of an exception is read from.
pub open spec fn stacktrace_key(es: Seq<(String, Annotated<Value>)>) -> Seq<char> {
    if crate::annotated::keys_of(es).contains("stacktrace"@) {
        "stacktrace"@
    } else {
        "sentry.interfaces.Stacktrace"@
    }
}

/// `e` holds the fields read from the entries `es`, each from what the
/// fields before it left; what no field takes stays in `other`.
pub open spec fn exception_read(es: Seq<(String, Annotated<Value>)>, e: Exception) -> bool {
    let es1 = without(es, "type"@);
    let es2 = without(es1, "value"@);
    let es3 = without(es2, "module"@);
    let es4 = without(es3, stacktrace_key(es3));
    let es5 = without(es4, "raw_stacktrace"@);
    let es6 = without(es5, "thread_id"@);
    &&& required_field_reads(es, "type"@, e.ty, |v: Annotated<Value>, r: Annotated<String>| reads_string(v, r))
    &&& field_reads(es1, "value"@, e.value, |v: Annotated<Value>, r: Annotated<String>| reads_string(v, r))
    &&& field_reads(es2, "module"@, e.module, |v: Annotated<Value>, r: Annotated<String>| reads_string(v, r))
    &&& field_reads(es3, stacktrace_key(es3), e.stacktrace, |v: Annotated<Value>, r: Annotated<Stacktrace>| reads_stacktrace(v, r))
    &&& field_reads(es4, "raw_stacktrace"@, e.raw_stacktrace, |v: Annotated<Value>, r: Annotated<Stacktrace>| reads_stacktrace(v, r))
    &&& field_reads(es5, "thread_id"@, e.thread_id, |v: Annotated<Value>, r: Annotated<ThreadId>| reads_thread_id(v, r))
    &&& field_reads(es6, "mechanism"@, e.mechanism, |v: Annotated<Value>, r: Annotated<Mechanism>| reads_mechanism(v, r))
    &&& e.other.entries() == without(es6, "mechanism"@)
}

/// `r` is `v` read as an `Exception`.
pub open spec fn reads_exception(v: Annotated<Value>, r: Annotated<Exception>) -> bool {
    match v.0 {
        None => r.0 is None && r.1 == v.1,
        Some(Value::Object(o)) => r.1 == v.1 && (r.0 matches Some(e) && exception_read(o.entries(), e)),
        Some(_) => rejected(v, r, "expected an object"@),
    }
}

/// The known fields of `e`, in the order they are written, where its stack
/// traces and mechanism are written as `st`, `raw` and `mech`.
pub open spec fn exception_fields(
    e: Exception,
    st: Annotated<Value>,
    raw: Annotated<Value>,
    mech: Annotated<Value>,
) -> Seq<(Seq<char>, Annotated<Value>)> {
    let f1 = put_view(seq![], "type"@, string_value(e.ty));
    let f2 = put_view(f1, "value"@, string_value(e.value));
    let f3 = put_view(f2, "module"@, string_value(e.module));
    let f4 = put_view(f3, "stacktrace"@, st);
    let f5 = put_view(f4, "raw_stacktrace"@, raw);
    let f6 = put_view(f5, "thread_id"@, thread_id_value(e.thread_id));
    put_view(f6, "mechanism"@, mech)
}

/// `r` is `a` written as a value: its known fields, then its catch-all
/// entries.
pub open spec fn writes_exception(a: Annotated<Exception>, r: Annotated<Value>) -> bool {
    r.1 == a.1 && match a.0 {
        None => r.0 is None,
        Some(e) => exists|st: Annotated<Value>, raw: Annotated<Value>, mech: Annotated<Value>|
            writes_stacktrace(e.stacktrace, st) && writes_stacktrace(e.raw_stacktrace, raw)
                && writes_mechanism(e.mechanism, mech) && (r.0 matches Some(Value::Object(o))
                && entry_views(o.entries()) == put_all(
                exception_fields(e, st, raw, mech),
                entry_views(e.other.entries()),
            )),
    }
}

impl Exception {
    /// Reads an `Exception` from an object.
    pub fn from_value(v: Annotated<Value>) -> (r: Annotated<Exception>)
        ensures
            reads_exception(v, r),
    {
        let Annotated(value, mut meta) = v;
        match value {
            None => Annotated(None, meta),
            Some(Value::Object(mut obj)) => {
                let ty_read = string_from_value(take(&mut obj, "type"));
                let ghost t = ty_read;
                let ty = require(ty_read);
                let value = string_from_value(take(&mut obj, "value"));
                let module = string_from_value(take(&mut obj, "module"));
                let stacktrace = Stacktrace::from_value(
                    take_aliased(&mut obj, "stacktrace", "sentry.interfaces.Stacktrace"),
                );
                let raw_stacktrace = Stacktrace::from_value(take(&mut obj, "raw_stacktrace"));
                let thread_id = ThreadId::from_value(take(&mut obj, "thread_id"));
                let mechanism = Mechanism::from_value(take(&mut obj, "mechanism"));
                let r = Annotated(
                    Some(
                        Exception {
                            ty,
                            value,
                            module,
                            stacktrace,
                            raw_stacktrace,
                            thread_id,
                            mechanism,
                            other: obj,
                        },
                    ),
                    meta,
                );
                assert(field_reads(
                    v.0->Some_0->Object_0.entries(),
                    "type"@,
                    t,
                    |v: Annotated<Value>, r: Annotated<String>| reads_string(v, r),
                ));
                r
            },
            Some(_) => {
                meta.add_error("expected an object");
                Annotated(None, meta)
            },
        }
    }

    /// Writes an `Exception` as an object.
    pub fn to_value(a: Annotated<Exception>) -> (r: Annotated<Value>)
        ensures
            writes_exception(a, r),
    {
        let Annotated(value, meta) = a;
        match value {
            None => Annotated(None, meta),
            Some(e) => {
                let ghost ge = e;
                let mut obj = Object::new();
                proof {
                    assert(entry_views(obj.entries()) =~= seq![]);
                }
                put(&mut obj, "type", string_to_value(e.ty));
                put(&mut obj, "value", string_to_value(e.value));
                put(&mut obj, "module", string_to_value(e.module));
                let st = Stacktrace::to_value(e.stacktrace);
                let ghost gst = st;
                put(&mut obj, "stacktrace", st);
                let raw = Stacktrace::to_value(e.raw_stacktrace);
                let ghost graw = raw;
                put(&mut obj, "raw_stacktrace", raw);
                put(&mut obj, "thread_id", ThreadId::to_value(e.thread_id));
                let mech = Mechanism::to_value(e.mechanism);
                let ghost gmech = mech;
                put(&mut obj, "mechanism", mech);
                put_entries(&mut obj, e.other.into_entries());
                let r = Annotated(Some(Value::Object(obj)), meta);
                assert(writes_stacktrace(ge.stacktrace, gst) && writes_stacktrace(ge.raw_stacktrace, graw)
                    && writes_mechanism(ge.mechanism, gmech));
                r
            },
        }
    }
}

/// Information about the user who triggered an event.
#[derive(Debug, PartialEq, Default)]
pub struct User {
    /// Unique identifier of the user.
    pub id: Annotated<JsonLenientString>,
    /// Email address of the user.
    pub email: Annotated<String>,
    /// Remote IP address of the user.
    pub ip_address: Annotated<IpAddr>,
    /// Username of the user.
    pub username: Annotated<String>,
    /// Human readable name of the user.
    pub name: Annotated<String>,
    /// Approximate geographical location of the end user or device.
    pub geo: Annotated<Geo>,
    /// Additional arbitrary fields for forwards compatibility.
    pub other: Object<Value>,
}

/// `u` holds the fields read from the entries `es`, each from what the
/// fields before it left; what no field takes stays in `other`.
pub open spec fn user_read(es: Seq<(String, Annotated<Value>)>, u: User) -> bool {
    let es1 = without(es, "id"@);
    let es2 = without(es1, "email"@);
    let es3 = without(es2, "ip_address"@);
    let es4 = without(es3, "username"@);
    let es5 = without(es4, "name"@);
    &&& field_reads(es, "id"@, u.id, |v: Annotated<Value>, r: Annotated<JsonLenientString>| reads_lenient(v, r))
    &&& field_reads(es1, "email"@, u.email, |v: Annotated<Value>, r: Annotated<String>| reads_string(v, r))
    &&& field_reads(es2, "ip_address"@, u.ip_address, |v: Annotated<Value>, r: Annotated<IpAddr>| reads_ip(v, r))
    &&& field_reads(es3, "username"@, u.username, |v: Annotated<Value>, r: Annotated<String>| reads_string(v, r))
    &&& field_reads(es4, "name"@, u.name, |v: Annotated<Value>, r: Annotated<String>| reads_string(v, r))
    &&& field_reads(es5, "geo"@, u.geo, |v: Annotated<Value>, r: Annotated<Geo>| reads_geo(v, r))
    &&& u.other.entries() == without(es5, "geo"@)
}

/// `r` is `v` read as a `User`.
pub open spec fn reads_user(v: Annotated<Value>, r: Annotated<User>) -> bool {
    match v.0 {
        None => r.0 is None && r.1 == v.1,
        Some(Value::Object(o)) => r.1 == v.1 && (r.0 matches Some(u) && user_read(o.entries(), u)),
        Some(_) => rejected(v, r, "expected an object"@),
    }
}

/// The known fields of `u`, in the order they are written, where its
/// location is written as `geo`.
pub open spec fn user_fields(u: User, geo: Annotated<Value>) -> Seq<(Seq<char>, Annotated<Value>)> {
    let f1 = put_view(seq![], "id"@, lenient_value(u.id));
    let f2 = put_view(f1, "email"@, string_value(u.email));
    let f3 = put_view(f2, "ip_address"@, ip_value(u.ip_address));
    let f4 = put_view(f3, "username"@, string_value(u.username));
    let f5 = put_view(f4, "name"@, string_value(u.name));
    put_view(f5, "geo"@, geo)
}

/// `r` is `a` written as a value: its known fields, then its catch-all
/// entries.
pub open spec fn writes_user(a: Annotated<User>, r: Annotated<Value>) -> bool {
    r.1 == a.1 && match a.0 {
        None => r.0 is None,
        Some(u) => exists|geo: Annotated<Value>|
            writes_geo(u.geo, geo) && (r.0 matches Some(Value::Object(o))
                && entry_views(o.entries()) == put_all(user_fields(u, geo), entry_views(u.other.entries()))),
    }
}

impl User {
    /// Reads a `User` from an object.
    pub fn from_value(v: Annotated<Value>) -> (r: Annotated<User>)
        ensures
            reads_user(v, r),
    {
        let Annotated(value, mut meta) = v;
        match value {
            None => Annotated(None, meta),
            Some(Value::Object(mut obj)) => {
                let id = JsonLenientString::from_value(take(&mut obj, "id"));
                let email = string_from_value(take(&mut obj, "email"));
                let ip_address = IpAddr::from_value(take(&mut obj, "ip_address"));
                let username = string_from_value(take(&mut obj, "username"));
                let name = string_from_value(take(&mut obj, "name"));
                let geo = Geo::from_value(take(&mut obj, "geo"));
                Annotated(
                    Some(User { id, email, ip_address, username, name, geo, other: obj }),
                    meta,
                )
            },
            Some(_) => {
                meta.add_error("expected an object");
                Annotated(None, meta)
            },
        }
    }

    /// Writes a `User` as an object.
    pub fn to_value(a: Annotated<User>) -> (r: Annotated<Value>)
        ensures
            writes_user(a, r),
    {
        let Annotated(value, meta) = a;
        match value {
            None => Annotated(None, meta),
            Some(u) => {
                let ghost gu = u;
                let mut obj = Object::new();
                proof {
                    assert(entry_views(obj.entries()) =~= seq![]);
                }
                put(&mut obj, "id", JsonLenientString::to_value(u.id));
                put(&mut obj, "email", string_to_value(u.email));
                put(&mut obj, "ip_address", IpAddr::to_value(u.ip_address));
                put(&mut obj, "username", string_to_value(u.username));
                put(&mut obj, "name", string_to_value(u.name));
                let geo = Geo::to_value(u.geo);
                let ghost ggeo = geo;
                put(&mut obj, "geo", geo);
                put_entries(&mut obj, u.other.into_entries());
                let r = Annotated(Some(Value::Object(obj)), meta);
                assert(writes_geo(gu.geo, ggeo));
                r
            },
        }
    }
}

} // verus!
