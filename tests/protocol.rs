use general::{
    Annotated, Exception, Geo, IpAddr, Mechanism, Meta, Object, Stacktrace, ThreadId, User, Value,
};

fn value_from_json(v: serde_json::Value) -> Annotated<Value> {
    match v {
        serde_json::Value::Null => Annotated::empty(),
        serde_json::Value::Bool(b) => Annotated::new(Value::Bool(b)),
        serde_json::Value::Number(n) => match (n.as_u64(), n.as_i64()) {
            (Some(u), _) => Annotated::new(Value::U64(u)),
            (None, Some(i)) => Annotated::new(Value::I64(i)),
            _ => panic!("fractional numbers are not used here"),
        },
        serde_json::Value::String(s) => Annotated::new(Value::String(s)),
        serde_json::Value::Array(items) => {
            Annotated::new(Value::Array(items.into_iter().map(value_from_json).collect()))
        }
        serde_json::Value::Object(map) => {
            let mut obj = Object::new();
            for (k, v) in map {
                obj.insert(k, value_from_json(v));
            }
            Annotated::new(Value::Object(obj))
        }
    }
}

fn value_to_json(a: Annotated<Value>) -> serde_json::Value {
    match a.0 {
        None => serde_json::Value::Null,
        Some(Value::Bool(b)) => serde_json::Value::Bool(b),
        Some(Value::I64(i)) => serde_json::Value::from(i),
        Some(Value::U64(u)) => serde_json::Value::from(u),
        Some(Value::String(s)) => serde_json::Value::String(s),
        Some(Value::Array(items)) => {
            serde_json::Value::Array(items.into_iter().map(value_to_json).collect())
        }
        Some(Value::Object(obj)) => {
            let mut map = serde_json::Map::new();
            for (k, v) in obj.into_entries() {
                map.insert(k, value_to_json(v));
            }
            serde_json::Value::Object(map)
        }
    }
}

fn parse(json: &str) -> Annotated<Value> {
    value_from_json(serde_json::from_str(json).unwrap())
}

fn pretty(v: Annotated<Value>) -> String {
    serde_json::to_string_pretty(&value_to_json(v)).unwrap()
}

fn compact(v: Annotated<Value>) -> String {
    serde_json::to_string(&value_to_json(v)).unwrap()
}

#[test]
fn test_exception_roundtrip() {
    // stack traces and mechanism are tested separately
    let json = r#"{
  "type": "mytype",
  "value": "myvalue",
  "module": "mymodule",
  "thread_id": 42,
  "other": "value"
}"#;
    let exception = Annotated::new(Exception {
        ty: Annotated::new("mytype".to_string()),
        value: Annotated::new("myvalue".to_string()),
        module: Annotated::new("mymodule".to_string()),
        stacktrace: Annotated::empty(),
        raw_stacktrace: Annotated::empty(),
        thread_id: Annotated::new(ThreadId::Int(42)),
        mechanism: Annotated::empty(),
        other: {
            let mut map = Object::new();
            map.insert(
                "other".to_string(),
                Annotated::new(Value::String("value".to_string())),
            );
            map
        },
    });

    assert_eq!(exception, Exception::from_value(parse(json)));
    assert_eq!(json, pretty(Exception::to_value(exception)));
}

#[test]
fn test_exception_default_values() {
    let json = r#"{"type":"mytype"}"#;
    let exception = Annotated::new(Exception {
        ty: Annotated::new("mytype".to_string()),
        value: Annotated::empty(),
        module: Annotated::empty(),
        stacktrace: Annotated::empty(),
        raw_stacktrace: Annotated::empty(),
        thread_id: Annotated::empty(),
        mechanism: Annotated::empty(),
        other: Default::default(),
    });

    assert_eq!(exception, Exception::from_value(parse(json)));
    assert_eq!(json, compact(Exception::to_value(exception)));
}

#[test]
fn test_exception_without_type() {
    assert_eq!(false, Exception::from_value(parse("{}")).1.has_errors());
}

#[test]
fn test_exception_invalid() {
    let exception = Annotated::new(Exception {
        ty: Annotated::from_error("value required", None),
        value: Annotated::empty(),
        module: Annotated::empty(),
        stacktrace: Annotated::empty(),
        raw_stacktrace: Annotated::empty(),
        thread_id: Annotated::empty(),
        mechanism: Annotated::empty(),
        other: Default::default(),
    });

    assert_eq!(exception, Exception::from_value(parse("{}")));
}

#[test]
fn test_geo_roundtrip() {
    let json = r#"{
  "country_code": "US",
  "city": "San Francisco",
  "region": "CA",
  "other": "value"
}"#;
    let geo = Annotated::new(Geo {
        country_code: Annotated::new("US".to_string()),
        city: Annotated::new("San Francisco".to_string()),
        region: Annotated::new("CA".to_string()),
        other: {
            let mut map = Object::new();
            map.insert(
                "other".to_string(),
                Annotated::new(Value::String("value".to_string())),
            );
            map
        },
    });

    assert_eq!(geo, Geo::from_value(parse(json)));
    assert_eq!(json, pretty(Geo::to_value(geo)));
}

#[test]
fn test_geo_default_values() {
    let json = "{}";
    let geo = Annotated::new(Geo {
        country_code: Annotated::empty(),
        city: Annotated::empty(),
        region: Annotated::empty(),
        other: Default::default(),
    });

    assert_eq!(geo, Geo::from_value(parse(json)));
    assert_eq!(json, pretty(Geo::to_value(geo)));
}

#[test]
fn test_user_roundtrip() {
    let json = r#"{
  "id": "e4e24881-8238-4539-a32b-d3c3ecd40568",
  "email": "mail@example.org",
  "ip_address": "{{auto}}",
  "username": "john_doe",
  "name": "John Doe",
  "other": "value"
}"#;
    let user = Annotated::new(User {
        id: Annotated::new("e4e24881-8238-4539-a32b-d3c3ecd40568".to_string().into()),
        email: Annotated::new("mail@example.org".to_string()),
        ip_address: Annotated::new(IpAddr::auto()),
        name: Annotated::new("John Doe".to_string()),
        username: Annotated::new("john_doe".to_string()),
        geo: Annotated::empty(),
        other: {
            let mut map = Object::new();
            map.insert(
                "other".to_string(),
                Annotated::new(Value::String("value".to_string())),
            );
            map
        },
    });

    assert_eq!(user, User::from_value(parse(json)));
    assert_eq!(json, pretty(User::to_value(user)));
}

#[test]
fn required_field_error_stays_in_the_field() {
    let parsed = Exception::from_value(parse("{}"));
    assert!(!parsed.1.has_errors());
    let exception = parsed.0.unwrap();
    assert!(exception.ty.1.has_errors());
    assert_eq!(exception.ty.1.errors, vec!["value required".to_string()]);
    assert!(!exception.value.1.has_errors());
}

#[test]
fn absent_optional_field_has_no_error() {
    let parsed = Exception::from_value(parse(r#"{"type":"t","value":null}"#));
    let exception = parsed.0.unwrap();
    assert_eq!(exception.value, Annotated::empty());
    assert!(exception.other.len() == 0);
}

#[test]
fn wrong_kinds_record_errors() {
    let parsed = Exception::from_value(parse(r#"{"type":1,"thread_id":-3,"mechanism":[]}"#));
    let exception = parsed.0.unwrap();
    assert_eq!(exception.ty.0, None);
    assert_eq!(exception.ty.1.errors, vec!["expected a string".to_string()]);
    assert_eq!(exception.thread_id.1.errors, vec!["expected a thread id".to_string()]);
    assert_eq!(exception.mechanism.1.errors, vec!["expected an object".to_string()]);
    let not_an_object = Geo::from_value(parse("3"));
    assert_eq!(not_an_object.0, None);
    assert_eq!(not_an_object.1.errors, vec!["expected an object".to_string()]);
}

#[test]
fn legacy_stacktrace_alias_is_read_and_written_canonically() {
    let json = r#"{"type":"t","sentry.interfaces.Stacktrace":{"frames":[{"function":"main"}]}}"#;
    let exception = Exception::from_value(parse(json));
    let inner = exception.0.as_ref().unwrap();
    let stacktrace: &Stacktrace = inner.stacktrace.0.as_ref().unwrap();
    assert_eq!(stacktrace.frames.0.as_ref().unwrap().len(), 1);
    assert_eq!(
        compact(Exception::to_value(exception)),
        r#"{"type":"t","stacktrace":{"frames":[{"function":"main"}]}}"#
    );
}

#[test]
fn mechanism_type_is_required() {
    let m = Mechanism::from_value(parse(r#"{"handled":true}"#)).0.unwrap();
    assert_eq!(m.handled.0, Some(true));
    assert_eq!(m.ty.1.errors, vec!["value required".to_string()]);
}

#[test]
fn lenient_string_takes_booleans() {
    let user = User::from_value(parse(r#"{"id":true}"#)).0.unwrap();
    assert_eq!(user.id.0.unwrap().0, "true");
}

#[test]
fn object_insert_replaces_in_place() {
    let mut obj: Object<Value> = Object::new();
    assert!(obj.insert("a".to_string(), Annotated::new(Value::U64(1))).is_none());
    assert!(obj.insert("b".to_string(), Annotated::new(Value::U64(2))).is_none());
    let old = obj.insert("a".to_string(), Annotated::new(Value::U64(3)));
    assert_eq!(old, Some(Annotated::new(Value::U64(1))));
    assert_eq!(obj.len(), 2);
    assert_eq!(obj.entry(0).0, "a");
    assert_eq!(*obj.entry(0).1, Annotated::new(Value::U64(3)));
    assert_eq!(obj.remove("b"), Some(Annotated::new(Value::U64(2))));
    assert_eq!(obj.remove("b"), None);
    assert_eq!(obj.len(), 1);
}

#[test]
fn meta_records_errors_in_order() {
    let mut meta = Meta::new();
    assert!(meta.is_empty());
    assert!(!meta.has_errors());
    meta.add_error("first");
    meta.add_error("second");
    assert!(meta.has_errors());
    assert_eq!(meta.errors, vec!["first".to_string(), "second".to_string()]);
    let a: Annotated<String> = Annotated::from_error("bad", Some("x".to_string()));
    assert_eq!(a.value(), Some(&"x".to_string()));
    assert!(!a.skip_serialization());
    assert!(Annotated::<String>::empty().skip_serialization());
}
