use property_commands::command::AddCollectionItemCommand;
use property_commands::command::EntityHandle;
use property_commands::command::RemoveCollectionItemCommand;
use property_commands::command::SetPropertyCommand;
use property_commands::log::ErrorLog;
use property_commands::path::PropertyPath;
use property_commands::reflect::ErrorKind;
use property_commands::value::FieldEntry;
use property_commands::value::Kind;
use property_commands::value::Value;

fn sample() -> Value {
    Value::Record {
        fields: vec![
            FieldEntry { name: "name".to_string(), value: Value::Str("hull".to_string()) },
            FieldEntry {
                name: "parts".to_string(),
                value: Value::List {
                    elem: Kind::Int,
                    items: vec![Value::Int(10), Value::Int(20), Value::Int(30)],
                },
            },
        ],
    }
}

fn path(s: &str) -> PropertyPath {
    PropertyPath::parse(s).unwrap()
}

#[test]
fn resolve_walks_records_and_lists() {
    let v = sample();
    assert_eq!(v.resolve(&path("name")), Some(&Value::Str("hull".to_string())));
    assert_eq!(v.resolve(&path("parts[1]")), Some(&Value::Int(20)));
    assert_eq!(v.resolve(&path("parts[3]")), None);
    assert_eq!(v.resolve(&path("name.x")), None);
    assert_eq!(v.resolve(&path("other")), None);
}

#[test]
fn replace_returns_old_value() {
    let mut v = sample();
    let old = v.replace(&path("parts[2]"), Value::Int(99)).unwrap();
    assert_eq!(old, Value::Int(30));
    assert_eq!(v.resolve(&path("parts[2]")), Some(&Value::Int(99)));
}

#[test]
fn replace_wrong_kind_hands_value_back() {
    let mut v = sample();
    let err = v.replace(&path("name"), Value::Int(1)).unwrap_err();
    assert_eq!(err.kind, ErrorKind::TypeMismatch);
    assert_eq!(err.returned, Some(Value::Int(1)));
    assert_eq!(v, sample());
}

#[test]
fn replace_whole_list_needs_same_element_kind() {
    let mut v = sample();
    let err = v
        .replace(&path("parts"), Value::List { elem: Kind::Str, items: vec![] })
        .unwrap_err();
    assert_eq!(err.kind, ErrorKind::TypeMismatch);
    let old = v
        .replace(&path("parts"), Value::List { elem: Kind::Int, items: vec![Value::Int(7)] })
        .unwrap();
    assert_eq!(
        old,
        Value::List {
            elem: Kind::Int,
            items: vec![Value::Int(10), Value::Int(20), Value::Int(30)],
        }
    );
}

#[test]
fn push_pop_insert_remove_round_trip() {
    let mut v = sample();
    let p = path("parts");

    v.collection_push(&p, Value::Int(40)).unwrap();
    assert_eq!(v.resolve(&path("parts[3]")), Some(&Value::Int(40)));

    let popped = v.collection_pop(&p).unwrap();
    assert_eq!(popped, Value::Int(40));

    let removed = v.collection_remove(&p, 0).unwrap();
    assert_eq!(removed, Value::Int(10));
    assert_eq!(v.resolve(&path("parts[0]")), Some(&Value::Int(20)));

    v.collection_insert(&p, 0, Value::Int(10)).unwrap();
    assert_eq!(v, sample());
}

#[test]
fn collection_ops_report_each_failure() {
    let mut v = sample();

    let err = v.collection_push(&path("name"), Value::Int(1)).unwrap_err();
    assert_eq!(err.kind, ErrorKind::NotACollection);
    assert_eq!(err.returned, Some(Value::Int(1)));

    let err = v.collection_push(&path("parts"), Value::Bool(true)).unwrap_err();
    assert_eq!(err.kind, ErrorKind::TypeMismatch);
    assert_eq!(err.returned, Some(Value::Bool(true)));

    let err = v.collection_remove(&path("parts"), 9).unwrap_err();
    assert_eq!(err.kind, ErrorKind::CollectionUnderflow);
    assert_eq!(err.returned, None);

    let err = v.collection_insert(&path("parts"), 9, Value::Int(1)).unwrap_err();
    assert_eq!(err.kind, ErrorKind::CollectionUnderflow);
    assert_eq!(err.returned, Some(Value::Int(1)));

    let err = v.collection_pop(&path("missing")).unwrap_err();
    assert_eq!(err.kind, ErrorKind::NoSuchProperty);

    assert_eq!(v, sample());

    let mut empty = Value::List { elem: Kind::Int, items: vec![] };
    let err = empty.collection_pop(&path("x")).unwrap_err();
    assert_eq!(err.kind, ErrorKind::NoSuchProperty);
}

#[test]
fn kinds_and_compatibility() {
    assert_eq!(Value::Bool(true).kind(), Kind::Bool);
    assert_eq!(Value::Int(1).kind(), Kind::Int);
    assert_eq!(Value::Str(String::new()).kind(), Kind::Str);
    assert!(Value::Int(1).compatible(&Value::Int(2)));
    assert!(!Value::Int(1).compatible(&Value::Bool(false)));
    let ints = Value::List { elem: Kind::Int, items: vec![] };
    let strs = Value::List { elem: Kind::Str, items: vec![] };
    assert!(!ints.compatible(&strs));
}

#[test]
fn commands_drive_a_bare_entity() {
    let h = EntityHandle { index: 0 };
    let mut entity = sample();
    let mut log = ErrorLog::new();

    let mut set = SetPropertyCommand::new(h, "name".to_string(), Value::Str("keel".to_string()));
    set.swap_on(&mut entity, &mut log);
    assert_eq!(entity.resolve(&path("name")), Some(&Value::Str("keel".to_string())));
    assert_eq!(set.value, Value::Str("hull".to_string()));

    let mut add = AddCollectionItemCommand::new(h, "parts".to_string(), Value::Int(40));
    add.execute_on(&mut entity, &mut log);
    assert_eq!(entity.resolve(&path("parts[3]")), Some(&Value::Int(40)));
    add.revert_on(&mut entity, &mut log);
    assert_eq!(entity.resolve(&path("parts[3]")), None);
    assert_eq!(add.item, Some(Value::Int(40)));

    let mut remove = RemoveCollectionItemCommand::new(h, "parts".to_string(), 0);
    remove.execute_on(&mut entity, &mut log);
    assert_eq!(remove.value, Some(Value::Int(10)));
    remove.revert_on(&mut entity, &mut log);
    assert_eq!(entity.resolve(&path("parts[0]")), Some(&Value::Int(10)));

    assert_eq!(log.len(), 0);
}

#[test]
fn error_log_records_in_order() {
    let mut log = ErrorLog::new();
    assert_eq!(log.len(), 0);
    log.error("first".to_string());
    log.error("second".to_string());
    assert_eq!(log.len(), 2);
    assert_eq!(log.entry(0), "first");
    assert_eq!(log.entry(1), "second");
}
