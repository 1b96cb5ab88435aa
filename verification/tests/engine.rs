use property_commands::command::AddCollectionItemCommand;
use property_commands::command::EntityGraph;
use property_commands::command::EntityHandle;
use property_commands::command::PropertyAction;
use property_commands::command::PropertyChanged;
use property_commands::command::PropertyCommand;
use property_commands::command::RemoveCollectionItemCommand;
use property_commands::command::SetPropertyCommand;
use property_commands::log::ErrorLog;
use property_commands::value::FieldEntry;
use property_commands::value::Kind;
use property_commands::value::Value;

fn record(fields: Vec<(&str, Value)>) -> Value {
    Value::Record {
        fields: fields
            .into_iter()
            .map(|(name, value)| FieldEntry { name: name.to_string(), value })
            .collect(),
    }
}

fn int_list(items: Vec<i64>) -> Value {
    Value::List { elem: Kind::Int, items: items.into_iter().map(Value::Int).collect() }
}

fn str_list(items: Vec<&str>) -> Value {
    Value::List {
        elem: Kind::Str,
        items: items.into_iter().map(|s| Value::Str(s.to_string())).collect(),
    }
}

fn single(entity: Value) -> (EntityGraph, EntityHandle) {
    (EntityGraph::new(vec![entity]), EntityHandle { index: 0 })
}

#[test]
fn set_swap_round_trip() {
    let (mut graph, h) = single(record(vec![("health", Value::Int(100))]));
    let mut log = ErrorLog::new();
    let mut cmd = SetPropertyCommand::new(h, "health".to_string(), Value::Int(250));

    cmd.execute(&mut graph, &mut log);
    assert_eq!(graph.entities[0], record(vec![("health", Value::Int(250))]));
    assert_eq!(cmd.value, Value::Int(100));

    cmd.revert(&mut graph, &mut log);
    assert_eq!(graph.entities[0], record(vec![("health", Value::Int(100))]));
    assert_eq!(cmd.value, Value::Int(250));

    cmd.revert(&mut graph, &mut log);
    assert_eq!(graph.entities[0], record(vec![("health", Value::Int(250))]));
    assert_eq!(cmd.value, Value::Int(100));

    assert_eq!(log.len(), 0);
}

#[test]
fn set_stale_path_logs_once_and_leaves_graph() {
    let before = record(vec![("health", Value::Int(100))]);
    let (mut graph, h) = single(record(vec![("health", Value::Int(100))]));
    let mut log = ErrorLog::new();
    let mut cmd = SetPropertyCommand::new(h, "missing".to_string(), Value::Int(1));

    cmd.execute(&mut graph, &mut log);
    assert_eq!(graph.entities[0], before);
    assert_eq!(cmd.value, Value::Int(1));
    assert_eq!(log.len(), 1);
    assert_eq!(log.entry(0), "No such property missing");
}

#[test]
fn set_unparsable_path_is_no_such_property() {
    let (mut graph, h) = single(record(vec![("a", Value::Bool(true))]));
    let mut log = ErrorLog::new();
    let mut cmd = SetPropertyCommand::new(h, "a..b".to_string(), Value::Bool(false));

    cmd.execute(&mut graph, &mut log);
    assert_eq!(graph.entities[0], record(vec![("a", Value::Bool(true))]));
    assert_eq!(log.len(), 1);
    assert_eq!(log.entry(0), "No such property a..b");
}

#[test]
fn set_type_mismatch_retries_idempotently() {
    let before = record(vec![("health", Value::Int(100))]);
    let (mut graph, h) = single(record(vec![("health", Value::Int(100))]));
    let mut log = ErrorLog::new();
    let mut cmd = SetPropertyCommand::new(h, "health".to_string(), Value::Str("no".to_string()));

    cmd.execute(&mut graph, &mut log);
    assert_eq!(graph.entities[0], before);
    assert_eq!(cmd.value, Value::Str("no".to_string()));
    assert_eq!(log.len(), 1);
    assert_eq!(log.entry(0), "Incompatible types at health");

    cmd.execute(&mut graph, &mut log);
    assert_eq!(graph.entities[0], before);
    assert_eq!(cmd.value, Value::Str("no".to_string()));
    assert_eq!(log.len(), 2);
    assert_eq!(log.entry(1), "Incompatible types at health");
}

#[test]
fn set_nested_path() {
    let inner = record(vec![("c", Value::Int(2))]);
    let entity = record(vec![
        ("a", record(vec![
            ("b", Value::List {
                elem: Kind::Record,
                items: vec![record(vec![("c", Value::Int(1))]), inner],
            }),
        ])),
    ]);
    let (mut graph, h) = single(entity);
    let mut log = ErrorLog::new();
    let mut cmd = SetPropertyCommand::new(h, "a.b[1].c".to_string(), Value::Int(9));

    cmd.execute(&mut graph, &mut log);
    assert_eq!(log.len(), 0);
    assert_eq!(cmd.value, Value::Int(2));
    let expected = record(vec![
        ("a", record(vec![
            ("b", Value::List {
                elem: Kind::Record,
                items: vec![
                    record(vec![("c", Value::Int(1))]),
                    record(vec![("c", Value::Int(9))]),
                ],
            }),
        ])),
    ]);
    assert_eq!(graph.entities[0], expected);
}

#[test]
fn add_item_appends_and_revert_pops() {
    let (mut graph, h) = single(record(vec![("items", int_list(vec![1, 2]))]));
    let mut log = ErrorLog::new();
    let mut cmd = AddCollectionItemCommand::new(h, "items".to_string(), Value::Int(3));

    cmd.execute(&mut graph, &mut log);
    assert_eq!(graph.entities[0], record(vec![("items", int_list(vec![1, 2, 3]))]));
    assert_eq!(cmd.item, None);

    cmd.revert(&mut graph, &mut log);
    assert_eq!(graph.entities[0], record(vec![("items", int_list(vec![1, 2]))]));
    assert_eq!(cmd.item, Some(Value::Int(3)));

    assert_eq!(log.len(), 0);
}

#[test]
fn add_item_type_mismatch_keeps_item() {
    let before = record(vec![("items", int_list(vec![1]))]);
    let (mut graph, h) = single(record(vec![("items", int_list(vec![1]))]));
    let mut log = ErrorLog::new();
    let mut cmd =
        AddCollectionItemCommand::new(h, "items".to_string(), Value::Str("oops".to_string()));

    cmd.execute(&mut graph, &mut log);
    assert_eq!(graph.entities[0], before);
    assert_eq!(cmd.item, Some(Value::Str("oops".to_string())));
    assert_eq!(log.len(), 1);
    assert_eq!(log.entry(0), "Incompatible types at items");
}

#[test]
fn add_item_not_a_collection() {
    let (mut graph, h) = single(record(vec![("health", Value::Int(5))]));
    let mut log = ErrorLog::new();
    let mut cmd = AddCollectionItemCommand::new(h, "health".to_string(), Value::Int(1));

    cmd.execute(&mut graph, &mut log);
    assert_eq!(graph.entities[0], record(vec![("health", Value::Int(5))]));
    assert_eq!(cmd.item, Some(Value::Int(1)));
    assert_eq!(log.len(), 1);
    assert_eq!(log.entry(0), "Property health is not a collection");
}

#[test]
fn add_item_revert_on_empty_collection_underflows() {
    let (mut graph, h) = single(record(vec![("items", int_list(vec![]))]));
    let mut log = ErrorLog::new();
    let mut cmd = AddCollectionItemCommand { handle: h, path: "items".to_string(), item: None };

    cmd.revert(&mut graph, &mut log);
    assert_eq!(graph.entities[0], record(vec![("items", int_list(vec![]))]));
    assert_eq!(cmd.item, None);
    assert_eq!(log.len(), 1);
    assert_eq!(log.entry(0), "Missing item in collection items");
}

#[test]
fn remove_item_scenario() {
    let (mut graph, h) = single(record(vec![("items", str_list(vec!["A", "B", "C"]))]));
    let mut log = ErrorLog::new();
    let mut cmd = RemoveCollectionItemCommand::new(h, "items".to_string(), 1);

    cmd.execute(&mut graph, &mut log);
    assert_eq!(graph.entities[0], record(vec![("items", str_list(vec!["A", "C"]))]));
    assert_eq!(cmd.value, Some(Value::Str("B".to_string())));

    cmd.revert(&mut graph, &mut log);
    assert_eq!(graph.entities[0], record(vec![("items", str_list(vec!["A", "B", "C"]))]));
    assert_eq!(cmd.value, None);

    assert_eq!(log.len(), 0);
}

#[test]
fn remove_item_out_of_range_logs_and_stays_empty() {
    let (mut graph, h) = single(record(vec![("items", int_list(vec![1, 2]))]));
    let mut log = ErrorLog::new();
    let mut cmd = RemoveCollectionItemCommand::new(h, "items".to_string(), 5);

    cmd.execute(&mut graph, &mut log);
    assert_eq!(graph.entities[0], record(vec![("items", int_list(vec![1, 2]))]));
    assert_eq!(cmd.value, None);
    assert_eq!(log.len(), 1);
    assert_eq!(log.entry(0), "Missing item in collection items");
}

#[test]
fn commands_touch_only_their_entity() {
    let mut graph = EntityGraph::new(vec![
        record(vec![("x", Value::Int(1))]),
        record(vec![("x", Value::Int(2))]),
    ]);
    let mut log = ErrorLog::new();
    let mut cmd =
        SetPropertyCommand::new(EntityHandle { index: 1 }, "x".to_string(), Value::Int(9));

    cmd.execute(&mut graph, &mut log);
    assert_eq!(graph.entities[0], record(vec![("x", Value::Int(1))]));
    assert_eq!(graph.entities[1], record(vec![("x", Value::Int(9))]));
    assert_eq!(log.len(), 0);
}

#[test]
fn make_command_maps_each_action() {
    let h = EntityHandle { index: 0 };
    let set = property_commands::command::make_command(PropertyChanged {
        handle: h,
        path: "a".to_string(),
        action: PropertyAction::Modify { value: Value::Int(1) },
    });
    assert!(matches!(set, Some(PropertyCommand::SetProperty(_))));

    let add = property_commands::command::make_command(PropertyChanged {
        handle: h,
        path: "a".to_string(),
        action: PropertyAction::AddItem { value: Value::Int(1) },
    });
    assert!(matches!(add, Some(PropertyCommand::AddItem(_))));

    let remove = property_commands::command::make_command(PropertyChanged {
        handle: h,
        path: "a".to_string(),
        action: PropertyAction::RemoveItem { index: 4 },
    });
    match remove {
        Some(PropertyCommand::RemoveItem(c)) => {
            assert_eq!(c.index, 4);
            assert_eq!(c.value, None);
        }
        other => panic!("expected a RemoveItem command, got {:?}", other),
    }

    let none = property_commands::command::make_command(PropertyChanged {
        handle: h,
        path: "a".to_string(),
        action: PropertyAction::Revert,
    });
    assert!(none.is_none());
}

#[test]
fn wrapped_command_executes_and_reverts() {
    let (mut graph, h) = single(record(vec![("items", int_list(vec![7]))]));
    let mut log = ErrorLog::new();
    let mut cmd = property_commands::command::make_command(PropertyChanged {
        handle: h,
        path: "items".to_string(),
        action: PropertyAction::AddItem { value: Value::Int(8) },
    })
    .unwrap();

    cmd.execute(&mut graph, &mut log);
    assert_eq!(graph.entities[0], record(vec![("items", int_list(vec![7, 8]))]));
    cmd.revert(&mut graph, &mut log);
    assert_eq!(graph.entities[0], record(vec![("items", int_list(vec![7]))]));
    assert_eq!(log.len(), 0);
}

#[test]
fn command_names_follow_paths() {
    let h = EntityHandle { index: 0 };
    let set = SetPropertyCommand::new(h, "a.b".to_string(), Value::Int(1));
    assert_eq!(set.name(), "Set a.b property");

    let add = AddCollectionItemCommand::new(h, "items".to_string(), Value::Int(1));
    assert_eq!(add.name(), "Add item to items collection");

    let remove = RemoveCollectionItemCommand::new(h, "items".to_string(), 12);
    assert_eq!(remove.name(), "Remove collection items item 12");

    let remove_zero = RemoveCollectionItemCommand::new(h, "xs".to_string(), 0);
    assert_eq!(remove_zero.name(), "Remove collection xs item 0");
}
