use vectorcxx::model::{CxxLogEvent, Field, Value};

fn text(s: &str) -> Value {
    Value::Bytes(s.as_bytes().to_vec())
}

fn field(key: &str, value: Value) -> Field {
    Field { key: key.to_string(), value }
}

/// `{"a": "a_val", "b": [1, 2], "c": {"d": "d_val"}}`
fn sample() -> CxxLogEvent {
    CxxLogEvent {
        log_event: Value::Object(vec![
            field("a", text("a_val")),
            field("b", Value::Array(vec![Value::Integer(1), Value::Integer(2)])),
            field("c", Value::Object(vec![field("d", text("d_val"))])),
        ]),
    }
}

#[test]
fn fields_are_flattened_depth_first() {
    assert_eq!(sample().fields(), vec!["a", "b[0]", "b[1]", "c.d"]);
}

#[test]
fn top_level_fields_do_not_descend() {
    assert_eq!(sample().top_level_fields(), vec!["a", "b", "c"]);
}

#[test]
fn value_type_of_each_kind() {
    let record = CxxLogEvent {
        log_event: Value::Object(vec![
            field("s", text("x")),
            field("i", Value::Integer(-7)),
            field("f", Value::Float(1.5f64.to_bits())),
            field("b", Value::Boolean(true)),
            field("t", Value::Timestamp(1_700_000_000_000_000)),
            field("o", Value::Object(vec![])),
            field("a", Value::Array(vec![])),
            field("n", Value::Null),
        ]),
    };
    assert_eq!(record.get_value_type("s"), "string");
    assert_eq!(record.get_value_type("i"), "integer");
    assert_eq!(record.get_value_type("f"), "float");
    assert_eq!(record.get_value_type("b"), "boolean");
    assert_eq!(record.get_value_type("t"), "timestamp");
    assert_eq!(record.get_value_type("o"), "object");
    assert_eq!(record.get_value_type("a"), "array");
    assert_eq!(record.get_value_type("n"), "null");
    assert_eq!(record.get_integer("i"), -7);
    assert_eq!(f64::from_bits(record.get_double("f")), 1.5);
    assert!(record.get_boolean("b"));
    assert_eq!(record.get_timestamp("t"), 1_700_000_000_000_000);
    assert_eq!(record.get_string("s"), "x");
}

#[test]
fn absent_key_has_the_empty_type() {
    let record = sample();
    assert_eq!(record.get_value_type("missing"), "");
    assert_eq!(record.get_value_type("c.missing"), "");
    assert_eq!(record.get_value_type("b[2]"), "");
    assert_eq!(record.get_value_type(""), "");
    assert_eq!(record.get_value_type("]["), "");
    assert_eq!(record.get_value_type("b[99999999999999999999999999]"), "");
}

#[test]
fn nested_paths_resolve() {
    let record = sample();
    assert_eq!(record.get_string("c.d"), "d_val");
    assert_eq!(record.get_integer("b[0]"), 1);
    assert_eq!(record.get_integer("b[1]"), 2);
    assert_eq!(record.get_integer("b[-1]"), 2);
    assert_eq!(record.get_value_type("c"), "object");
    assert_eq!(record.get_value_type("b"), "array");
}

#[test]
fn flat_key_wins_over_nested_path() {
    let nested = CxxLogEvent {
        log_event: Value::Object(vec![field("c", Value::Object(vec![field("d", text("x"))]))]),
    };
    let flat = CxxLogEvent { log_event: Value::Object(vec![field("c.d", text("y"))]) };
    let both = CxxLogEvent {
        log_event: Value::Object(vec![
            field("c", Value::Object(vec![field("d", text("x"))])),
            field("c.d", text("y")),
        ]),
    };
    assert_eq!(nested.get_string("c.d"), "x");
    assert_eq!(flat.get_string("c.d"), "y");
    assert_eq!(both.get_string("c.d"), "y");

    // After unescaping the two records list the same field ...
    assert_eq!(nested.fields(), vec!["c.d"]);
    assert_eq!(flat.fields(), vec!["c.d"]);
    // ... and the escaped paths and the first level tell them apart.
    assert_eq!(nested.paths(), vec!["c.d"]);
    assert_eq!(flat.paths(), vec!["c\\.d"]);
    assert_eq!(nested.top_level_fields(), vec!["c"]);
    assert_eq!(flat.top_level_fields(), vec!["c.d"]);
}

#[test]
fn record_from_pairs() {
    let inputs: Vec<String> =
        ["k1", "v1", "k2", "v2", "k1", "v3", "dangling"].iter().map(|s| s.to_string()).collect();
    let record = CxxLogEvent::new(&inputs);
    assert_eq!(record.top_level_fields(), vec!["k1", "k2"]);
    assert_eq!(record.get_string("k1"), "v3");
    assert_eq!(record.get_string("k2"), "v2");
}

#[test]
fn get_array_only_for_lists() {
    let record = sample();
    assert_eq!(record.get_array("b").map(|items| items.len()), Some(2));
    assert!(record.get_array("a").is_none());
    assert!(record.get_array("missing").is_none());
}

#[test]
fn empty_containers_and_nulls_are_leaves() {
    let record = CxxLogEvent {
        log_event: Value::Object(vec![
            field("a", Value::Array(vec![])),
            field(
                "deep",
                Value::Array(vec![
                    Value::Object(vec![field("x", Value::Integer(1)), field("y", Value::Array(vec![]))]),
                    Value::Array(vec![Value::Null, Value::Boolean(false)]),
                ]),
            ),
            field("n", Value::Null),
            field("o", Value::Object(vec![])),
        ]),
    };
    assert!(record.is_wf());
    assert_eq!(
        record.fields(),
        vec!["a", "deep[0].x", "deep[0].y", "deep[1][0]", "deep[1][1]", "n", "o"]
    );
    assert_eq!(record.top_level_fields(), vec!["a", "deep", "n", "o"]);
    assert_eq!(record.get_integer("deep[0].x"), 1);
    assert_eq!(record.get_value_type("deep[1][0]"), "null");
    assert!(!record.get_boolean("deep[1][1]"));
    assert!(!record.get_boolean("deep[-1][-1]"));
    assert_eq!(record.get_value_type("deep[0].y"), "array");
    assert_eq!(record.get_value_type("deep[2]"), "");
    assert_eq!(record.get_value_type("deep[-3]"), "");
}

#[test]
fn record_without_fields() {
    let record = CxxLogEvent::empty();
    assert!(record.fields().is_empty());
    assert!(record.paths().is_empty());
    assert!(record.top_level_fields().is_empty());
    assert_eq!(record.get_value_type("a"), "");
    // The path of the record itself.
    assert_eq!(record.get_value_type("."), "object");
}

#[test]
fn value_that_is_no_object_has_no_fields() {
    let record = CxxLogEvent { log_event: Value::Integer(3) };
    assert!(record.fields().is_empty());
    assert!(record.paths().is_empty());
    assert!(record.top_level_fields().is_empty());
    assert_eq!(record.get_value_type("a"), "");
    assert_eq!(record.get_value_type("."), "integer");
}

#[test]
fn long_paths_have_many_digits() {
    let items: Vec<Value> = (0..12).map(Value::Integer).collect();
    let record = CxxLogEvent { log_event: Value::Object(vec![field("list", Value::Array(items))]) };
    let fields = record.fields();
    assert_eq!(fields.len(), 12);
    assert_eq!(fields[9], "list[9]");
    assert_eq!(fields[10], "list[10]");
    assert_eq!(fields[11], "list[11]");
    assert_eq!(record.get_integer("list[11]"), 11);
    // Zeros at the front of an index do not count.
    assert_eq!(record.get_integer("list[000000011]"), 11);
    assert_eq!(record.get_integer("list[0000000011]"), 11);
    assert_eq!(record.get_integer("list[0000000000000000000000000000000000000001]"), 1);
    assert_eq!(record.get_integer("list[-000000001]"), 11);
    assert_eq!(record.get_integer("list[-0000000001]"), 11);
    assert_eq!(record.get_integer("list[-00000000000000000000000000000000000012]"), 0);
    assert_eq!(record.get_integer("list[0]"), 0);
    assert_eq!(record.get_integer("list[00]"), 0);
    assert_eq!(record.get_value_type("list[-0]"), "integer");
    // The largest index that is looked up, and the indexes beyond it, which no list reaches.
    assert_eq!(record.get_value_type("list[999999999]"), "");
    assert_eq!(record.get_value_type("list[-999999999]"), "");
    assert_eq!(record.get_value_type("list[1000000000]"), "");
    assert_eq!(record.get_value_type("list[-1000000000]"), "");
    assert_eq!(record.get_value_type("list[00001000000000]"), "");
    assert_eq!(record.get_value_type("list[99999999999999999999999999999999999999999]"), "");
    assert_eq!(record.get_value_type("list[-99999999999999999999999999999999999999999]"), "");
}

#[test]
fn leading_zeros_in_nested_indexes() {
    let record = CxxLogEvent {
        log_event: Value::Object(vec![field(
            "a",
            Value::Array(vec![Value::Array(vec![]), Value::Array(vec![Value::Integer(7)])]),
        )]),
    };
    assert_eq!(record.get_value_type("a[0000000001]"), "array");
    assert_eq!(record.get_string_array("a[0000000001]", shown), vec!["7"]);
    assert_eq!(record.get_integer("a[0000000001][0000000000]"), 7);
    assert_eq!(record.get_integer("a[-0000000001][-0000000001]"), 7);
    assert!(record.get_string_array("a[0000000000]", shown).is_empty());
    assert_eq!(record.get_value_type("a[0000000002]"), "");
}

#[test]
fn brackets_and_digits_inside_quoted_names() {
    let record = CxxLogEvent {
        log_event: Value::Object(vec![field(
            "outer",
            Value::Object(vec![
                field("x[12345678901234567890]", Value::Integer(1)),
                field("q\"[12345678901234567890]", Value::Integer(2)),
                field("plain", Value::Array(vec![Value::Integer(3)])),
            ]),
        )]),
    };
    // Inside a quoted name a bracket begins no index.
    assert_eq!(record.get_integer("outer.\"x[12345678901234567890]\""), 1);
    assert_eq!(record.get_integer("outer.\"q\\\"[12345678901234567890]\""), 2);
    assert_eq!(record.get_integer("outer.\"plain\"[0000000000000]"), 3);
    // Behind the quoted name an index is an index again.
    assert_eq!(record.get_value_type("outer.\"plain\"[12345678901234567890]"), "");
    // A key that spells no path at all.
    assert_eq!(record.get_value_type("outer.\"plain[12345678901234567890]"), "");
    assert_eq!(record.get_value_type("outer x[12345678901234567890]"), "");
}

#[test]
fn keys_with_dots_are_escaped_in_paths() {
    let record = CxxLogEvent {
        log_event: Value::Object(vec![
            field("a.b", Value::Object(vec![field("c.d", Value::Integer(1))])),
            field("back\\.slash", Value::Null),
            field("plain", Value::Array(vec![Value::Object(vec![field("x.y", Value::Null)])])),
        ]),
    };
    assert!(record.is_wf());
    assert_eq!(
        record.paths(),
        vec!["a\\.b.c\\.d", "back\\\\.slash", "plain[0].x\\.y"]
    );
    assert_eq!(record.fields(), vec!["a.b.c.d", "back\\.slash", "plain[0].x.y"]);
    assert_eq!(record.top_level_fields(), vec!["a.b", "back.slash", "plain"]);
    assert_eq!(record.get_value_type("a.b"), "object");
    assert_eq!(record.get_value_type("back\\.slash"), "null");
    // A quoted segment of a path names a key with a dot.
    assert_eq!(record.get_integer("\"a.b\".\"c.d\""), 1);
}

#[test]
fn literal_key_is_tried_before_the_path() {
    let record = CxxLogEvent {
        log_event: Value::Object(vec![
            field("b", Value::Array(vec![Value::Integer(10)])),
            field("b[0]", Value::Integer(20)),
            field("x y", Value::Integer(30)),
        ]),
    };
    assert_eq!(record.get_integer("b[0]"), 20);
    // A key that is no path is still found by its name.
    assert_eq!(record.get_integer("x y"), 30);
    assert_eq!(record.try_get_integer("x z"), None);
}

#[test]
fn getters_that_may_fail() {
    let record = CxxLogEvent {
        log_event: Value::Object(vec![
            field("s", text("x")),
            field("i", Value::Integer(-7)),
            field("f", Value::Float(2.25f64.to_bits())),
            field("b", Value::Boolean(true)),
            field("t", Value::Timestamp(-1)),
            field("bad", Value::Bytes(vec![0x48, 0xF0, 0x90, 0x80, 0x57])),
        ]),
    };
    assert_eq!(record.try_get_string("s"), Some("x".to_string()));
    assert_eq!(record.try_get_string("i"), None);
    assert_eq!(record.try_get_string("bad"), None);
    assert_eq!(record.try_get_string("missing"), None);
    assert_eq!(record.get_value_type("bad"), "string");
    assert_eq!(record.try_get_integer("i"), Some(-7));
    assert_eq!(record.try_get_integer("s"), None);
    assert_eq!(record.try_get_integer("missing"), None);
    assert_eq!(record.try_get_double("f").map(f64::from_bits), Some(2.25));
    assert_eq!(record.try_get_double("i"), None);
    assert_eq!(record.try_get_boolean("b"), Some(true));
    assert_eq!(record.try_get_boolean("f"), None);
    assert_eq!(record.try_get_timestamp("t"), Some(-1));
    assert_eq!(record.try_get_timestamp("b"), None);
}

#[test]
fn strings_beyond_ascii() {
    let record = CxxLogEvent {
        log_event: Value::Object(vec![field("gr\u{fc}\u{df}", text("\u{4f60}\u{597d} \u{1f600}"))]),
    };
    assert_eq!(record.get_string("gr\u{fc}\u{df}"), "\u{4f60}\u{597d} \u{1f600}");
    assert_eq!(record.fields(), vec!["gr\u{fc}\u{df}"]);
}

#[test]
fn insert_replaces_in_place() {
    let mut record = CxxLogEvent::empty();
    record.insert("a", Value::Integer(1));
    record.insert("b", Value::Integer(2));
    record.insert("a", Value::Integer(3));
    assert_eq!(record.top_level_fields(), vec!["a", "b"]);
    assert_eq!(record.get_integer("a"), 3);
    assert_eq!(record.get_integer("b"), 2);
}

#[test]
fn records_for_measurements() {
    let inputs: Vec<String> = ["k", "v"].iter().map(|s| s.to_string()).collect();
    let events = vectorcxx::new_cxx_log_events(inputs, 3);
    assert_eq!(events.len(), 5);
    for event in &events[..3] {
        assert_eq!(event.fields(), vec!["k"]);
        assert_eq!(event.get_string("k"), "v");
    }
    assert_eq!(events[3].fields(), vec!["invalid_key"]);
    assert_eq!(events[3].get_string("invalid_key"), "Hello \u{ef}\u{bf}\u{bd}World");
    assert_eq!(events[4].fields(), vec!["invalid_key"]);
    assert_eq!(events[4].get_value_type("invalid_key"), "string");
    assert_eq!(events[4].try_get_string("invalid_key"), None);
    assert_eq!(
        events[4].get("invalid_key"),
        Some(&Value::Bytes(b"Hello \xF0\x90\x80World".to_vec()))
    );

    assert_eq!(vectorcxx::new_cxx_log_events(Vec::new(), 0).len(), 2);
    assert_eq!(vectorcxx::new_cxx_log_events(Vec::new(), -4).len(), 2);
}

fn shown(v: &Value) -> String {
    match v {
        Value::Bytes(bytes) => String::from_utf8_lossy(bytes).into_owned(),
        Value::Regex(pattern) => pattern.clone(),
        Value::Integer(i) => i.to_string(),
        Value::Float(bits) => f64::from_bits(*bits).to_string(),
        Value::Boolean(b) => b.to_string(),
        Value::Timestamp(micros) => format!("@{}", micros),
        Value::Object(fields) => format!(
            "{{{}}}",
            fields
                .iter()
                .map(|f| format!("{:?}:{}", f.key, shown(&f.value)))
                .collect::<Vec<_>>()
                .join(",")
        ),
        Value::Array(items) => {
            format!("[{}]", items.iter().map(shown).collect::<Vec<_>>().join(","))
        }
        Value::Null => "null".to_string(),
    }
}

#[test]
fn text_of_each_item_of_a_list() {
    let record = CxxLogEvent {
        log_event: Value::Object(vec![
            field(
                "list",
                Value::Array(vec![
                    text("a"),
                    Value::Integer(2),
                    Value::Float(0.5f64.to_bits()),
                    Value::Array(vec![Value::Null]),
                ]),
            ),
            field("nested", Value::Object(vec![field("inner", Value::Array(vec![text("x")]))])),
            field("scalar", text("s")),
            field("none", Value::Array(vec![])),
        ]),
    };
    assert_eq!(record.get_string_array("list", shown), vec!["a", "2", "0.5", "[null]"]);
    assert_eq!(record.get_string_array("nested.inner", shown), vec!["x"]);
    assert!(record.get_string_array("none", shown).is_empty());
    // Not fatal: a value that is no list, and a key that names nothing.
    assert!(record.get_string_array("scalar", shown).is_empty());
    assert!(record.get_string_array("nested", shown).is_empty());
    assert!(record.get_string_array("missing", shown).is_empty());
}

#[test]
fn text_of_a_composite_value() {
    let record = sample();
    assert_eq!(record.get_object_as_string("c", shown), "{\"d\":d_val}");
    assert_eq!(record.get_array_as_string("b", shown), "[1,2]");
    assert_eq!(record.get_object_as_string("a", shown), "a_val");
    assert_eq!(record.get_object_as_string("b[1]", shown), "2");
    assert_eq!(record.try_get_object_as_string("c.d", shown), Some("d_val".to_string()));
    assert_eq!(record.try_get_object_as_string("c.e", shown), None);
    assert_eq!(record.try_get_object_as_string("missing", shown), None);
}

#[test]
fn well_formed_values_have_unique_names_at_every_depth() {
    assert!(sample().is_wf());
    assert!(CxxLogEvent::empty().is_wf());
    // A record is an object.
    assert!(!CxxLogEvent { log_event: Value::Integer(1) }.is_wf());
    assert!(!CxxLogEvent { log_event: Value::Array(vec![]) }.is_wf());
    // A name twice at the top.
    let twice = CxxLogEvent {
        log_event: Value::Object(vec![
            field("a", Value::Integer(1)),
            field("b", Value::Integer(2)),
            field("a", Value::Integer(3)),
        ]),
    };
    assert!(!twice.is_wf());
    // A name twice further down, below an object and below a list.
    let below = |inner: Value| CxxLogEvent {
        log_event: Value::Object(vec![field("outer", inner), field("x", Value::Null)]),
    };
    let bad = || Value::Object(vec![field("k", Value::Null), field("k", Value::Null)]);
    let good = || Value::Object(vec![field("K", Value::Null), field("k", Value::Null)]);
    assert!(!below(bad()).is_wf());
    assert!(below(good()).is_wf());
    assert!(!below(Value::Array(vec![good(), Value::Array(vec![bad()])])).is_wf());
    assert!(below(Value::Array(vec![good(), Value::Array(vec![good()])])).is_wf());
    assert!(!below(Value::Object(vec![field("deep", bad())])).is_wf());
    // The same name in two different objects is no clash.
    assert!(below(Value::Object(vec![field("outer", good()), field("x", Value::Null)])).is_wf());
    assert!(vectorcxx::model::is_well_formed(&Value::Array(vec![good()])));
    assert!(!vectorcxx::model::is_well_formed(&Value::Array(vec![bad()])));
    assert!(vectorcxx::model::is_well_formed(&Value::Null));
}

#[test]
fn well_formed_objects_are_in_key_order() {
    let object = |keys: &[&str]| CxxLogEvent {
        log_event: Value::Object(keys.iter().map(|k| field(k, Value::Null)).collect()),
    };
    assert!(object(&["a", "b", "c"]).is_wf());
    assert!(object(&["", "a", "aa", "ab", "b"]).is_wf());
    assert!(object(&["A", "Z", "_", "a", "z", "\u{e9}", "\u{4e2d}", "\u{1f600}"]).is_wf());
    assert!(object(&["only"]).is_wf());
    assert!(!object(&["b", "a"]).is_wf());
    assert!(!object(&["a", "c", "b"]).is_wf());
    assert!(!object(&["aa", "a"]).is_wf());
    assert!(!object(&["a", "A"]).is_wf());
    assert!(!object(&["a", "b", "b"]).is_wf());
    // The order of names is the order of strings.
    let mut keys = vec!["b", "", "\u{1f600}", "a", "ab", "B", "\u{e9}z", "\u{e9}", "aa", "_"];
    keys.sort();
    assert!(object(&keys).is_wf());
}

#[test]
fn insert_keeps_the_key_order() {
    let mut record = CxxLogEvent::empty();
    for key in ["m", "b", "z", "a", "\u{e9}", "mm", "", "b"] {
        record.insert(key, text(key));
        assert!(record.is_wf());
    }
    assert_eq!(record.top_level_fields(), vec!["", "a", "b", "m", "mm", "z", "\u{e9}"]);
    assert_eq!(record.fields(), vec!["", "a", "b", "m", "mm", "z", "\u{e9}"]);
    for key in ["m", "b", "z", "a", "\u{e9}", "mm"] {
        assert_eq!(record.get_string(key), key);
    }
    record.insert("b", Value::Integer(5));
    assert_eq!(record.get_integer("b"), 5);
    assert_eq!(record.get_string("a"), "a");
    assert_eq!(record.top_level_fields().len(), 7);
}

#[test]
fn built_records_are_well_formed() {
    let inputs: Vec<String> = ["k", "1", "k", "2", "j", "3"].iter().map(|s| s.to_string()).collect();
    assert!(CxxLogEvent::new(&inputs).is_wf());
    let mut record = CxxLogEvent::empty();
    record.insert("a", Value::Object(vec![field("b", Value::Null)]));
    record.insert("a", Value::Array(vec![Value::Object(vec![field("b", Value::Null)])]));
    record.insert("c", Value::Null);
    assert!(record.is_wf());
    for event in vectorcxx::new_cxx_log_events(inputs, 2) {
        assert!(event.is_wf());
    }
}

#[test]
fn regular_expression_reads_as_a_string_kind() {
    let record = CxxLogEvent {
        log_event: Value::Object(vec![
            field("list", Value::Array(vec![Value::Regex("x+".to_string()), text("y")])),
            field("r", Value::Regex("^a.*z$".to_string())),
        ]),
    };
    assert_eq!(record.get_value_type("r"), "string");
    assert_eq!(record.fields(), vec!["list[0]", "list[1]", "r"]);
    // It is no string to the getter of strings.
    assert_eq!(record.try_get_string("r"), None);
    assert_eq!(record.get_object_as_string("r", shown), "^a.*z$");
    assert_eq!(record.get_string_array("list", shown), vec!["x+", "y"]);
    assert!(record.is_wf());
}
