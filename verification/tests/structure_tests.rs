use gst_structure::iter::{collect_backward, collect_forward, FieldIterator, Iter};
use gst_structure::owned::OwnedStructure;
use gst_structure::value::{Value, ValueKind};

fn collect_names(mut it: FieldIterator<'_>) -> Vec<String> {
    let mut out: Vec<String> = Vec::new();
    while let Some(name) = it.next() {
        out.push(String::from(name));
    }
    out
}

fn collect_names_back(mut it: FieldIterator<'_>) -> Vec<String> {
    let mut out: Vec<String> = Vec::new();
    while let Some(name) = it.next_back() {
        out.push(String::from(name));
    }
    out
}

#[test]
fn new_set_get() {
    let mut s = OwnedStructure::new_empty("test");
    assert_eq!(s.get_name(), "test");

    s.set("f1", Value::from(String::from("abc")));
    s.set("f2", Value::from(String::from("bcd")));
    s.set("f3", Value::from(123i32));

    assert_eq!(s.get::<String>("f1").unwrap(), "abc");
    assert_eq!(s.get::<String>("f2").unwrap(), "bcd");
    assert_eq!(s.get::<i32>("f3").unwrap(), 123i32);
    assert_eq!(collect_names(s.fields()), vec!["f1", "f2", "f3"]);

    let mut entries: Vec<(String, Value)> = Vec::new();
    let mut it = s.iter();
    while let Some((f, v)) = it.next() {
        entries.push((String::from(f), v.clone()));
    }
    assert_eq!(
        entries,
        vec![
            (String::from("f1"), Value::from(String::from("abc"))),
            (String::from("f2"), Value::from(String::from("bcd"))),
            (String::from("f3"), Value::from(123i32)),
        ]
    );

    let s2 = OwnedStructure::new(
        "test",
        &vec![
            (String::from("f1"), Value::from(String::from("abc"))),
            (String::from("f2"), Value::from(String::from("bcd"))),
            (String::from("f3"), Value::from(123i32)),
        ],
    );
    assert_eq!(s, s2);
}

#[test]
fn new_with_fields_keeps_name() {
    let s = OwnedStructure::new(
        "video/x-raw",
        &vec![
            (String::from("width"), Value::from(320u32)),
            (String::from("height"), Value::from(240u32)),
        ],
    );
    assert_eq!(s.get_name(), "video/x-raw");
    let empty = OwnedStructure::new("audio", &Vec::new());
    assert_eq!(empty.get_name(), "audio");
    assert_eq!(empty.n_fields(), 0);
}

#[test]
fn new_with_unique_fields_in_order() {
    let s = OwnedStructure::new(
        "caps",
        &vec![
            (String::from("a"), Value::from(1i32)),
            (String::from("b"), Value::from(2i32)),
            (String::from("c"), Value::from(3i32)),
        ],
    );
    assert_eq!(s.n_fields(), 3);
    assert_eq!(collect_names(s.fields()), vec!["a", "b", "c"]);
}

#[test]
fn new_with_duplicate_name_overwrites() {
    let s = OwnedStructure::new(
        "caps",
        &vec![
            (String::from("a"), Value::from(1i32)),
            (String::from("b"), Value::from(2i32)),
            (String::from("a"), Value::from(9i32)),
        ],
    );
    assert_eq!(s.n_fields(), 2);
    assert_eq!(collect_names(s.fields()), vec!["a", "b"]);
    assert_eq!(s.get::<i32>("a").unwrap(), 9i32);
}

#[test]
fn text_round_trip() {
    let mut s = OwnedStructure::new_empty("format");
    s.set("name", Value::from(String::from("some value, with; punctuation=x")));
    s.set("count", Value::from(-42i32));
    s.set("size", Value::from(4096u32));
    s.set("flag", Value::from(true));

    let text = s.to_string();
    let parsed = OwnedStructure::from_string(&text).expect("canonical text must parse");
    assert_eq!(parsed, s);
    assert_eq!(collect_names(parsed.fields()), vec!["name", "count", "size", "flag"]);
    assert_eq!(parsed.get::<i32>("count").unwrap(), -42i32);
    assert_eq!(parsed.get::<u32>("size").unwrap(), 4096u32);
    assert_eq!(parsed.get::<bool>("flag").unwrap(), true);
}

#[test]
fn text_exact_form() {
    let s = OwnedStructure::new_empty("test");
    // name length 4, "test", field count 0: all numbers are sixteen
    // hexadecimal digits.
    assert_eq!(s.to_string(), "0000000000000004test0000000000000000");

    let mut s2 = OwnedStructure::new_empty("t");
    s2.set("f", Value::from(true));
    assert_eq!(s2.to_string(), "0000000000000001t00000000000000010000000000000001fbt");
}

#[test]
fn parse_rejects_malformed() {
    assert!(OwnedStructure::from_string("").is_none());
    assert!(OwnedStructure::from_string("garbage").is_none());
    assert!(OwnedStructure::from_string("0000000000000004tes").is_none());
    // trailing text after a well-formed structure
    assert!(OwnedStructure::from_string("0000000000000004test0000000000000000x").is_none());
    // field count promises one field, none follows
    assert!(OwnedStructure::from_string("0000000000000004test0000000000000001").is_none());
    // bad value tag
    assert!(
        OwnedStructure::from_string("0000000000000001t00000000000000010000000000000001fzt")
            .is_none()
    );
    // well-formed text still parses
    assert!(OwnedStructure::from_string("0000000000000004test0000000000000000").is_some());
}

#[test]
fn remove_field_idempotent() {
    let mut s = OwnedStructure::new_empty("s");
    s.set("a", Value::from(1i32));
    s.set("b", Value::from(2i32));

    let mut once = s.duplicate();
    once.remove_field("a");
    let mut twice = s.duplicate();
    twice.remove_field("a");
    twice.remove_field("a");

    assert_eq!(once, twice);
    assert_eq!(once.n_fields(), 1);
    assert!(!once.has_field("a"));
    assert!(once.has_field("b"));

    // removing an absent field is a no-op
    let mut untouched = s.duplicate();
    untouched.remove_field("missing");
    assert_eq!(untouched, s);
}

#[test]
fn equality_insensitive_to_insertion_order() {
    let a = OwnedStructure::new(
        "s",
        &vec![
            (String::from("a"), Value::from(1i32)),
            (String::from("b"), Value::from(2i32)),
        ],
    );
    let b = OwnedStructure::new(
        "s",
        &vec![
            (String::from("b"), Value::from(2i32)),
            (String::from("a"), Value::from(1i32)),
        ],
    );
    assert_eq!(a, a);
    assert_eq!(a, b);
    assert_eq!(b, a);

    let c = OwnedStructure::new("s", &vec![(String::from("a"), Value::from(1i32))]);
    assert_ne!(a, c);
    assert_ne!(c, a);
    let d = OwnedStructure::new(
        "other",
        &vec![
            (String::from("a"), Value::from(1i32)),
            (String::from("b"), Value::from(2i32)),
        ],
    );
    assert_ne!(a, d);
}

#[test]
fn duplicate_is_independent() {
    let mut s = OwnedStructure::new_empty("s");
    s.set("a", Value::from(1i32));

    let mut d = s.duplicate();
    assert_eq!(d, s);

    d.set("a", Value::from(2i32));
    d.set("b", Value::from(3i32));
    assert_eq!(s.get::<i32>("a").unwrap(), 1i32);
    assert!(!s.has_field("b"));
    assert_ne!(d, s);

    let e = s.duplicate();
    s.remove_field("a");
    assert_eq!(e.get::<i32>("a").unwrap(), 1i32);
    assert!(!s.has_field("a"));
}

#[test]
fn typed_retrieval_checks_type() {
    let mut s = OwnedStructure::new_empty("s");
    s.set("f", Value::from(String::from("hello")));

    assert_eq!(s.get::<i32>("f"), None);
    assert_eq!(s.get::<u32>("f"), None);
    assert_eq!(s.get::<bool>("f"), None);
    assert_eq!(s.get::<String>("f").unwrap(), "hello");

    assert_eq!(s.get::<String>("missing"), None);
    assert_eq!(s.get_value("f").unwrap().kind(), ValueKind::Str);
    assert!(s.get_value("missing").is_none());
}

#[test]
fn bidirectional_iteration() {
    let mut s = OwnedStructure::new_empty("s");
    s.set("a", Value::from(1i32));
    s.set("b", Value::from(2i32));
    s.set("c", Value::from(3i32));

    assert_eq!(collect_names(s.fields()), vec!["a", "b", "c"]);
    assert_eq!(collect_names_back(s.fields()), vec!["c", "b", "a"]);
    assert_eq!(collect_forward(s.as_ref()), vec!["a", "b", "c"]);
    assert_eq!(collect_backward(s.as_ref()), vec!["c", "b", "a"]);

    // mixed: one from the front, then the rest from the back
    let mut it = s.fields();
    assert_eq!(it.size_hint(), (3, Some(3)));
    assert_eq!(it.next().unwrap(), "a");
    assert_eq!(it.size_hint(), (2, Some(2)));
    assert_eq!(it.next_back().unwrap(), "c");
    assert_eq!(it.next_back().unwrap(), "b");
    assert_eq!(it.size_hint(), (0, Some(0)));
    assert!(it.next().is_none());
    assert!(it.next_back().is_none());

    let mut entries = s.iter();
    let (n, v) = entries.next_back().unwrap();
    assert_eq!(n, "c");
    assert_eq!(*v, Value::from(3i32));
}

#[test]
fn scenario_empty_then_set() {
    let mut s = OwnedStructure::new_empty("test");
    s.set("f1", Value::from(String::from("abc")));
    s.set("f2", Value::from(String::from("bcd")));
    s.set("f3", Value::from(123i32));

    assert_eq!(s.get_name(), "test");
    assert_eq!(s.get::<String>("f1").unwrap(), "abc");
    assert_eq!(s.get::<i32>("f3").unwrap(), 123i32);
    assert_eq!(collect_names(s.fields()), vec!["f1", "f2", "f3"]);
}

#[test]
fn set_overwrites_in_place() {
    let mut s = OwnedStructure::new_empty("s");
    s.set("a", Value::from(1i32));
    s.set("b", Value::from(2i32));
    s.set("a", Value::from(String::from("now a string")));

    assert_eq!(s.n_fields(), 2);
    assert_eq!(collect_names(s.fields()), vec!["a", "b"]);
    assert_eq!(s.get::<String>("a").unwrap(), "now a string");
    assert_eq!(s.get::<i32>("a"), None);
}

#[test]
fn remove_all_fields_keeps_name() {
    let mut s = OwnedStructure::new_empty("s");
    s.set("a", Value::from(1i32));
    s.set("b", Value::from(2i32));
    s.remove_all_fields();
    assert_eq!(s.n_fields(), 0);
    assert_eq!(s.get_name(), "s");
    assert!(!s.has_field("a"));
}

#[test]
fn borrowed_views_share_operations() {
    let mut s = OwnedStructure::new_empty("s");
    {
        let view = s.as_mut();
        view.set("a", Value::from(7i32));
    }
    let view = s.as_ref();
    assert_eq!(view.get_name(), "s");
    assert_eq!(view.get::<i32>("a").unwrap(), 7i32);
    assert_eq!(view.to_string(), s.to_string());
    let mut it: Iter<'_> = view.iter();
    let (n, v) = it.next().unwrap();
    assert_eq!(n, "a");
    assert_eq!(*v, Value::I32(7));
}

#[test]
fn value_kinds_and_conversions() {
    assert_eq!(Value::from(5i32), Value::I32(5));
    assert_eq!(Value::from(5u32), Value::U32(5));
    assert_eq!(Value::from(true), Value::Bool(true));
    assert_eq!(Value::from(String::from("x")), Value::Str(String::from("x")));
    assert_eq!(Value::from(5i32).kind(), ValueKind::I32);
    assert_eq!(Value::from(5u32).kind(), ValueKind::U32);
    assert_eq!(Value::from(false).kind(), ValueKind::Bool);
    assert_ne!(Value::I32(5), Value::U32(5));
    assert_ne!(Value::I32(5), Value::I32(6));
    assert_eq!(Value::I32(5).clone(), Value::I32(5));
}
