use rama_syntax::emit_clj::compile;
use rama_syntax::parse::parse;
use rama_syntax::nrepl::bencode::BValue;
use rama_syntax::nrepl::{parse_assignability, pin_observation, text_field, Error, EvalResponse, Observation};
use rama_syntax::types::{Type, TypeId, TypeTable};

#[test]
fn interning_the_same_type_twice_gives_the_same_id() {
    let mut table = TypeTable::new();
    let long = table.jvm("java.lang.Long".to_string(), Vec::new());
    let before = table.len();
    let again = table.intern(Type::Jvm { class: "java.lang.Long".to_string(), args: Vec::new() });
    assert_eq!(long, again);
    assert_eq!(table.len(), before);
    let list = table.jvm("java.util.List".to_string(), vec![long]);
    assert_eq!(table.display(list), "java.util.List<java.lang.Long>");
}

#[test]
fn unions_flatten_sort_and_collapse() {
    let mut table = TypeTable::new();
    let long = table.jvm("java.lang.Long".to_string(), Vec::new());
    let string = table.jvm("java.lang.String".to_string(), Vec::new());
    let never = table.intern(Type::Never);
    let nil = table.intern(Type::Nil);
    assert_eq!(table.union(vec![long, never]), long);
    let both = table.union(vec![string, long, string]);
    assert_eq!(table.display(both), "java.lang.Long | java.lang.String");
    let nested = table.union(vec![nil, both]);
    assert_eq!(table.display(nested), "java.lang.Long | java.lang.String | Nil");
    let empty = table.union(Vec::new());
    assert_eq!(table.display(empty), "Never");
    assert_eq!(table.display(TypeId(999)), "Unknown");
}

#[test]
fn function_types_display_with_arrow() {
    let mut table = TypeTable::new();
    let long = table.jvm("java.lang.Long".to_string(), Vec::new());
    let string = table.jvm("java.lang.String".to_string(), Vec::new());
    let f = table.intern(Type::Function { params: vec![long, string], ret: string });
    assert_eq!(table.display(f), "Fn<(java.lang.Long, java.lang.String) -> java.lang.String>");
}

#[test]
fn dataflow_locals_are_starred_by_their_first_character() {
    let src = "module M\ndepot d keyed-by id\nop put(event) {\n  let a = inc(x)\n  let b = inc(_tmp)\n  let d = inc(Xs)\n  let e = inc(nil)\n  return a\n}\n";
    let file = parse(src).expect("parse");
    let out = compile(&file).render();
    assert!(out.contains("(inc *x :> *a)"), "got: {out}");
    assert!(out.contains("(inc *_tmp :> *b)"), "got: {out}");
    assert!(out.contains("(inc Xs :> *d)"), "got: {out}");
    assert!(out.contains("(inc nil :> *e)"), "got: {out}");
}

#[test]
fn assignability_answers_must_be_booleans() {
    let yes = "true".to_string();
    let no = "false".to_string();
    let odd = "maybe".to_string();
    assert!(parse_assignability(Some(&yes)).unwrap());
    assert!(!parse_assignability(Some(&no)).unwrap());
    match parse_assignability(Some(&odd)) {
        Err(Error::Protocol(message)) => assert_eq!(message, "assignability query returned Some(\"maybe\")"),
        other => panic!("unexpected {other:?}"),
    }
    assert!(matches!(parse_assignability(None), Err(Error::Protocol(_))));
}

#[test]
fn invalid_utf8_fields_read_as_absent() {
    let message = vec![
        (b"id".to_vec(), BValue::Bytes(vec![0xff, 0xfe])),
        (b"value".to_vec(), BValue::Bytes("héllo".as_bytes().to_vec())),
    ];
    assert_eq!(text_field(&message, "id"), None);
    assert_eq!(text_field(&message, "value").as_deref(), Some("héllo"));
    assert_eq!(text_field(&message, "missing"), None);
}

#[test]
fn evaluation_errors_surface_from_finish() {
    let mut response = EvalResponse::new();
    response.err.push_str("boom");
    match response.finish() {
        Err(error) => assert_eq!(error.display_string(), "nREPL evaluation error: boom"),
        Ok(_) => panic!("expected an evaluation error"),
    }
    assert_eq!(Error::Io("closed".into()).display_string(), "nREPL I/O error: closed");
    assert_eq!(Error::Protocol("bad".into()).display_string(), "nREPL protocol error: bad");
}

#[test]
fn pinning_twice_is_idempotent_on_an_existing_pin() {
    let observation = Observation {
        var_name: "clojure.core/inc".into(),
        argument_types: vec![],
        return_type: "Long".into(),
    };
    let source = "module M\n  extern inc = clojure.core/inc() -> Long  \n";
    let (same, changed) = pin_observation(source, &observation);
    assert!(!changed);
    assert_eq!(same, source);
    let (once, changed) = pin_observation("module M", &observation);
    assert!(changed);
    assert_eq!(
        once,
        "module M\n\n// observed from `clojure.core/inc` through nREPL; concrete sample, safe to generalize\nextern inc = clojure.core/inc() -> Long\n"
    );
    let (twice, changed_again) = pin_observation(&once, &observation);
    assert!(!changed_again);
    assert_eq!(twice, once);
}

#[test]
fn union_ignores_member_order_and_repeats() {
    let mut table = TypeTable::new();
    let long = table.jvm("java.lang.Long".to_string(), Vec::new());
    let string = table.jvm("java.lang.String".to_string(), Vec::new());
    let nil = table.intern(Type::Nil);
    let a = table.union(vec![long, string, nil]);
    let b = table.union(vec![nil, string, long, string, nil]);
    assert_eq!(a, b);
}
