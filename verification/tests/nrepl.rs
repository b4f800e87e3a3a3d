use rama_syntax::nrepl::bencode::{decode, encode, BValue, Decoded};
use rama_syntax::nrepl::{
    clj_string, eval_request, parse_observation, parse_var_info, pin_observation, sanitize_param,
    source_var_name, text_value, unquote_nrepl_value, EvalResponse, Observation,
};

fn bytes(s: &str) -> Vec<u8> {
    s.as_bytes().to_vec()
}

#[test]
fn bencode_round_trips_nested_nrepl_message() {
    let value = BValue::Dict(vec![
        (bytes("id"), text_value("1")),
        (bytes("status"), BValue::List(vec![text_value("done")])),
        (bytes("value"), text_value("true")),
    ]);
    let mut encoded = Vec::new();
    encode(&value, &mut encoded);
    match decode(&encoded, 0) {
        Decoded::Value(decoded, next) => {
            assert_eq!(decoded, value);
            assert_eq!(next, encoded.len());
        }
        other => panic!("expected a value, got {other:?}"),
    }
}

#[test]
fn observation_becomes_source_extern() {
    let observation = Observation {
        var_name: "clojure.core/vec".into(),
        argument_types: vec!["java.util.List<Long>".into()],
        return_type: "java.util.List<Long>".into(),
    };
    assert_eq!(
        observation.extern_declaration(),
        "extern vec = clojure.core/vec(arg0: java.util.List<Long>) -> java.util.List<Long>"
    );
    let (source, changed) = pin_observation("module Demo\n", &observation);
    assert!(changed);
    assert!(source.contains("// observed from `clojure.core/vec`"));
    let (source_again, changed_again) = pin_observation(&source, &observation);
    assert!(!changed_again);
    assert_eq!(source_again, source);
}

#[test]
fn parses_var_metadata_into_gradual_suggestions() {
    let info = parse_var_info(
        "\"FOUND\\tclojure.core/get\\n2\\t0\\tmap,key\\n3\\t0\\tmap,key,default\"",
    )
    .unwrap()
    .unwrap();
    assert_eq!(info.arities.len(), 2);
    assert_eq!(
        info.extern_suggestions()[0],
        "extern get = clojure.core/get(map: Unknown, key: Unknown) -> Unknown"
    );
}

#[test]
fn bencode_encodes_exact_bytes() {
    let mut out = Vec::new();
    encode(&BValue::Int(-42), &mut out);
    encode(&text_value("spam"), &mut out);
    encode(&BValue::List(vec![BValue::Int(0)]), &mut out);
    assert_eq!(out, b"i-42e4:spamli0ee".to_vec());
}

#[test]
fn decoding_reports_incomplete_and_invalid_input() {
    assert!(matches!(decode(&b"4:sp".to_vec(), 0), Decoded::Incomplete));
    assert!(matches!(decode(&b"l".to_vec(), 0), Decoded::Incomplete));
    assert!(matches!(decode(&b"x".to_vec(), 0), Decoded::Invalid(_)));
    assert!(matches!(decode(&b"i1xe".to_vec(), 0), Decoded::Invalid(_)));
    assert!(matches!(decode(&b"di1ei2ee".to_vec(), 0), Decoded::Invalid(_)));
}

#[test]
fn decoding_sorts_dictionary_keys_and_keeps_the_last_duplicate() {
    match decode(&b"d1:bi1e1:ai2e1:bi3ee".to_vec(), 0) {
        Decoded::Value(value, _) => assert_eq!(
            value,
            BValue::Dict(vec![(bytes("a"), BValue::Int(2)), (bytes("b"), BValue::Int(3))])
        ),
        other => panic!("expected a value, got {other:?}"),
    }
}

#[test]
fn eval_responses_collect_until_done() {
    let request = eval_request("(+ 1 2)", "7");
    let mut encoded = Vec::new();
    encode(&request, &mut encoded);
    assert_eq!(encoded, b"d4:code7:(+ 1 2)2:id1:72:op4:evale".to_vec());
    let mut response = EvalResponse::new();
    let other = BValue::Dict(vec![(bytes("id"), text_value("8")), (bytes("value"), text_value("9"))]);
    assert!(!response.absorb(&other, "7").unwrap());
    let value = BValue::Dict(vec![(bytes("id"), text_value("7")), (bytes("value"), text_value("3"))]);
    assert!(!response.absorb(&value, "7").unwrap());
    let done = BValue::Dict(vec![
        (bytes("id"), text_value("7")),
        (bytes("status"), BValue::List(vec![text_value("done")])),
    ]);
    assert!(response.absorb(&done, "7").unwrap());
    assert!(response.absorb(&BValue::Int(1), "7").is_err());
    let finished = response.finish().unwrap();
    assert_eq!(finished.values, vec!["3".to_string()]);
}

#[test]
fn helper_texts_match_their_definitions() {
    assert_eq!(source_var_name("clojure.core/vec"), "vec");
    assert_eq!(source_var_name("plain"), "plain");
    assert_eq!(sanitize_param("&"), "_");
    assert_eq!(sanitize_param(""), "arg");
    assert_eq!(sanitize_param("a b?"), "a_b?");
    assert_eq!(clj_string("a\"b\\c\n"), "\"a\\\"b\\\\c\\n\"");
    assert_eq!(unquote_nrepl_value("\"x\\ty\""), "x\ty");
    assert_eq!(unquote_nrepl_value("plain"), "plain");
}

#[test]
fn observation_results_parse() {
    let observation = parse_observation("clojure.core/inc", "\"OK\\nLong\\nLong\"").unwrap();
    assert_eq!(observation.argument_types, vec!["Long".to_string()]);
    assert_eq!(observation.return_type, "Long");
    assert!(parse_observation("v", "nope").is_err());
    assert!(parse_observation("v", "\"OK\\nLong\"").is_err());
    assert_eq!(parse_var_info("NOT_FOUND").unwrap(), None);
}

#[test]
fn every_proper_prefix_of_an_encoding_is_incomplete() {
    let value = BValue::Dict(vec![
        (bytes("id"), text_value("12")),
        (bytes("status"), BValue::List(vec![text_value("done"), BValue::Int(-7)])),
    ]);
    let mut encoded = Vec::new();
    encode(&value, &mut encoded);
    for cut in 0..encoded.len() {
        let prefix = encoded[..cut].to_vec();
        assert!(matches!(decode(&prefix, 0), Decoded::Incomplete), "cut at {cut}");
    }
    let mut longer = encoded.clone();
    longer.extend_from_slice(b"i1e");
    match decode(&longer, 0) {
        Decoded::Value(decoded, next) => {
            assert_eq!(decoded, value);
            assert_eq!(next, encoded.len());
        }
        other => panic!("expected a value, got {other:?}"),
    }
}
