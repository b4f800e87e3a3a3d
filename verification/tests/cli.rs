use rama_syntax::cli::{parse_check_options, parse_learn_options, parse_observe_options, parse_path_and_output};
use std::path::PathBuf;

fn strings(values: &[&str]) -> Vec<String> {
    values.iter().map(|value| (*value).to_string()).collect()
}

#[test]
fn parses_check_nrepl_option() {
    let (path, nrepl) =
        parse_check_options(&strings(&["fixture.rama", "--nrepl", "127.0.0.1:7888"])).unwrap();
    assert_eq!(PathBuf::from(path), PathBuf::from("fixture.rama"));
    assert_eq!(nrepl.as_deref(), Some("127.0.0.1:7888"));
}

#[test]
fn parses_observe_write_options() {
    let options = parse_observe_options(&strings(&[
        "fixture.rama",
        "clojure.core/vec",
        "--args",
        "[[1 2]]",
        "--nrepl",
        "localhost:7888",
        "--write",
    ]))
    .unwrap();
    assert_eq!(options.var, "clojure.core/vec");
    assert_eq!(options.args_edn, "[[1 2]]");
    assert!(options.write);
}

#[test]
fn check_options_reject_extra_paths_and_unknown_flags() {
    assert!(parse_check_options(&strings(&["a.rama", "b.rama"])).is_err());
    assert!(parse_check_options(&strings(&["--bogus"])).is_err());
    assert!(parse_check_options(&strings(&["a.rama", "--nrepl"])).is_err());
    assert!(parse_check_options(&strings(&[])).is_err());
}

#[test]
fn path_and_output_options() {
    let (path, output) = parse_path_and_output(&strings(&["in.rama", "-o", "out.clj"])).unwrap();
    assert_eq!(path, "in.rama");
    assert_eq!(output.as_deref(), Some("out.clj"));
    assert!(parse_path_and_output(&strings(&["-o"])).is_err());
}

#[test]
fn learn_needs_a_tape_or_nrepl_with_forms() {
    assert!(parse_learn_options(&strings(&["m.rama"])).is_err());
    assert!(parse_learn_options(&strings(&["m.rama", "--nrepl", "h:1"])).is_err());
    let options = parse_learn_options(&strings(&["m.rama", "--nrepl", "h:1", "--eval", "(f)", "--write"])).unwrap();
    assert_eq!(options.eval_forms, vec!["(f)".to_string()]);
    assert!(options.write);
    let options = parse_learn_options(&strings(&["m.rama", "--tape", "t.tsv"])).unwrap();
    assert_eq!(options.tape.as_deref(), Some("t.tsv"));
}
