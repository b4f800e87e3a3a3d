use rama_syntax::parse::parse;
use rama_syntax::rama_ir::{BodyKind, Program};

#[test]
fn program_tables_follow_item_order() {
    let src = r#"
module users.core/Users topology users
struct User { :name String }
pstate $$users: Map<String, User>
depot d keyed-by id
fn first(x) {
  return x
}
extern size(x: String) -> Long
fn second(y) {
  return y
}
"#;
    let file = parse(src).expect("parse");
    let program = Program::from_ast(&file);
    assert_eq!(program.module_name, "Users");
    assert_eq!(program.namespace, "users.core");
    assert_eq!(program.topology, "users");
    assert_eq!(program.structs.len(), 1);
    assert_eq!(program.pstates.len(), 1);
    assert_eq!(program.depots.len(), 1);
    assert_eq!(program.externs.len(), 1);
    assert_eq!(program.functions.len(), 2);
    assert_eq!(program.functions[1].name.node, "second");
    assert_eq!(program.bodies.len(), 2);
    assert!(program.bodies.iter().all(|b| b.kind == BodyKind::Fn));
    assert_eq!(program.bodies[0].name, "first");
}

#[test]
fn program_defaults_without_a_module() {
    let file = parse("\nfn f(x) {\n  return x\n}\n").expect("parse");
    let program = Program::from_ast(&file);
    assert_eq!(program.module_name, "Generated");
    assert_eq!(program.namespace, "Generated");
    assert_eq!(program.topology, "main");
}
