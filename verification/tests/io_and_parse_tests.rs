//! The natives that work with the outside world, answered through the
//! library's replies; the shapes the parser gives struct literals, `for`
//! loops and operators; and the end of a function body in code generation.
use cipr::ast::{CiprType, NodeArena, NodeId, NodeType};
use cipr::diagnostics::Diagnostics;
use cipr::driver::Core;
use cipr::interpreter::value::{IoReply, NativeFn, RuntimeValue};
use cipr::interpreter::Interpreter;
use cipr::lowering::{implicit_return, BodyEnd};
use cipr::native::register_all;
use cipr::parser::Parser;
use cipr::scanner::Scanner;
use cipr::token::{TokenType, Value};

const STEPS: u64 = 1_000_000;

const WAITING: &str = "Runtime Error: Waiting for an answer from the outside world.";

fn parse(source: &str) -> (NodeArena, Option<NodeId>, bool, Diagnostics) {
    let (tokens, had_error) = Scanner::new(source).scan_tokens();
    assert!(!had_error);
    let mut parser = Parser::new(tokens);
    let root = parser.parse();
    let failed = parser.had_error();
    let (arena, _, _, diagnostics) = parser.into_parts();
    (arena, root, failed, diagnostics)
}

fn kid(arena: &NodeArena, id: NodeId, k: usize) -> NodeId {
    arena.get(id).children[k].expect("a child")
}

#[test]
fn every_declared_native_is_bound_with_its_arity() {
    let mut interp = Interpreter::new(NodeArena::new(), 10);
    register_all(&mut interp);
    assert!(matches!(interp.lookup("time"), Some(RuntimeValue::Native(NativeFn::Time))));
    assert!(matches!(interp.lookup("write_file"), Some(RuntimeValue::Native(NativeFn::WriteFile))));
    assert!(matches!(interp.lookup("http_post"), Some(RuntimeValue::Native(NativeFn::HttpPost))));
    assert!(matches!(interp.lookup("kill"), Some(RuntimeValue::Native(NativeFn::Kill))));
    assert!(interp.lookup("no_such_native").is_none());
    assert_eq!(NativeFn::Time.arity(), 0);
    assert_eq!(NativeFn::Ps.arity(), 0);
    assert_eq!(NativeFn::ReadFile.arity(), 1);
    assert_eq!(NativeFn::WriteFile.arity(), 2);
    assert_eq!(NativeFn::Recv.arity(), 2);
    assert_eq!(NativeFn::Extract.arity(), 3);
    assert_eq!(NativeFn::Ls.name(), "ls");
}

#[test]
fn io_natives_are_typed_as_declared() {
    let mut core = Core::new();
    core.replies = vec![IoReply::Value(RuntimeValue::Str("text".to_string()))];
    let out = core.run("let s: str = read_file(\"f\");\nprint(s);", "t.cipr", STEPS);
    assert_eq!(out.result, Ok(()));
    assert_eq!(out.stdout, "text\n");
    let out = core.run("let s: int = read_file(\"f\");", "t.cipr", STEPS);
    assert_eq!(out.result, Err("Type Error occurred.".to_string()));
    let out = core.run("write_file(\"f\");", "t.cipr", STEPS);
    assert_eq!(out.result, Err("Type Error occurred.".to_string()));
}

#[test]
fn an_io_call_waits_for_its_answer() {
    let mut core = Core::new();
    let out = core.run("print(1);\nprint(read_file(\"a.txt\"));\nprint(2);", "t.cipr", STEPS);
    assert_eq!(out.stdout, "1\n");
    assert_eq!(out.result, Err(WAITING.to_string()));
    let request = out.request.expect("a waiting call");
    assert_eq!(request.native, NativeFn::ReadFile);
    assert_eq!(request.args.len(), 1);
    assert!(matches!(&request.args[0], RuntimeValue::Str(s) if s == "a.txt"));
}

#[test]
fn an_io_call_takes_its_answer() {
    let mut core = Core::new();
    core.replies = vec![IoReply::Value(RuntimeValue::Str("hello".to_string()))];
    let out = core.run("print(1);\nprint(read_file(\"a.txt\"));\nprint(2);", "t.cipr", STEPS);
    assert_eq!(out.stdout, "1\nhello\n2\n");
    assert_eq!(out.result, Ok(()));
    assert!(out.request.is_none());
}

#[test]
fn io_answers_are_taken_in_order() {
    let mut core = Core::new();
    core.replies = vec![
        IoReply::Value(RuntimeValue::Str("first".to_string())),
        IoReply::Value(RuntimeValue::Str("second".to_string())),
    ];
    let out = core.run("print(env(\"A\"));\nprint(env(\"B\"));", "t.cipr", STEPS);
    assert_eq!(out.stdout, "first\nsecond\n");
    assert_eq!(out.result, Ok(()));
}

#[test]
fn a_failed_io_call_is_a_runtime_error() {
    let mut core = Core::new();
    core.replies = vec![IoReply::Failure("no clock".to_string())];
    let out = core.run("print(0);\nprint(time());", "t.cipr", STEPS);
    assert_eq!(out.stdout, "0\n");
    assert_eq!(out.result, Err("Runtime Error: no clock\n[line 2]".to_string()));
    assert!(out.request.is_none());
}

#[test]
fn a_second_io_call_waits_after_the_first_is_answered() {
    let mut core = Core::new();
    core.replies = vec![IoReply::Value(RuntimeValue::Bool(true))];
    let out = core.run("print(cd(\"/tmp\"));\nprint(cwd());", "t.cipr", STEPS);
    assert_eq!(out.stdout, "true\n");
    assert_eq!(out.result, Err(WAITING.to_string()));
    let request = out.request.expect("a waiting call");
    assert_eq!(request.native, NativeFn::Cwd);
    assert!(request.args.is_empty());
}

#[test]
fn struct_literal_fields_carry_their_names_and_values() {
    let (arena, root, failed, _) = parse("Vec2 { x: 10, y: 20 };");
    assert!(!failed);
    let stmt = kid(&arena, root.unwrap(), 0);
    let init = kid(&arena, stmt, 0);
    let node = arena.get(init);
    assert_eq!(node.node_type, NodeType::StructInit);
    assert_eq!(node.token.lexeme, "Vec2");
    assert_eq!(node.children.len(), 2);
    let names = ["x", "y"];
    let values = [10, 20];
    for k in 0..2 {
        let field = arena.get(kid(&arena, init, k));
        assert_eq!(field.node_type, NodeType::Assign);
        assert_eq!(field.token.lexeme, names[k]);
        assert_eq!(field.children.len(), 1);
        let value = arena.get(field.children[0].unwrap());
        assert_eq!(value.node_type, NodeType::Literal);
        assert_eq!(value.value, Value::Int(values[k]));
    }
}

#[test]
fn a_lone_semicolon_is_not_an_expression() {
    let (_, _, failed, diagnostics) = parse(";");
    assert!(failed);
    assert!(diagnostics.render().contains("Error at ';': Expect expression."));
}

#[test]
fn a_for_loop_becomes_a_block_with_a_while() {
    let (arena, root, failed, _) = parse("for (let i: int = 0; i < 4; i = i + 1) { print(i); }");
    assert!(!failed);
    let block = kid(&arena, root.unwrap(), 0);
    assert_eq!(arena.get(block).node_type, NodeType::StmtBlock);
    let decl = arena.get(kid(&arena, block, 0));
    assert_eq!(decl.node_type, NodeType::StmtVarDecl);
    assert_eq!(decl.token.lexeme, "i");
    let w = kid(&arena, block, 1);
    assert_eq!(arena.get(w).node_type, NodeType::StmtWhile);
    let cond = arena.get(kid(&arena, w, 0));
    assert_eq!(cond.node_type, NodeType::Binary);
    assert_eq!(cond.token.token_type, TokenType::Less);
    let body = kid(&arena, w, 1);
    assert_eq!(arena.get(body).node_type, NodeType::StmtBlock);
    assert_eq!(arena.get(kid(&arena, body, 0)).node_type, NodeType::StmtBlock);
    let incr = arena.get(kid(&arena, body, 1));
    assert_eq!(incr.node_type, NodeType::StmtExpr);
    assert_eq!(arena.get(incr.children[0].unwrap()).node_type, NodeType::Assign);
}

#[test]
fn a_for_loop_without_clauses_loops_on_true() {
    let (arena, root, failed, _) = parse("for (;;) print(1);");
    assert!(!failed);
    let w = kid(&arena, root.unwrap(), 0);
    assert_eq!(arena.get(w).node_type, NodeType::StmtWhile);
    let cond = arena.get(kid(&arena, w, 0));
    assert_eq!(cond.node_type, NodeType::Literal);
    assert_eq!(cond.value, Value::Bool(true));
    assert_eq!(arena.get(kid(&arena, w, 1)).node_type, NodeType::StmtExpr);
}

#[test]
fn operator_nodes_carry_their_own_tokens() {
    let (arena, root, failed, _) = parse("1 + 2 - 3;");
    assert!(!failed);
    let stmt = kid(&arena, root.unwrap(), 0);
    let outer = kid(&arena, stmt, 0);
    assert_eq!(arena.get(outer).token.token_type, TokenType::Minus);
    assert_eq!(arena.get(outer).token.lexeme, "-");
    let inner = kid(&arena, outer, 0);
    assert_eq!(arena.get(inner).token.token_type, TokenType::Plus);
    assert_eq!(arena.get(inner).token.lexeme, "+");
}

#[test]
fn a_body_end_needs_a_return_only_for_a_value() {
    assert_eq!(implicit_return(&CiprType::Void, true), BodyEnd::Closed);
    assert_eq!(implicit_return(&CiprType::Int, true), BodyEnd::Closed);
    assert_eq!(implicit_return(&CiprType::Void, false), BodyEnd::ReturnVoid);
    assert_eq!(implicit_return(&CiprType::Int, false), BodyEnd::MissingReturn);
    assert_eq!(implicit_return(&CiprType::Str, false), BodyEnd::MissingReturn);
}

#[test]
fn the_end_of_file_line_counts_the_newlines() {
    let (tokens, had_error) = Scanner::new("a\nb\n\nc").scan_tokens();
    assert!(!had_error);
    let eof = tokens.last().unwrap();
    assert_eq!(eof.token_type, TokenType::EofToken);
    assert_eq!(eof.line, 4);
    let (tokens, _) = Scanner::new("let s = \"x\ny\";\n").scan_tokens();
    assert_eq!(tokens.last().unwrap().line, 3);
}

#[test]
fn scan_errors_come_from_three_causes_only() {
    assert!(Scanner::new("let x = 1 # 2;").scan_tokens().1);
    assert!(Scanner::new("let s = \"open").scan_tokens().1);
    assert!(Scanner::new("let n = 99999999999999999999;").scan_tokens().1);
    let (tokens, had_error) = Scanner::new("let a = 1 # 2;").scan_tokens();
    assert!(had_error);
    assert_eq!(tokens.len(), 7);
    assert!(!Scanner::new("let s = \"ok\"; // # fine\nlet n = 9223372036854775807;").scan_tokens().1);
}

#[test]
fn closing_a_scope_undoes_all_its_definitions() {
    let mut env = cipr::type_checker::env::TypeEnv::new();
    env.define("x", CiprType::Int);
    env.enter_scope();
    env.define("x", CiprType::Str);
    env.define("y", CiprType::Bool);
    env.define("x", CiprType::Bool);
    env.exit_scope();
    assert!(matches!(env.get("x"), Some(CiprType::Int)));
    assert!(env.get("y").is_none());
}

#[test]
fn a_call_result_types_its_use() {
    let mut core = Core::new();
    let mut diagnostics = Diagnostics::new();
    let r = core.check("fn f(): void { }\nlet x: int = f() + 1;", "t.cipr", &mut diagnostics);
    assert_eq!(r.err(), Some("Type Error occurred.".to_string()));
    let mut diagnostics = Diagnostics::new();
    let r = core.check("fn g(): int { return 1; }\nlet y: int = g() + 1;", "t.cipr", &mut diagnostics);
    assert!(r.is_ok());
}

#[test]
fn a_rerun_draws_the_same_random_numbers() {
    let source = "let a: int = rand(1000);\nprint(a);\nprint(read_file(\"f\"));\nprint(a);";
    let mut core = Core::new();
    let first = core.run(source, "t.cipr", STEPS);
    assert!(first.request.is_some());
    assert_eq!(first.draws.len(), 1);
    let drawn = first.draws[0];
    assert!(0 <= drawn && drawn < 1000);
    let mut core = Core::new();
    core.draws = first.draws.clone();
    core.replies = vec![IoReply::Value(RuntimeValue::Str("x".to_string()))];
    let second = core.run(source, "t.cipr", STEPS);
    assert_eq!(second.result, Ok(()));
    assert_eq!(second.stdout, format!("{drawn}\nx\n{drawn}\n"));
    assert!(second.stdout.starts_with(&first.stdout));
}

#[test]
fn a_recorded_draw_out_of_range_is_drawn_again() {
    let mut core = Core::new();
    core.draws = vec![50];
    let out = core.run("print(rand(10));", "t.cipr", STEPS);
    assert_eq!(out.result, Ok(()));
    let n: i64 = out.stdout.trim().parse().unwrap();
    assert!(0 <= n && n < 10);
}

#[test]
fn a_call_reports_exactly_its_own_errors() {
    let cases = [
        ("fn f(a: int): int { return a; }\nlet x: int = f(1) + 2;", Ok(())),
        ("fn f(a: int): int { return a; }\nlet x: int = f(1, 2) + 2;", Err("Type Error occurred.".to_string())),
        ("fn f(a: int): int { return a; }\nlet x: int = f(\"s\") + 2;", Err("Type Error occurred.".to_string())),
        ("let n: int = 3;\nlet x: int = n(1) + 2;", Err("Type Error occurred.".to_string())),
        ("fn f(a: int): int { return a; }\nlet x: int = f(y) + 2;", Err("Type Error occurred.".to_string())),
    ];
    for (source, expected) in cases {
        let mut core = Core::new();
        let mut diagnostics = Diagnostics::new();
        let r = core.check(source, "t.cipr", &mut diagnostics).map(|_| ());
        assert_eq!(r, expected, "{source}");
    }
}
