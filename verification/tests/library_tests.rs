//! Tests of the library's parts on concrete values: the laws its proofs
//! state, the edge cases its functions handle, and each error it reports.
use cipr::ast::CiprType;
use cipr::ast_printer::AstPrinter;
use cipr::diagnostics::{DiagnosticPhase, Diagnostics};
use cipr::driver::{include_paths, run_checked, Core};
use cipr::environment::Environments;
use cipr::interpreter::value::{stringify_value, NativeFn, RuntimeValue};
use cipr::interpreter::{binary_op, report, unary_op, CiprError};
use cipr::token::Token;
use cipr::native::crypto::{b64_decode_bytes, b64_encode, hex_of};
use cipr::native::string::{extract, split, trim};
use cipr::native::{
    NativeBase64Decode, NativeBase64Encode, NativeExtract, NativeHex, NativePrint, NativeRand, NativeSize,
    NativeSplit, NativeTrim,
};
use cipr::parser::{IncludeSource, Parser};
use cipr::scanner::Scanner;
use cipr::token::TokenType;
use cipr::type_checker::env::TypeEnv;
use cipr::type_checker::{push_type, types_match};
use cipr::type_syntax::parse_named_type;

const STEPS: u64 = 1_000_000;

fn run(source: &str) -> (String, Result<(), String>) {
    let mut core = Core::new();
    let out = core.run(source, "t.cipr", STEPS);
    (out.stdout, out.result)
}

fn str_value(s: &str) -> RuntimeValue {
    RuntimeValue::Str(s.to_string())
}

fn as_str(v: &RuntimeValue) -> String {
    match v {
        RuntimeValue::Str(s) => s.clone(),
        other => panic!("expected a string, got {}", stringify_value(other)),
    }
}

// ── scopes of the type checker ──

#[test]
fn type_env_define_then_get() {
    let mut env = TypeEnv::new();
    env.define("x", CiprType::Int);
    assert!(matches!(env.get("x"), Some(CiprType::Int)));
    assert!(env.get("y").is_none());
}

#[test]
fn type_env_inner_scope_shadows_and_exit_restores() {
    let mut env = TypeEnv::new();
    env.define("x", CiprType::Int);
    env.enter_scope();
    assert!(matches!(env.get("x"), Some(CiprType::Int)));
    env.define("x", CiprType::Str);
    assert!(matches!(env.get("x"), Some(CiprType::Str)));
    env.exit_scope();
    assert!(matches!(env.get("x"), Some(CiprType::Int)));
    assert_eq!(env.depth(), 1);
}

#[test]
fn type_env_redefine_replaces() {
    let mut env = TypeEnv::new();
    env.define("x", CiprType::Int);
    env.define("x", CiprType::Bool);
    assert!(matches!(env.get("x"), Some(CiprType::Bool)));
}

#[test]
fn types_match_is_symmetric_on_examples() {
    let ptr = CiprType::Pointer(Box::new(CiprType::Int));
    assert!(types_match(&ptr, &CiprType::Null));
    assert!(types_match(&CiprType::Null, &ptr));
    assert!(types_match(&CiprType::Unknown, &CiprType::Str));
    assert!(types_match(&CiprType::Str, &CiprType::Unknown));
    assert!(!types_match(&CiprType::Int, &CiprType::Str));
    assert!(!types_match(&CiprType::Str, &CiprType::Int));
}

#[test]
fn named_types() {
    assert!(matches!(parse_named_type("int"), CiprType::Int));
    assert!(matches!(parse_named_type("bool"), CiprType::Bool));
    assert!(matches!(parse_named_type("Point"), CiprType::Struct(ref n) if n == "Point"));
}

// ── scopes of the running program ──

#[test]
fn environment_define_then_lookup() {
    let mut env = Environments::new();
    env.define(0, "a", RuntimeValue::Int(3));
    assert!(matches!(env.lookup(0, "a"), Some(RuntimeValue::Int(3))));
    assert!(env.lookup(0, "b").is_none());
}

#[test]
fn environment_new_scope_sees_enclosing() {
    let mut env = Environments::new();
    env.define(0, "a", RuntimeValue::Int(1));
    let inner = env.with_enclosing(0);
    assert_eq!(inner, 1);
    assert!(matches!(env.lookup(inner, "a"), Some(RuntimeValue::Int(1))));
    env.define(inner, "a", RuntimeValue::Int(2));
    assert!(matches!(env.lookup(inner, "a"), Some(RuntimeValue::Int(2))));
    assert!(matches!(env.lookup(0, "a"), Some(RuntimeValue::Int(1))));
}

#[test]
fn environment_assign_writes_the_defining_scope() {
    let mut env = Environments::new();
    env.define(0, "a", RuntimeValue::Int(1));
    let inner = env.with_enclosing(0);
    assert!(env.assign(inner, "a", RuntimeValue::Int(9)).is_ok());
    assert!(matches!(env.lookup(0, "a"), Some(RuntimeValue::Int(9))));
    assert!(matches!(env.lookup(inner, "a"), Some(RuntimeValue::Int(9))));
}

#[test]
fn environment_undefined_variable_messages() {
    let mut env = Environments::new();
    match env.get(0, "nope") {
        Err(m) => assert_eq!(m, "Undefined variable 'nope'."),
        Ok(_) => panic!("an undefined variable was found"),
    }
    match env.assign(0, "nope", RuntimeValue::Null) {
        Err(m) => assert_eq!(m, "Undefined variable 'nope'."),
        Ok(_) => panic!("an undefined variable was assigned"),
    }
}

// ── values and operators ──

#[test]
fn stringify_values() {
    assert_eq!(stringify_value(&RuntimeValue::Null), "null");
    assert_eq!(stringify_value(&RuntimeValue::Bool(true)), "true");
    assert_eq!(stringify_value(&RuntimeValue::Int(-42)), "-42");
    assert_eq!(stringify_value(&RuntimeValue::Int(i64::MIN)), "-9223372036854775808");
    let arr = RuntimeValue::Array(vec![RuntimeValue::Int(1), str_value("a"), RuntimeValue::Bool(false)]);
    assert_eq!(stringify_value(&arr), "[1, a, false]");
    assert_eq!(stringify_value(&RuntimeValue::Array(Vec::new())), "[]");
    assert_eq!(stringify_value(&RuntimeValue::Native(NativeFn::Print)), "<native fn print>");
}

#[test]
fn binary_operators() {
    let r = binary_op(TokenType::Plus, &RuntimeValue::Int(2), &RuntimeValue::Int(3)).unwrap();
    assert!(matches!(r, RuntimeValue::Int(5)));
    let r = binary_op(TokenType::Slash, &RuntimeValue::Int(-7), &RuntimeValue::Int(2)).unwrap();
    assert!(matches!(r, RuntimeValue::Int(-3)));
    let r = binary_op(TokenType::Plus, &RuntimeValue::Int(i64::MAX), &RuntimeValue::Int(1)).unwrap();
    assert!(matches!(r, RuntimeValue::Int(i64::MIN)));
    let r = binary_op(TokenType::Slash, &RuntimeValue::Int(i64::MIN), &RuntimeValue::Int(-1)).unwrap();
    assert!(matches!(r, RuntimeValue::Int(i64::MIN)));
    let r = binary_op(TokenType::Plus, &str_value("n="), &RuntimeValue::Int(4)).unwrap();
    assert_eq!(as_str(&r), "n=4");
    let r = binary_op(TokenType::EqualEqual, &str_value("a"), &str_value("a")).unwrap();
    assert!(matches!(r, RuntimeValue::Bool(true)));
    let r = binary_op(TokenType::EqualEqual, &RuntimeValue::Int(1), &RuntimeValue::Bool(true)).unwrap();
    assert!(matches!(r, RuntimeValue::Bool(false)));
}

#[test]
fn binary_operator_errors() {
    match binary_op(TokenType::Slash, &RuntimeValue::Int(1), &RuntimeValue::Int(0)) {
        Err(m) => assert_eq!(m, "Division by zero."),
        Ok(_) => panic!("division by zero gave a value"),
    }
    match binary_op(TokenType::Minus, &str_value("a"), &RuntimeValue::Int(1)) {
        Err(m) => assert_eq!(m, "Operands do not fit the operator."),
        Ok(_) => panic!("subtracting from a string gave a value"),
    }
}

#[test]
fn unary_operators() {
    assert!(matches!(unary_op(TokenType::Minus, &RuntimeValue::Int(5)).unwrap(), RuntimeValue::Int(-5)));
    assert!(matches!(unary_op(TokenType::Bang, &RuntimeValue::Int(0)).unwrap(), RuntimeValue::Bool(true)));
    assert!(matches!(unary_op(TokenType::Bang, &str_value("")).unwrap(), RuntimeValue::Bool(false)));
    match unary_op(TokenType::Minus, &RuntimeValue::Bool(true)) {
        Err(m) => assert_eq!(m, "Operand must be a number."),
        Ok(_) => panic!("negating a bool gave a value"),
    }
}

// ── native functions ──

#[test]
fn print_appends_value_and_newline() {
    let mut out = String::from("x\n");
    NativePrint.call(&mut out, &RuntimeValue::Int(7));
    assert_eq!(out, "x\n7\n");
}

#[test]
fn rand_stays_in_range() {
    for _ in 0..200 {
        match NativeRand.call(&RuntimeValue::Int(5)) {
            RuntimeValue::Int(n) => assert!((0..5).contains(&n)),
            _ => panic!("rand gave a non-integer"),
        }
    }
    assert!(matches!(NativeRand.call(&RuntimeValue::Int(0)), RuntimeValue::Int(0)));
    assert!(matches!(NativeRand.call(&RuntimeValue::Int(-3)), RuntimeValue::Int(0)));
    assert!(matches!(NativeRand.call(&str_value("5")), RuntimeValue::Int(0)));
}

#[test]
fn size_counts_elements_and_bytes() {
    assert!(matches!(NativeSize.call(&str_value("hello")), RuntimeValue::Int(5)));
    assert!(matches!(NativeSize.call(&str_value("é")), RuntimeValue::Int(2)));
    let arr = RuntimeValue::Array(vec![RuntimeValue::Null, RuntimeValue::Null, RuntimeValue::Null]);
    assert!(matches!(NativeSize.call(&arr), RuntimeValue::Int(3)));
    assert!(matches!(NativeSize.call(&RuntimeValue::Bool(true)), RuntimeValue::Int(0)));
}

#[test]
fn trim_strips_white_space() {
    assert_eq!(trim("  hi there \t\n"), "hi there");
    assert_eq!(trim("   "), "");
    assert_eq!(trim("\u{3000}x\u{a0}"), "x");
    assert_eq!(trim(&trim("  a  ")), trim("  a  "));
    assert_eq!(as_str(&NativeTrim.call(&str_value(" z "))), "z");
    assert!(matches!(NativeTrim.call(&RuntimeValue::Int(1)), RuntimeValue::Int(1)));
}

#[test]
fn split_pieces_and_join_back() {
    assert_eq!(split("a,b,,c", ","), vec!["a", "b", "", "c"]);
    assert_eq!(split("abc", ","), vec!["abc"]);
    assert_eq!(split("a--b--", "--"), vec!["a", "b", ""]);
    assert_eq!(split("ab", ""), vec!["", "a", "b", ""]);
    assert_eq!(split("", ""), vec!["", ""]);
    let s = "x::y::z";
    assert_eq!(split(s, "::").join("::"), s);
    match NativeSplit.call(&str_value("1 2"), &str_value(" ")) {
        RuntimeValue::Array(items) => assert_eq!(items.len(), 2),
        _ => panic!("split gave a non-array"),
    }
    assert!(matches!(NativeSplit.call(&RuntimeValue::Int(1), &str_value(" ")), RuntimeValue::Array(ref v) if v.is_empty()));
}

#[test]
fn extract_between_delimiters() {
    assert_eq!(extract("<title>Hi</title>", "<title>", "</title>"), Some("Hi".to_string()));
    assert_eq!(extract("a[b]c[d]", "[", "]"), Some("b".to_string()));
    assert_eq!(extract("abc", "x", "c"), None);
    assert_eq!(extract("abc", "a", "x"), None);
    let r = NativeExtract.call(&str_value("k=v;"), &str_value("="), &str_value(";"));
    assert_eq!(as_str(&r), "v");
    assert!(matches!(NativeExtract.call(&str_value("k"), &str_value("="), &str_value(";")), RuntimeValue::Null));
}

#[test]
fn hex_of_bytes() {
    assert_eq!(hex_of(b"AZ\x00\xff"), "415a00ff");
    assert_eq!(as_str(&NativeHex.call(&str_value("hi"))), "6869");
    assert_eq!(hex_of("é".as_bytes()).len(), 2 * "é".len());
    assert!(matches!(NativeHex.call(&RuntimeValue::Int(1)), RuntimeValue::Null));
}

#[test]
fn base64_known_values() {
    assert_eq!(b64_encode(b""), "");
    assert_eq!(b64_encode(b"f"), "Zg==");
    assert_eq!(b64_encode(b"fo"), "Zm8=");
    assert_eq!(b64_encode(b"foo"), "Zm9v");
    assert_eq!(b64_encode(b"foobar"), "Zm9vYmFy");
    assert_eq!(b64_decode_bytes("Zm9vYmFy"), b"foobar".to_vec());
    assert_eq!(b64_decode_bytes("Zm8="), b"fo".to_vec());
    assert_eq!(b64_decode_bytes("Z m\n8 ="), b"fo".to_vec());
}

#[test]
fn base64_round_trip() {
    for text in ["", "a", "ab", "abc", "hello, world", "ünïcødé ✓"] {
        let encoded = NativeBase64Encode.call(&str_value(text));
        let decoded = NativeBase64Decode.call(&encoded);
        assert_eq!(as_str(&decoded), text);
    }
    let bytes: Vec<u8> = (0..=255u8).collect();
    assert_eq!(b64_decode_bytes(&b64_encode(&bytes)), bytes);
}

// ── diagnostics ──

#[test]
fn diagnostics_render() {
    let mut d = Diagnostics::new();
    assert_eq!(d.render(), "Compilation failed without diagnostics.");
    d.emit_line(DiagnosticPhase::Type, "a.cipr", 3, "Bad thing.");
    d.emit(DiagnosticPhase::Scan, "b.cipr", "Worse thing.");
    assert_eq!(d.len(), 2);
    assert_eq!(
        d.render(),
        "a.cipr:3: error[type]: Bad thing.\nb.cipr: error[scan]: Worse thing.\n2 error(s) emitted."
    );
}

// ── the pipeline ──

#[test]
fn scan_error_is_reported_before_parsing() {
    let (out, result) = run("let x = \"unterminated;");
    assert_eq!(result, Err("Scanner errors occurred.".to_string()));
    assert_eq!(out, "");
}

#[test]
fn parse_error_is_reported() {
    let (out, result) = run("let = 3;");
    assert_eq!(result, Err("Parser errors occurred.".to_string()));
    assert_eq!(out, "");
}

#[test]
fn type_error_is_reported() {
    let mut core = Core::new();
    let out = core.run("let x: int = true;", "t.cipr", STEPS);
    assert_eq!(out.result, Err("Type Error occurred.".to_string()));
    assert!(out.diagnostics.render().contains("Cannot assign Bool to variable of type Int"));
}

#[test]
fn runtime_error_reports_line() {
    let (out, result) = run("print(1);\nprint(1 / 0);");
    assert_eq!(out, "1\n");
    assert_eq!(result, Err("Runtime Error: Division by zero.\n[line 2]".to_string()));
}

#[test]
fn endless_loop_stops_at_step_limit() {
    let (_, result) = run("while (true) { }");
    assert_eq!(result, Err("Runtime Error: Step limit reached.".to_string()));
}

#[test]
fn float_literal_is_not_run() {
    let (_, result) = run("let y: float = 1.5; print(y);");
    assert!(result.unwrap_err().contains("Floating-point values are not supported"));
}

#[test]
fn closures_keep_their_scope() {
    let source = "let n: int = 1;\nfn get(): int { return n; }\nn = 5;\nprint(get());";
    let (out, result) = run(source);
    assert_eq!(result, Ok(()));
    assert_eq!(out, "5\n");
}

#[test]
fn recursion_runs() {
    let source = "fn fib(n: int): int { if (n < 2) { return n; } return fib(n - 1) + fib(n - 2); }\nprint(fib(10));";
    let (out, result) = run(source);
    assert_eq!(result, Ok(()));
    assert_eq!(out, "55\n");
}

#[test]
fn natives_are_callable_from_programs() {
    let source = "print(base64_decode(base64_encode(\"round trip\")));\nprint(trim(\"  x  \"));\nprint(size(split(\"a,b,c\", \",\")));\nprint(hex(\"A\"));";
    let (out, result) = run(source);
    assert_eq!(result, Ok(()));
    assert_eq!(out, "round trip\nx\n3\n41\n");
}

#[test]
fn includes_come_from_the_source_table() {
    let mut core = Core::new();
    core.sources.push(IncludeSource { path: "lib.cipr".to_string(), text: "fn twice(n: int): int { return n * 2; }".to_string() });
    let out = core.run("include \"lib.cipr\";\nprint(twice(21));", "main.cipr", STEPS);
    assert_eq!(out.result, Ok(()));
    assert_eq!(out.stdout, "42\n");
}

#[test]
fn missing_include_is_a_parse_error() {
    let (_, result) = run("include \"nowhere.cipr\";");
    assert_eq!(result, Err("Parser errors occurred.".to_string()));
}

#[test]
fn include_paths_of_a_source() {
    let paths = include_paths("include \"a.cipr\";\nlet x = 1;\ninclude \"b/c.cipr\";\nprint(\"include\");");
    assert_eq!(paths, vec!["a.cipr".to_string(), "b/c.cipr".to_string()]);
}

#[test]
fn ast_printer_prints_nested_forms() {
    let (tokens, had_error) = Scanner::new("print(1 + 2 * x);").scan_tokens();
    assert!(!had_error);
    let mut parser = Parser::new(tokens);
    let root = parser.parse();
    let (arena, _, _, _) = parser.into_parts();
    let printer = AstPrinter::new(&arena);
    assert_eq!(printer.print(root), "(list (expr (call print (+ 1 (* 2 x)))))");
    assert_eq!(printer.print(None), "");
}

#[test]
fn operators_of_one_level_group_to_the_left() {
    let (tokens, had_error) = Scanner::new("a = 1 - 2 - 3 < 4 == !b or c and d;").scan_tokens();
    assert!(!had_error);
    let mut parser = Parser::new(tokens);
    let root = parser.parse();
    assert!(!parser.had_error());
    let (arena, _, _, _) = parser.into_parts();
    let printer = AstPrinter::new(&arena);
    assert_eq!(
        printer.print(root),
        "(list (expr (assign a (or (== (< (- (- 1 2) 3) 4) (! b)) (and c d)))))"
    );
}

#[test]
fn a_condition_must_be_a_boolean() {
    let (out, result) = run("if (1) { print(1); }");
    assert_eq!(out, "");
    assert_eq!(result, Err("Type Error occurred.".to_string()));
    let (_, result) = run("while (\"yes\") { }");
    assert_eq!(result, Err("Type Error occurred.".to_string()));
    let (out, result) = run("if (1 < 2) { print(1); }");
    assert_eq!(out, "1\n");
    assert_eq!(result, Ok(()));
}

#[test]
fn return_needs_a_function_that_returns_a_value() {
    let (_, result) = run("return 1;");
    assert_eq!(result, Err("Type Error occurred.".to_string()));
    let (_, result) = run("fn f(): void { return 1; }");
    assert_eq!(result, Err("Type Error occurred.".to_string()));
    let (out, result) = run("fn f(): int { return 1; }\nprint(f());");
    assert_eq!(out, "1\n");
    assert_eq!(result, Ok(()));
}

#[test]
fn a_declaration_without_type_or_initializer_is_refused() {
    let (_, result) = run("let x;");
    assert_eq!(result, Err("Type Error occurred.".to_string()));
    let (_, result) = run("let x: int = \"a\";");
    assert_eq!(result, Err("Type Error occurred.".to_string()));
    let (out, result) = run("let x: int; x = 4; let y = x * 2; print(y);");
    assert_eq!(out, "8\n");
    assert_eq!(result, Ok(()));
}

#[test]
fn types_print_as_their_debug_text() {
    let mut out = String::from("got ");
    let t = CiprType::Callable(
        vec![CiprType::Int, CiprType::Pointer(Box::new(CiprType::Str)), CiprType::Struct("P".to_string())],
        Box::new(CiprType::Array(Box::new(CiprType::Void))),
    );
    push_type(&mut out, &t);
    assert_eq!(out, "got Callable([Int, Pointer(Str), Struct(\"P\")], Array(Void))");
    let mut empty = String::new();
    push_type(&mut empty, &CiprType::Callable(Vec::new(), Box::new(CiprType::Unknown)));
    assert_eq!(empty, "Callable([], Unknown)");
}

#[test]
fn run_outcomes_are_reported() {
    assert_eq!(report(&Ok(())), Ok(()));
    assert_eq!(report(&Err(CiprError::Return(RuntimeValue::Int(3)))), Ok(()));
    assert_eq!(report(&Err(CiprError::StepLimit)), Err("Runtime Error: Step limit reached.".to_string()));
    let token = Token::synthetic(TokenType::Identifier, "x", 12);
    let outcome = Err(CiprError::RuntimeError { token, message: "Undefined variable 'x'.".to_string() });
    assert_eq!(report(&outcome), Err("Runtime Error: Undefined variable 'x'.\n[line 12]".to_string()));
}

#[test]
fn native_functions_have_their_declared_types() {
    let (out, result) = run("let n: int = size(\"abc\"); let parts = split(\"a,b\", \",\"); print(n); print(parts[1]);");
    assert_eq!(out, "3\nb\n");
    assert_eq!(result, Ok(()));
    let (_, result) = run("let s: str = size(\"abc\");");
    assert_eq!(result, Err("Type Error occurred.".to_string()));
    let (_, result) = run("let t: int = trim(\" a \");");
    assert_eq!(result, Err("Type Error occurred.".to_string()));
}

#[test]
fn a_checked_program_prints_what_its_statements_print() {
    let mut core = Core::new();
    let mut diagnostics = Diagnostics::new();
    let source = "let x = 2;\n{ let x = 5; print(x); }\nif (x < 3) { print(x * 10); } else { print(0); }\nx = x + 1;\nprint(\"done \" + \"now\");\nprint(x);";
    let checked = match core.check(source, "t.cipr", &mut diagnostics) {
        Ok(c) => c,
        Err(m) => panic!("{}", m),
    };
    let (stdout, result, _) = run_checked(checked, STEPS);
    assert_eq!(stdout, "5\n20\ndone now\n3\n");
    assert_eq!(result, Ok(()));
}

#[test]
fn a_statement_that_fails_stops_the_program() {
    let (out, result) = run("print(1);\nlet y = 1 / 0;\nprint(2);");
    assert_eq!(out, "1\n");
    assert_eq!(result, Err("Runtime Error: Division by zero.\n[line 2]".to_string()));
}

#[test]
fn loops_run_their_body_while_the_condition_holds() {
    let mut core = Core::new();
    let mut diagnostics = Diagnostics::new();
    let source = "let i = 0;\nwhile (i < 3) { print(i); i = i + 1; }\nfor (let j = 5; j > 3; j = j - 1) { print(j * 2); }\nprint(i);";
    let checked = match core.check(source, "t.cipr", &mut diagnostics) {
        Ok(c) => c,
        Err(m) => panic!("{}", m),
    };
    let (stdout, result, _) = run_checked(checked, STEPS);
    assert_eq!(stdout, "0\n1\n2\n10\n8\n3\n");
    assert_eq!(result, Ok(()));
}

#[test]
fn functions_run_their_body_with_their_arguments() {
    let mut core = Core::new();
    let mut diagnostics = Diagnostics::new();
    let source = "fn fib(n: int): int { if (n < 2) { return n; } return fib(n - 1) + fib(n - 2); }\nlet total = 0;\nfn add(k: int): void { total = total + k; }\nadd(fib(10));\nadd(5);\nprint(total);\nprint(fib(15));";
    let checked = match core.check(source, "t.cipr", &mut diagnostics) {
        Ok(c) => c,
        Err(m) => panic!("{}", m),
    };
    let (stdout, result, _) = run_checked(checked, STEPS);
    assert_eq!(stdout, "60\n610\n");
    assert_eq!(result, Ok(()));
}

#[test]
fn natives_give_their_results_inside_programs() {
    let mut core = Core::new();
    let mut diagnostics = Diagnostics::new();
    let checked = match core.check("print(1);", "t.cipr", &mut diagnostics) {
        Ok(c) => c,
        Err(m) => panic!("{}", m),
    };
    let (stdout, _, _) = run_checked(checked, STEPS);
    assert_eq!(stdout, "1\n");
    let (out, result) = run(
        "let parts = split(\"a-b-c\", \"-\");\nprint(size(parts));\nprint(trim(\"  x \") + extract(\"<b>hi</b>\", \"<b>\", \"</b>\"));\nprint(hex(\"A\"));\nprint(base64_decode(base64_encode(\"ok\")));",
    );
    assert_eq!(out, "3\nxhi\n41\nok\n");
    assert_eq!(result, Ok(()));
}

#[test]
fn names_declared_in_a_block_end_with_it() {
    let (_, result) = run("{ let inner = 1; }\nprint(inner);");
    assert_eq!(result, Err("Type Error occurred.".to_string()));
    let (out, result) = run("let outer = 1;\n{ let inner = outer + 1; print(inner); }\nprint(outer);");
    assert_eq!(out, "2\n1\n");
    assert_eq!(result, Ok(()));
}

#[test]
fn a_function_is_known_by_its_signature() {
    let (_, result) = run("fn f(a: int): str { return \"x\"; }\nlet y: int = f(1);");
    assert_eq!(result, Err("Type Error occurred.".to_string()));
    let (out, result) = run("fn f(a: int): str { return \"x\"; }\nlet y: str = f(1);\nprint(y);");
    assert_eq!(out, "x\n");
    assert_eq!(result, Ok(()));
}
