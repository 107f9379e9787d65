//! The front end (scanning, parsing, type checking) on programs with
//! structs, pointers and the heap, through `Core::check`.
use cipr::ast::CiprType;
use cipr::diagnostics::Diagnostics;
use cipr::driver::Core;
use cipr::lowering::{binary_instruction, BinaryInstr, FloatCompare, IntCompare, UnsupportedBinary};
use cipr::token::TokenType;

/// Checks `source`; gives the failure message, if any, and how many
/// diagnostics were reported.
fn check(source: &str) -> (Result<(), String>, usize) {
    let mut core = Core::new();
    let mut diagnostics = Diagnostics::new();
    let r = core.check(source, "t.cipr", &mut diagnostics);
    (r.map(|_| ()), diagnostics.len())
}

fn assert_checks(source: &str) {
    let (r, n) = check(source);
    assert_eq!(r, Ok(()), "the program was refused");
    assert_eq!(n, 0);
}

fn assert_type_error(source: &str) {
    let (r, n) = check(source);
    assert_eq!(r, Err("Type Error occurred.".to_string()));
    assert!(n > 0);
}

#[test]
fn front_end_struct_init_and_field_read() {
    assert_checks("struct Vec2 { x: int, y: int }\nlet v: Vec2 = Vec2 { x: 10, y: 20 };\nprint(v.x);\nprint(v.y);\n");
}

#[test]
fn front_end_struct_field_mutation() {
    assert_checks("struct Counter { val: int }\nlet c: Counter = Counter { val: 0 };\nc.val = 42;\nprint(c.val);\n");
}

#[test]
fn front_end_pointer_to_struct_through_fn() {
    assert_checks(
        "struct Point { x: int, y: int }\nfn translate(p: @Point, dx: int, dy: int): void {\n    p.x = p.x + dx;\n    p.y = p.y + dy;\n}\nlet pt: Point = Point { x: 5, y: 10 };\nlet ptr: @Point = @pt;\ntranslate(ptr, 3, 4);\nprint(pt.x);\n",
    );
}

#[test]
fn front_end_deref_then_field_assign() {
    assert_checks("struct Box { val: int }\nlet b: Box = Box { val: 1 };\nlet p: @Box = @b;\np@.val = 99;\nprint(b.val);\n");
}

#[test]
fn front_end_new_and_delete() {
    assert_checks("struct Node { val: int }\nlet n: @Node = new Node(99);\nprint(n.val);\ndelete n;\n");
}

#[test]
fn front_end_address_of_and_assign_through_pointer() {
    assert_checks("let x: int = 10;\nlet p: @int = @x;\np@ = 25;\nprint(x);\n");
}

#[test]
fn front_end_wrong_field_order_is_refused() {
    assert_type_error("struct Vec2 { x: int, y: int }\nlet v: Vec2 = Vec2 { y: 1, x: 2 };\n");
}

#[test]
fn front_end_wrong_field_type_is_refused() {
    assert_type_error("struct Vec2 { x: int, y: int }\nlet v: Vec2 = Vec2 { x: true, y: 2 };\n");
}

#[test]
fn front_end_new_with_wrong_argument_count_is_refused() {
    assert_type_error("struct Pair { a: int, b: int }\nlet p: @Pair = new Pair(1);\n");
}

#[test]
fn front_end_undefined_struct_is_refused() {
    assert_type_error("let v: int = Missing { x: 1 };\n");
}

#[test]
fn front_end_delete_of_non_pointer_is_refused() {
    assert_type_error("let x: int = 1;\ndelete x;\n");
}

#[test]
fn front_end_null_compared_with_pointer_checks() {
    assert_checks("let x: int = 1;\nlet p: @int = @x;\nprint(p == null);\n");
}

#[test]
fn front_end_string_concat_has_no_error() {
    assert_checks("print(\"foo\" + \"bar\");\n");
}

#[test]
fn front_end_mismatched_operands_are_refused() {
    assert_type_error("print(1 + \"a\");\n");
}

#[test]
fn front_end_parse_error_is_reported_as_such() {
    let (r, n) = check("let = ;\n");
    assert_eq!(r, Err("Parser errors occurred.".to_string()));
    assert!(n > 0);
}

#[test]
fn front_end_scan_error_is_reported_as_such() {
    let (r, n) = check("let x: int = 1 $ 2;\n");
    assert_eq!(r, Err("Scanner errors occurred.".to_string()));
    assert!(n > 0);
}

#[test]
fn diagnostics_default_is_empty() {
    let d = Diagnostics::default();
    assert_eq!(d.len(), 0);
}

#[test]
fn lowering_picks_signed_integer_division() {
    assert_eq!(binary_instruction(TokenType::Slash, &CiprType::Int), Ok(BinaryInstr::IntSignedDiv));
    assert_eq!(binary_instruction(TokenType::Less, &CiprType::Int), Ok(BinaryInstr::IntCompare(IntCompare::Slt)));
    assert_eq!(
        binary_instruction(TokenType::GreaterEqual, &CiprType::Float),
        Ok(BinaryInstr::FloatCompare(FloatCompare::Oge))
    );
    assert_eq!(binary_instruction(TokenType::Plus, &CiprType::Bool), Err(UnsupportedBinary::BoolOp));
    assert_eq!(
        binary_instruction(TokenType::EqualEqual, &CiprType::Pointer(Box::new(CiprType::Int))),
        Ok(BinaryInstr::PointerCompare(IntCompare::Eq))
    );
    assert_eq!(binary_instruction(TokenType::Plus, &CiprType::Str), Err(UnsupportedBinary::OperandType));
}

#[test]
fn step_limit_is_reported_only_when_the_budget_is_spent() {
    let mut core = Core::new();
    let out = core.run("let i: int = 0;\nwhile (true) { i = i + 1; }\n", "t.cipr", 1000);
    assert_eq!(out.result, Err("Runtime Error: Step limit reached.".to_string()));
    assert_eq!(out.steps_left, 0);
    let out = core.run("print(1);\n", "t.cipr", 1000);
    assert_eq!(out.result, Ok(()));
    assert!(out.steps_left > 0);
}
