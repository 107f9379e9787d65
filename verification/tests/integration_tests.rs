//! End-to-end tests: each program is scanned, parsed, type checked and
//! run, and what it printed is compared with what it should print.
use cipr::driver::Core;

/// The number of steps a test program may take.
const STEP_LIMIT: u64 = 10_000_000;

/// Runs `source` and asserts that it succeeds and prints exactly `expected`.
fn assert_output(source: &str, expected: &str) {
    let mut core = Core::new();
    let out = core.run(source, "test.cipr", STEP_LIMIT);
    assert!(
        out.result.is_ok(),
        "program failed to compile/run: {:?}\ndiagnostics:\n{}\nstdout:\n{}",
        out.result,
        out.diagnostics.render(),
        out.stdout
    );
    assert_eq!(out.stdout, expected, "stdout mismatch");
}

/// Asserts that `source` is refused before it runs.
fn assert_compile_error(source: &str) {
    let mut core = Core::new();
    let out = core.run(source, "test.cipr", STEP_LIMIT);
    assert!(
        out.result.is_err(),
        "expected a compile error but the program succeeded.\nstdout:\n{}",
        out.stdout
    );
    assert!(out.stdout.is_empty(), "a refused program printed:\n{}", out.stdout);
}

#[test]
fn let_int_with_annotation() {
    assert_output("let x: int = 42; print(x);", "42\n");
}

#[test]
fn let_str_with_annotation() {
    assert_output(r#"let s: str = "hello"; print(s);"#, "hello\n");
}

#[test]
fn let_bool_true() {
    assert_output("let b: bool = true; print(b);", "true\n");
}

#[test]
fn let_bool_false() {
    assert_output("let b: bool = false; print(b);", "false\n");
}

#[test]
fn let_int_type_inference() {
    assert_output("let x = 100; print(x);", "100\n");
}

#[test]
fn let_str_type_inference() {
    assert_output(r#"let s = "world"; print(s);"#, "world\n");
}

#[test]
fn let_bool_type_inference() {
    assert_output("let b = true; print(b);", "true\n");
}

#[test]
fn let_reassignment() {
    assert_output("let x: int = 1; x = 99; print(x);", "99\n");
}

#[test]
fn multiple_let_bindings() {
    assert_output(
        "let a: int = 1; let b: int = 2; let c: int = 3; print(a); print(b); print(c);",
        "1\n2\n3\n",
    );
}

#[test]
fn int_addition() {
    assert_output("print(2 + 3);", "5\n");
}

#[test]
fn int_subtraction() {
    assert_output("print(10 - 4);", "6\n");
}

#[test]
fn int_multiplication() {
    assert_output("print(3 * 4);", "12\n");
}

#[test]
fn int_division_truncates_toward_zero() {
    assert_output("print(10 / 3);", "3\n");
}

#[test]
fn operator_precedence_mul_before_add() {
    assert_output("print(2 + 3 * 4);", "14\n");
}

#[test]
fn operator_precedence_grouping() {
    assert_output("print((2 + 3) * 4);", "20\n");
}

#[test]
fn unary_minus_literal() {
    assert_output("print(-7);", "-7\n");
}

#[test]
fn unary_minus_variable() {
    assert_output("let x: int = 5; print(-x);", "-5\n");
}

#[test]
fn int_comparison_less_than_true() {
    assert_output("print(3 < 5);", "true\n");
}

#[test]
fn int_comparison_less_than_false() {
    assert_output("print(5 < 3);", "false\n");
}

#[test]
fn int_comparison_greater_than() {
    assert_output("print(5 > 3);", "true\n");
}

#[test]
fn int_comparison_less_equal_exact() {
    assert_output("print(3 <= 3);", "true\n");
}

#[test]
fn int_comparison_greater_equal_false() {
    assert_output("print(4 >= 5);", "false\n");
}

#[test]
fn int_equality() {
    assert_output("print(7 == 7);", "true\n");
}

#[test]
fn int_inequality() {
    assert_output("print(2 != 3);", "true\n");
}

#[test]
fn bool_literal_true() {
    assert_output("print(true);", "true\n");
}

#[test]
fn bool_literal_false() {
    assert_output("print(false);", "false\n");
}

#[test]
fn and_true_true() {
    assert_output("print(true and true);", "true\n");
}

#[test]
fn and_true_false() {
    assert_output("print(true and false);", "false\n");
}

#[test]
fn and_false_true() {
    assert_output("print(false and true);", "false\n");
}

#[test]
fn or_false_false() {
    assert_output("print(false or false);", "false\n");
}

#[test]
fn or_false_true() {
    assert_output("print(false or true);", "true\n");
}

#[test]
fn or_true_false() {
    assert_output("print(true or false);", "true\n");
}

#[test]
fn not_true() {
    assert_output("print(!true);", "false\n");
}

#[test]
fn not_false() {
    assert_output("print(!false);", "true\n");
}

#[test]
fn short_circuit_and_skips_rhs() {
    // If `and` short-circuits, the RHS 0 == 1 is never evaluated but the
    // overall result is just false — this verifies the value is correct.
    assert_output("print(false and 0 == 1);", "false\n");
}

#[test]
fn short_circuit_or_skips_rhs() {
    assert_output("print(true or 0 == 1);", "true\n");
}

#[test]
fn print_string_literal() {
    assert_output(r#"print("hello world");"#, "hello world\n");
}

#[test]
fn print_empty_string() {
    assert_output(r#"print("");"#, "\n");
}

#[test]
fn string_concat_with_plus() {
    assert_output(r#"print("foo" + "bar");"#, "foobar\n");
}

#[test]
fn string_concat_via_variables() {
    assert_output(
        r#"let a: str = "hello"; let b: str = " world"; print(a + b);"#,
        "hello world\n",
    );
}

#[test]
fn string_in_function_argument() {
            assert_output(
                r#"
    fn greet(name: str): void {
        print("Hello, " + name);
    }
    greet("Cipr");
    "#,
                "Hello, Cipr\n",
            );
}

#[test]
fn if_true_takes_then_branch() {
    assert_output("if (true) { print(1); } else { print(0); }", "1\n");
}

#[test]
fn if_false_takes_else_branch() {
    assert_output("if (false) { print(1); } else { print(0); }", "0\n");
}

#[test]
fn if_condition_from_comparison() {
    assert_output(
        "let x: int = 5; if (x > 3) { print(1); } else { print(0); }",
        "1\n",
    );
}

#[test]
fn nested_if_else() {
            assert_output(
                r#"
    let x: int = 2;
    if (x == 1) {
        print(100);
    } else {
        if (x == 2) {
            print(200);
        } else {
            print(300);
        }
    }
    "#,
                "200\n",
            );
}

#[test]
fn while_loop_three_iterations() {
            assert_output(
                r#"
    let i: int = 0;
    while (i < 3) {
        print(i);
        i = i + 1;
    }
    "#,
                "0\n1\n2\n",
            );
}

#[test]
fn while_loop_zero_iterations() {
    // Body never executes; stdout must be empty.
    assert_output("while (false) { print(99); }", "");
}

#[test]
fn for_loop_basic() {
    assert_output(
        "for (let i: int = 0; i < 4; i = i + 1) { print(i); }",
        "0\n1\n2\n3\n",
    );
}

#[test]
fn for_loop_accumulator() {
            assert_output(
                r#"
    let sum: int = 0;
    for (let i: int = 1; i <= 5; i = i + 1) {
        sum = sum + i;
    }
    print(sum);
    "#,
                "15\n",
            );
}

#[test]
fn early_return_from_if() {
            assert_output(
                r#"
    fn first_positive(a: int, b: int): int {
        if (a > 0) {
            return a;
        }
        return b;
    }
    print(first_positive(-1, 7));
    print(first_positive(3, 9));
    "#,
                "7\n3\n",
            );
}

#[test]
fn if_without_else() {
            assert_output(
                r#"
    let x: int = 10;
    if (x > 5) {
        print(x);
    }
    print(0);
    "#,
                "10\n0\n",
            );
}

#[test]
fn basic_function_with_return() {
            assert_output(
                r#"
    fn square(n: int): int {
        return n * n;
    }
    print(square(5));
    "#,
                "25\n",
            );
}

#[test]
fn multiple_parameters() {
            assert_output(
                r#"
    fn add(a: int, b: int): int {
        return a + b;
    }
    print(add(10, 32));
    "#,
                "42\n",
            );
}

#[test]
fn multiple_functions_called_in_sequence() {
            assert_output(
                r#"
    fn double(x: int): int { return x * 2; }
    fn triple(x: int): int { return x * 3; }
    print(double(5));
    print(triple(5));
    "#,
                "10\n15\n",
            );
}

#[test]
fn void_function_side_effect() {
            assert_output(
                r#"
    fn say(msg: str): void {
        print(msg);
    }
    say("hi");
    say("bye");
    "#,
                "hi\nbye\n",
            );
}

#[test]
fn function_calls_other_function() {
            assert_output(
                r#"
    fn add(a: int, b: int): int { return a + b; }
    fn sum3(a: int, b: int, c: int): int { return add(add(a, b), c); }
    print(sum3(1, 2, 3));
    "#,
                "6\n",
            );
}

#[test]
fn callback_variable_call() {
            assert_output(
                r#"
    fn double(n: int): int {
        return n * 2;
    }

    let cb: fn(int): int = double;
    print(cb(21));
    "#,
                "42\n",
            );
}

#[test]
fn callback_parameter_call() {
            assert_output(
                r#"
    fn square(n: int): int {
        return n * n;
    }

    fn apply(f: fn(int): int, x: int): int {
        return f(x);
    }

    print(apply(square, 9));
    "#,
                "81\n",
            );
}

#[test]
fn callback_nested_type_annotation() {
            assert_output(
                r#"
    fn inc(n: int): int { return n + 1; }
    fn compose_apply(g: fn(int): int, f: fn(int): int, x: int): int {
        return g(f(x));
    }
    print(compose_apply(inc, inc, 5));
    "#,
                "7\n",
            );
}

#[test]
fn array_literal_and_index_read() {
            assert_output(
                r#"
    let arr = [10, 20, 30];
    print(arr[0]);
    print(arr[1]);
    print(arr[2]);
    "#,
                "10\n20\n30\n",
            );
}

#[test]
fn undefined_variable_is_compile_error() {
    assert_compile_error("print(undefined_variable);");
}

#[test]
fn type_mismatch_in_let_is_compile_error() {
    assert_compile_error(r#"let x: int = "not an int"; print(x);"#);
}

#[test]
fn undefined_function_call_is_compile_error() {
    assert_compile_error("let x: int = totally_made_up(1, 2); print(x);");
}

#[test]
fn wrong_number_of_args_is_compile_error() {
            assert_compile_error(
                r#"
    fn add(a: int, b: int): int { return a + b; }
    print(add(1));
    "#,
            );
}
