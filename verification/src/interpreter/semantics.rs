//! What evaluating an expression and running a statement do: the value or
//! error they give, the scopes they leave and the text they print.
//!
//! Each rule takes a fuel: calling a declared function and running one more
//! round of a loop spend one unit. A rule gives `None` where the fuel runs
//! out, and where evaluation reaches what these rules leave open: a call of
//! the native `rand`.
use vstd::prelude::*;
use vstd::utf8::encode_utf8;

use crate::ast::{Node, NodeId, NodeType};
use crate::diagnostics::decimal_text;
use crate::environment::{assign_target, lookup_in, undefined_message, ScopeModel};
use crate::interpreter::value::{native_arity, stringify, truthy, NativeFn, RuntimeValue, SpecRuntime};
use crate::interpreter::{binary_result, child_at, index_result, literal_result, unary_result, CiprError};
use crate::native::crypto::{b64_decode_spec, b64_encode_spec, hex_text, utf8_lossy};
use crate::native::string::{extract_spec, split_spec, trimmed};
use crate::token::TokenType;
use crate::type_checker::growth::measure;

verus! {

/// How a statement stops before its end: with a runtime error, or with a
/// `return` that carries a value to the call it leaves.
pub enum Stop {
    Fail(Seq<char>),
    Return(SpecRuntime),
}

/// What evaluating an expression gives: its value or the message of its
/// error, the scopes afterwards and the text it printed.
pub struct Evaluation {
    pub result: Result<SpecRuntime, Seq<char>>,
    pub scopes: Seq<ScopeModel>,
    pub out: Seq<char>,
}

/// What evaluating a list of expressions in order gives.
pub struct Evaluations {
    pub result: Result<Seq<SpecRuntime>, Seq<char>>,
    pub scopes: Seq<ScopeModel>,
    pub out: Seq<char>,
}

/// What running a statement gives: whether it ran to its end, the scopes
/// afterwards and the text it printed.
pub struct Outcome {
    pub result: Result<(), Stop>,
    pub scopes: Seq<ScopeModel>,
    pub out: Seq<char>,
}

/// The scopes `scopes` where scope `at` also binds `name` to `v`.
pub open spec fn with_var(scopes: Seq<ScopeModel>, at: int, name: Seq<char>, v: SpecRuntime) -> Seq<ScopeModel> {
    scopes.update(at, ScopeModel { vars: scopes[at].vars.insert(name, v), parent: scopes[at].parent })
}

/// An expression that gives `result` without changing anything.
pub open spec fn gives(scopes: Seq<ScopeModel>, result: Result<SpecRuntime, Seq<char>>) -> Evaluation {
    Evaluation { result, scopes, out: Seq::empty() }
}

/// A statement that ends normally, leaving `scopes` and printing nothing.
pub open spec fn quiet(scopes: Seq<ScopeModel>) -> Outcome {
    Outcome { result: Ok(()), scopes, out: Seq::empty() }
}

/// The statement form of evaluating an expression: it ends where the
/// expression has a value and stops with its error otherwise.
pub open spec fn as_statement(e: Evaluation) -> Outcome {
    Outcome {
        result: match e.result {
            Ok(_) => Ok(()),
            Err(m) => Err(Stop::Fail(m)),
        },
        scopes: e.scopes,
        out: e.out,
    }
}

/// The message for a call with the wrong number of arguments.
pub open spec fn arity_message(expected: nat, got: nat) -> Seq<char> {
    "Expected "@ + decimal_text(expected) + " arguments but got "@ + decimal_text(got) + "."@
}

/// The name of the parameter or variable that node `p` declares.
pub open spec fn declared_name(nodes: Seq<Node>, p: NodeId) -> Seq<char> {
    if p.0 < nodes.len() {
        nodes[p.0 as int].token.lexeme@
    } else {
        Seq::empty()
    }
}

/// The scopes after binding, in scope `frame`, the first `k` parameters
/// that the declaration `decl` names to the first `k` arguments.
pub open spec fn bind_params(
    nodes: Seq<Node>,
    scopes: Seq<ScopeModel>,
    frame: int,
    decl: NodeId,
    args: Seq<SpecRuntime>,
    k: nat,
) -> Seq<ScopeModel>
    decreases k,
{
    if k == 0 {
        scopes
    } else {
        let s = bind_params(nodes, scopes, frame, decl, args, (k - 1) as nat);
        match child_at(nodes, decl, k - 1) {
            Some(p) => with_var(s, frame, declared_name(nodes, p), args[k - 1]),
            None => s,
        }
    }
}

/// The number of children of node `id`.
pub open spec fn child_count(nodes: Seq<Node>, id: NodeId) -> nat {
    if id.0 < nodes.len() {
        nodes[id.0 as int].children@.len()
    } else {
        0
    }
}

/// What evaluating the `k`-th child of `id` gives: null where there is none.
pub open spec fn eval_child(nodes: Seq<Node>, scopes: Seq<ScopeModel>, env: int, id: NodeId, k: int, fuel: nat) -> Option<
    Evaluation,
>
    decreases fuel, measure(nodes, id), 0nat, 0nat,
{
    match child_at(nodes, id, k) {
        None => Some(gives(scopes, Ok(SpecRuntime::Null))),
        Some(c) => if measure(nodes, c) < measure(nodes, id) {
            eval_node(nodes, scopes, env, c, fuel)
        } else {
            None
        },
    }
}

/// What evaluating the children of `id` from position `start` up to `k`
/// gives, in order, each in the scopes the one before left: their values
/// (missing children skipped), or the first error.
pub open spec fn eval_args(
    nodes: Seq<Node>,
    scopes: Seq<ScopeModel>,
    env: int,
    id: NodeId,
    start: nat,
    k: nat,
    fuel: nat,
) -> Option<Evaluations>
    decreases fuel, measure(nodes, id), 1nat, k,
{
    if k <= start {
        Some(Evaluations { result: Ok(Seq::empty()), scopes, out: Seq::empty() })
    } else {
        match eval_args(nodes, scopes, env, id, start, (k - 1) as nat, fuel) {
            Some(before) => match before.result {
                Ok(values) => match child_at(nodes, id, k - 1) {
                    None => Some(before),
                    Some(c) => if measure(nodes, c) < measure(nodes, id) {
                        match eval_node(nodes, before.scopes, env, c, fuel) {
                            Some(e) => Some(
                                Evaluations {
                                    result: match e.result {
                                        Ok(v) => Ok(values.push(v)),
                                        Err(m) => Err(m),
                                    },
                                    scopes: e.scopes,
                                    out: before.out + e.out,
                                },
                            ),
                            None => None,
                        }
                    } else {
                        None
                    },
                },
                Err(_) => Some(before),
            },
            None => None,
        }
    }
}

/// What evaluating `first` and then, where it gives a value, the `k`-th
/// child of `id` gives, combined by `combine`.
pub open spec fn then_child(
    nodes: Seq<Node>,
    first: Evaluation,
    env: int,
    id: NodeId,
    k: int,
    fuel: nat,
    combine: spec_fn(SpecRuntime, SpecRuntime) -> Result<SpecRuntime, Seq<char>>,
) -> Option<Evaluation>
    decreases fuel, measure(nodes, id), 0nat, 1nat,
{
    match first.result {
        Ok(a) => match eval_child(nodes, first.scopes, env, id, k, fuel) {
            Some(second) => Some(
                Evaluation {
                    result: match second.result {
                        Ok(b) => combine(a, b),
                        Err(m) => Err(m),
                    },
                    scopes: second.scopes,
                    out: first.out + second.out,
                },
            ),
            None => None,
        },
        Err(_) => Some(first),
    }
}

/// What a native function other than `print` gives on `args`: the size of
/// an array or of the UTF-8 text of a string, a trimmed string, the pieces
/// of a split, the text between two markers, the hexadecimal or Base64
/// text of a string's UTF-8 bytes, or the text of decoded Base64. `None`
/// for `print`, which prints, and `rand`, whose result is drawn at random.
pub open spec fn native_result(f: NativeFn, args: Seq<SpecRuntime>) -> Option<SpecRuntime> {
    match f {
        NativeFn::Size => Some(
            match args[0] {
                SpecRuntime::Items(elems) => SpecRuntime::Int(elems.len() as i64 as int),
                SpecRuntime::Str(s) => SpecRuntime::Int(encode_utf8(s).len() as usize as i64 as int),
                _ => SpecRuntime::Int(0),
            },
        ),
        NativeFn::Trim => Some(
            match args[0] {
                SpecRuntime::Str(s) => SpecRuntime::Str(trimmed(s)),
                other => other,
            },
        ),
        NativeFn::Split => Some(
            match (args[0], args[1]) {
                (SpecRuntime::Str(s), SpecRuntime::Str(d)) => SpecRuntime::Items(
                    split_spec(s, d).map_values(|piece: Seq<char>| SpecRuntime::Str(piece)),
                ),
                _ => SpecRuntime::Items(Seq::empty()),
            },
        ),
        NativeFn::Extract => Some(
            match (args[0], args[1], args[2]) {
                (SpecRuntime::Str(s), SpecRuntime::Str(a), SpecRuntime::Str(b)) => match extract_spec(s, a, b) {
                    Some(x) => SpecRuntime::Str(x),
                    None => SpecRuntime::Null,
                },
                _ => SpecRuntime::Null,
            },
        ),
        NativeFn::Hex => Some(
            match args[0] {
                SpecRuntime::Str(s) => SpecRuntime::Str(hex_text(encode_utf8(s))),
                _ => SpecRuntime::Null,
            },
        ),
        NativeFn::Base64Encode => Some(
            match args[0] {
                SpecRuntime::Str(s) => SpecRuntime::Str(b64_encode_spec(encode_utf8(s))),
                _ => SpecRuntime::Null,
            },
        ),
        NativeFn::Base64Decode => Some(
            match args[0] {
                SpecRuntime::Str(s) => SpecRuntime::Str(utf8_lossy(b64_decode_spec(s))),
                _ => SpecRuntime::Null,
            },
        ),
        _ => None,
    }
}

/// What calling `callee` with `args` gives: a declared function runs its
/// body in a new scope inside the scope it was declared in, where its
/// parameters name the arguments, and gives what its `return` carries (null
/// where it runs to its end); the native `print` prints the text of its
/// argument and a newline; the other native functions give what
/// [`native_result`] says.
pub open spec fn call_result(
    nodes: Seq<Node>,
    scopes: Seq<ScopeModel>,
    callee: SpecRuntime,
    args: Seq<SpecRuntime>,
    fuel: nat,
) -> Option<Evaluation>
    decreases fuel, 0nat, 0nat, 0nat,
{
    match callee {
        SpecRuntime::Function(_, arity, decl, closure) => if args.len() != arity {
            Some(gives(scopes, Err(arity_message(arity as nat, args.len()))))
        } else if scopes.len() >= usize::MAX {
            Some(gives(scopes, Err("Too many scopes."@)))
        } else if fuel == 0 {
            None
        } else {
            let frame = scopes.len() as int;
            let parent = if 0 <= closure < scopes.len() { closure } else { 0 };
            let d = NodeId(decl as usize);
            let bound = bind_params(
                nodes,
                scopes.push(ScopeModel { vars: Map::empty(), parent }),
                frame,
                d,
                args,
                args.len(),
            );
            let n = child_count(nodes, d);
            match if n > 0 { child_at(nodes, d, n - 1) } else { None } {
                None => Some(gives(bound, Ok(SpecRuntime::Null))),
                Some(body) => match exec_children(nodes, bound, frame, body, child_count(nodes, body), (fuel - 1) as nat) {
                    Some(o) => Some(
                        Evaluation {
                            result: match o.result {
                                Ok(()) => Ok(SpecRuntime::Null),
                                Err(Stop::Return(v)) => Ok(v),
                                Err(Stop::Fail(m)) => Err(m),
                            },
                            scopes: o.scopes,
                            out: o.out,
                        },
                    ),
                    None => None,
                },
            }
        },
        SpecRuntime::Native(f) => if args.len() != native_arity(f) {
            Some(gives(scopes, Err(arity_message(native_arity(f), args.len()))))
        } else if f == NativeFn::Print {
            Some(Evaluation { result: Ok(SpecRuntime::Null), scopes, out: stringify(args[0]) + "\n"@ })
        } else {
            match native_result(f, args) {
                Some(v) => Some(gives(scopes, Ok(v))),
                None => None,
            }
        },
        _ => Some(gives(scopes, Err("Can only call functions and classes."@))),
    }
}

/// What evaluating expression `id` in scope `env` of `scopes` gives: the
/// operands are evaluated from left to right, each in the scopes the one
/// before left, and the first error stops the rest.
pub open spec fn eval_node(nodes: Seq<Node>, scopes: Seq<ScopeModel>, env: int, id: NodeId, fuel: nat) -> Option<
    Evaluation,
>
    decreases fuel, measure(nodes, id), 2nat, 0nat,
{
    if id.0 >= nodes.len() {
        Some(gives(scopes, Ok(SpecRuntime::Null)))
    } else {
        let n = nodes[id.0 as int];
        let op = n.token.token_type;
        let name = n.token.lexeme@;
        match n.node_type {
            NodeType::Literal => Some(gives(scopes, literal_result(n.value))),
            NodeType::Grouping => eval_child(nodes, scopes, env, id, 0, fuel),
            NodeType::Unary => match eval_child(nodes, scopes, env, id, 0, fuel) {
                Some(e) => Some(
                    Evaluation {
                        result: match e.result {
                            Ok(v) => unary_result(op, v),
                            Err(m) => Err(m),
                        },
                        ..e
                    },
                ),
                None => None,
            },
            NodeType::Binary => match eval_child(nodes, scopes, env, id, 0, fuel) {
                Some(e) => then_child(nodes, e, env, id, 1, fuel, |l: SpecRuntime, r: SpecRuntime| binary_result(op, l, r)),
                None => None,
            },
            NodeType::IndexGet => match eval_child(nodes, scopes, env, id, 0, fuel) {
                Some(e) => then_child(nodes, e, env, id, 1, fuel, |t: SpecRuntime, i: SpecRuntime| index_result(t, i)),
                None => None,
            },
            NodeType::Logical => match eval_child(nodes, scopes, env, id, 0, fuel) {
                Some(e) => match e.result {
                    Ok(l) => if (op == TokenType::Or && truthy(l)) || (op == TokenType::And && !truthy(l)) {
                        Some(e)
                    } else {
                        then_child(nodes, e, env, id, 1, fuel, |l: SpecRuntime, r: SpecRuntime| Ok(r))
                    },
                    Err(_) => Some(e),
                },
                None => None,
            },
            NodeType::VarExpr => Some(
                gives(
                    scopes,
                    match lookup_in(scopes, env, name) {
                        Some(v) => Ok(v),
                        None => Err(undefined_message(name)),
                    },
                ),
            ),
            NodeType::Assign => match eval_child(nodes, scopes, env, id, 0, fuel) {
                Some(e) => match e.result {
                    Ok(v) => match assign_target(e.scopes, env, name) {
                        Some(t) => Some(Evaluation { scopes: with_var(e.scopes, t, name, v), ..e }),
                        None => Some(Evaluation { result: Err(undefined_message(name)), ..e }),
                    },
                    Err(_) => Some(e),
                },
                None => None,
            },
            NodeType::Array => match eval_args(nodes, scopes, env, id, 0, n.children@.len(), fuel) {
                Some(items) => Some(
                    Evaluation {
                        result: match items.result {
                            Ok(values) => Ok(SpecRuntime::Items(values)),
                            Err(m) => Err(m),
                        },
                        scopes: items.scopes,
                        out: items.out,
                    },
                ),
                None => None,
            },
            NodeType::Call => match eval_child(nodes, scopes, env, id, 0, fuel) {
                Some(e) => match e.result {
                    Ok(callee) => match eval_args(nodes, e.scopes, env, id, 1, n.children@.len(), fuel) {
                        Some(items) => match items.result {
                            Ok(args) => match call_result(nodes, items.scopes, callee, args, fuel) {
                                Some(c) => Some(
                                    Evaluation { result: c.result, scopes: c.scopes, out: e.out + items.out + c.out },
                                ),
                                None => None,
                            },
                            Err(m) => Some(Evaluation { result: Err(m), scopes: items.scopes, out: e.out + items.out }),
                        },
                        None => None,
                    },
                    Err(_) => Some(e),
                },
                None => None,
            },
            _ => Some(gives(scopes, Ok(SpecRuntime::Null))),
        }
    }
}

/// What running the `k`-th child of `id` does: nothing where there is none.
pub open spec fn exec_child(nodes: Seq<Node>, scopes: Seq<ScopeModel>, env: int, id: NodeId, k: int, fuel: nat) -> Option<
    Outcome,
>
    decreases fuel, measure(nodes, id), 0nat, 0nat,
{
    match child_at(nodes, id, k) {
        None => Some(quiet(scopes)),
        Some(c) => if measure(nodes, c) < measure(nodes, id) {
            exec_node(nodes, scopes, env, c, fuel)
        } else {
            None
        },
    }
}

/// What running the first `k` children of `id` in order, in scope `env`,
/// does: each runs in the scopes the one before left, and the first that
/// stops early stops the rest.
pub open spec fn exec_children(nodes: Seq<Node>, scopes: Seq<ScopeModel>, env: int, id: NodeId, k: nat, fuel: nat) -> Option<
    Outcome,
>
    decreases fuel, measure(nodes, id), 1nat, k,
{
    if k == 0 {
        Some(quiet(scopes))
    } else {
        match exec_children(nodes, scopes, env, id, (k - 1) as nat, fuel) {
            Some(o) => if o.result is Ok {
                match child_at(nodes, id, k - 1) {
                    None => Some(o),
                    Some(c) => if measure(nodes, c) < measure(nodes, id) {
                        match exec_node(nodes, o.scopes, env, c, fuel) {
                            Some(o2) => Some(Outcome { result: o2.result, scopes: o2.scopes, out: o.out + o2.out }),
                            None => None,
                        }
                    } else {
                        None
                    },
                }
            } else {
                Some(o)
            },
            None => None,
        }
    }
}

/// What running statement `id` in scope `env` of `scopes` does: a list
/// runs its statements in order; a block runs them in a new scope inside
/// `env`; a declaration binds its name in `env` to the value of its
/// initializer; a function declaration binds its name to the function; an
/// `if` runs the branch its condition chooses; a `while` runs its body
/// while its condition holds; a `return` stops with the value it carries;
/// any other node is evaluated as an expression.
pub open spec fn exec_node(nodes: Seq<Node>, scopes: Seq<ScopeModel>, env: int, id: NodeId, fuel: nat) -> Option<Outcome>
    decreases fuel, measure(nodes, id), 3nat, 0nat,
{
    if id.0 >= nodes.len() {
        Some(quiet(scopes))
    } else {
        let n = nodes[id.0 as int];
        let name = n.token.lexeme@;
        match n.node_type {
            NodeType::StmtList | NodeType::StmtInclude => exec_children(nodes, scopes, env, id, n.children@.len(), fuel),
            NodeType::StmtBlock => if scopes.len() >= usize::MAX {
                Some(Outcome { result: Err(Stop::Fail("Too many scopes."@)), scopes, out: Seq::empty() })
            } else {
                exec_children(
                    nodes,
                    scopes.push(ScopeModel { vars: Map::empty(), parent: env }),
                    scopes.len() as int,
                    id,
                    n.children@.len(),
                    fuel,
                )
            },
            NodeType::StmtVarDecl => match eval_child(nodes, scopes, env, id, 0, fuel) {
                Some(e) => Some(
                    match e.result {
                        Ok(v) => Outcome { result: Ok(()), scopes: with_var(e.scopes, env, name, v), out: e.out },
                        Err(m) => as_statement(e),
                    },
                ),
                None => None,
            },
            NodeType::StmtExpr => match eval_child(nodes, scopes, env, id, 0, fuel) {
                Some(e) => Some(as_statement(e)),
                None => None,
            },
            NodeType::StmtIf => match child_at(nodes, id, 0) {
                None => Some(quiet(scopes)),
                Some(_) => match eval_child(nodes, scopes, env, id, 0, fuel) {
                    Some(e) => match e.result {
                        Ok(c) => match exec_child(nodes, e.scopes, env, id, if truthy(c) { 1 } else { 2 }, fuel) {
                            Some(o) => Some(Outcome { result: o.result, scopes: o.scopes, out: e.out + o.out }),
                            None => None,
                        },
                        Err(_) => Some(as_statement(e)),
                    },
                    None => None,
                },
            },
            NodeType::StmtWhile => if child_at(nodes, id, 0) is Some && child_at(nodes, id, 1) is Some {
                if fuel == 0 {
                    None
                } else {
                    match eval_child(nodes, scopes, env, id, 0, fuel) {
                        Some(e) => match e.result {
                            Ok(c) => if !truthy(c) {
                                Some(as_statement(e))
                            } else {
                                match exec_child(nodes, e.scopes, env, id, 1, fuel) {
                                    Some(b) => if b.result is Ok {
                                        match exec_node(nodes, b.scopes, env, id, (fuel - 1) as nat) {
                                            Some(rest) => Some(
                                                Outcome {
                                                    result: rest.result,
                                                    scopes: rest.scopes,
                                                    out: e.out + b.out + rest.out,
                                                },
                                            ),
                                            None => None,
                                        }
                                    } else {
                                        Some(Outcome { result: b.result, scopes: b.scopes, out: e.out + b.out })
                                    },
                                    None => None,
                                }
                            },
                            Err(_) => Some(as_statement(e)),
                        },
                        None => None,
                    }
                }
            } else {
                Some(quiet(scopes))
            },
            NodeType::StmtFunction => {
                let params = if n.children@.len() > 0 { n.children@.len() - 1 } else { 0 };
                Some(quiet(with_var(scopes, env, name, SpecRuntime::Function(name, params, id.0 as int, env))))
            },
            NodeType::StmtReturn => match eval_child(nodes, scopes, env, id, 0, fuel) {
                Some(e) => Some(
                    match e.result {
                        Ok(v) => Outcome { result: Err(Stop::Return(v)), scopes: e.scopes, out: e.out },
                        Err(_) => as_statement(e),
                    },
                ),
                None => None,
            },
            _ => match eval_node(nodes, scopes, env, id, fuel) {
                Some(e) => Some(as_statement(e)),
                None => None,
            },
        }
    }
}

/// Whether running statement `id` stops, with some fuel.
pub open spec fn stops(nodes: Seq<Node>, scopes: Seq<ScopeModel>, env: int, id: NodeId) -> bool {
    exists|f: nat| #[trigger] exec_node(nodes, scopes, env, id, f) is Some
}

/// A fuel with which running statement `id` stops, where it does.
pub open spec fn run_fuel(nodes: Seq<Node>, scopes: Seq<ScopeModel>, env: int, id: NodeId) -> nat {
    choose|f: nat| #[trigger] exec_node(nodes, scopes, env, id, f) is Some
}

/// What running statement `id` does, where it stops.
pub open spec fn run_outcome(nodes: Seq<Node>, scopes: Seq<ScopeModel>, env: int, id: NodeId) -> Option<Outcome> {
    if stops(nodes, scopes, env, id) {
        exec_node(nodes, scopes, env, id, run_fuel(nodes, scopes, env, id))
    } else {
        None
    }
}

/// A fuel with which running the children of `id` stops, where it does.
pub open spec fn block_fuel(nodes: Seq<Node>, scopes: Seq<ScopeModel>, env: int, id: NodeId) -> nat {
    choose|f: nat| #[trigger] exec_children(nodes, scopes, env, id, child_count(nodes, id), f) is Some
}

/// What running the children of `id` in scope `env` does, where it stops.
pub open spec fn block_outcome(nodes: Seq<Node>, scopes: Seq<ScopeModel>, env: int, id: NodeId) -> Option<Outcome> {
    if exists|f: nat| #[trigger] exec_children(nodes, scopes, env, id, child_count(nodes, id), f) is Some {
        exec_children(nodes, scopes, env, id, child_count(nodes, id), block_fuel(nodes, scopes, env, id))
    } else {
        None
    }
}

/// Whether an evaluation that returned `r` did what `e` says: gave the
/// same value or stopped with the same message, left the scopes `after`
/// and printed `e.out` after `before`; or ran out of steps, after which
/// nothing is promised.
pub open spec fn yields(
    r: Result<RuntimeValue, CiprError>,
    e: Evaluation,
    after: Seq<ScopeModel>,
    before: Seq<char>,
    printed: Seq<char>,
) -> bool {
    ||| r matches Err(CiprError::StepLimit)
    ||| (r matches Ok(v) && e.result == Ok::<SpecRuntime, Seq<char>>(v@) && after == e.scopes && printed == before
        + e.out)
    ||| (r matches Err(CiprError::RuntimeError { message, .. }) && e.result == Err::<SpecRuntime, Seq<char>>(message@)
        && after == e.scopes && printed == before + e.out)
}

/// Whether a statement that returned `r` did what `o` says: ended the
/// same way, left the scopes `after` and printed `o.out` after `before`;
/// or ran out of steps, after which nothing is promised.
pub open spec fn follows(
    r: Result<(), CiprError>,
    o: Outcome,
    after: Seq<ScopeModel>,
    before: Seq<char>,
    printed: Seq<char>,
) -> bool {
    ||| r matches Err(CiprError::StepLimit)
    ||| (r is Ok && o.result is Ok && after == o.scopes && printed == before + o.out)
    ||| (r matches Err(CiprError::RuntimeError { message, .. }) && o.result == Err::<(), Stop>(Stop::Fail(message@))
        && after == o.scopes && printed == before + o.out)
    ||| (r matches Err(CiprError::Return(v)) && o.result == Err::<(), Stop>(Stop::Return(v@)) && after == o.scopes
        && printed == before + o.out)
}

/// Text printed in two parts is the same however the parts are grouped.
pub broadcast proof fn lemma_output_grouping(a: Seq<char>, b: Seq<char>, c: Seq<char>)
    ensures
        #[trigger] ((a + b) + c) == a + (b + c),
{
    assert((a + b) + c =~= a + (b + c));
}

/// Printing nothing leaves the text as it was.
pub broadcast proof fn lemma_output_nothing(a: Seq<char>)
    ensures
        #[trigger] (a + Seq::<char>::empty()) == a,
{
    assert(a + Seq::<char>::empty() =~= a);
}

/// A variable reads back the value its declaration bound: after a
/// declaration `let name = init;` runs to its end in scope `env`, looking
/// `name` up from `env` finds the value of `init`.
pub proof fn law_declaration_then_read(nodes: Seq<Node>, scopes: Seq<ScopeModel>, env: int, id: NodeId, fuel: nat)
    requires
        id.0 < nodes.len(),
        nodes[id.0 as int].node_type == NodeType::StmtVarDecl,
        eval_child(nodes, scopes, env, id, 0, fuel) matches Some(e) && (e.result is Ok && 0 <= env < e.scopes.len()),
    ensures
        exec_node(nodes, scopes, env, id, fuel) matches Some(o) && o.result is Ok && lookup_in(
            o.scopes,
            env,
            nodes[id.0 as int].token.lexeme@,
        ) == Some(eval_child(nodes, scopes, env, id, 0, fuel)->0.result->Ok_0),
{
    let e = eval_child(nodes, scopes, env, id, 0, fuel)->0;
    crate::environment::law_define_then_lookup(e.scopes, env, nodes[id.0 as int].token.lexeme@, e.result->Ok_0);
}

/// A variable reads back the value last assigned to it: after an
/// assignment `name = value` gives a value in scope `env`, looking `name`
/// up from `env` finds that value.
pub proof fn law_assignment_then_read(nodes: Seq<Node>, scopes: Seq<ScopeModel>, env: int, id: NodeId, fuel: nat)
    requires
        id.0 < nodes.len(),
        nodes[id.0 as int].node_type == NodeType::Assign,
        eval_node(nodes, scopes, env, id, fuel) matches Some(a) && a.result is Ok,
    ensures
        lookup_in(eval_node(nodes, scopes, env, id, fuel)->0.scopes, env, nodes[id.0 as int].token.lexeme@) == Some(
            eval_node(nodes, scopes, env, id, fuel)->0.result->Ok_0,
        ),
{
    let e = eval_child(nodes, scopes, env, id, 0, fuel)->0;
    crate::environment::law_assign_then_lookup(e.scopes, env, nodes[id.0 as int].token.lexeme@, e.result->Ok_0);
}

/// Where evaluating `n` children has an outcome, so has evaluating fewer.
pub proof fn lemma_eval_args_prefix(
    nodes: Seq<Node>,
    scopes: Seq<ScopeModel>,
    env: int,
    id: NodeId,
    start: nat,
    k: nat,
    n: nat,
    fuel: nat,
)
    requires
        k <= n,
        eval_args(nodes, scopes, env, id, start, n, fuel) is Some,
    ensures
        eval_args(nodes, scopes, env, id, start, k, fuel) is Some,
    decreases n - k,
{
    if k < n {
        lemma_eval_args_prefix(nodes, scopes, env, id, start, (k + 1) as nat, n, fuel);
    }
}

/// Once an expression of a list stops with an error, evaluating more of
/// the list changes nothing.
pub proof fn lemma_eval_args_stop(
    nodes: Seq<Node>,
    scopes: Seq<ScopeModel>,
    env: int,
    id: NodeId,
    start: nat,
    k: nat,
    n: nat,
    fuel: nat,
)
    requires
        k <= n,
        eval_args(nodes, scopes, env, id, start, k, fuel) matches Some(e) && e.result is Err,
    ensures
        eval_args(nodes, scopes, env, id, start, n, fuel) == eval_args(nodes, scopes, env, id, start, k, fuel),
    decreases n - k,
{
    if k < n {
        lemma_eval_args_stop(nodes, scopes, env, id, start, k, (n - 1) as nat, fuel);
    }
}

/// Where running `n` children has an outcome, so has running fewer.
pub proof fn lemma_exec_children_prefix(
    nodes: Seq<Node>,
    scopes: Seq<ScopeModel>,
    env: int,
    id: NodeId,
    k: nat,
    n: nat,
    fuel: nat,
)
    requires
        k <= n,
        exec_children(nodes, scopes, env, id, n, fuel) is Some,
    ensures
        exec_children(nodes, scopes, env, id, k, fuel) is Some,
    decreases n - k,
{
    if k < n {
        lemma_exec_children_prefix(nodes, scopes, env, id, (k + 1) as nat, n, fuel);
    }
}

/// Once a child stops early, running more children changes nothing.
pub proof fn lemma_exec_children_stop(
    nodes: Seq<Node>,
    scopes: Seq<ScopeModel>,
    env: int,
    id: NodeId,
    k: nat,
    n: nat,
    fuel: nat,
)
    requires
        k <= n,
        exec_children(nodes, scopes, env, id, k, fuel) matches Some(o) && o.result is Err,
    ensures
        exec_children(nodes, scopes, env, id, n, fuel) == exec_children(nodes, scopes, env, id, k, fuel),
    decreases n - k,
{
    if k < n {
        lemma_exec_children_stop(nodes, scopes, env, id, k, (n - 1) as nat, fuel);
    }
}

} // verus!
