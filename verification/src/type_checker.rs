//! The static type checker: finds the type of every node, records it in the
//! node, and reports type errors.
pub mod env;
pub mod growth;

use vstd::prelude::*;

use crate::ast::{
    alloc_node, arena_nodes, child_index, nodes_wf, CiprType, Node, NodeArena, NodeId, NodeType,
    SpecType,
};
use crate::diagnostics::{push_decimal, DiagnosticPhase, Diagnostics, SpecDiagnostic};
use crate::parser::{copy_children, lemma_push_wf, children_ok};
use crate::text::{push_str, str_eq};
use crate::token::{Token, TokenType, Value};
use crate::type_syntax;
use env::TypeEnv;
use growth::{group_stable, lemma_child_measure, lemma_stable_trans, measure, opt_measure, stable};

verus! {

// ---------------------------------------------------------------------------
// Rules on types
// ---------------------------------------------------------------------------

/// Two types match: they are equal, one of them is not known, or a null
/// meets a pointer.
pub open spec fn types_match_spec(expected: SpecType, actual: SpecType) -> bool {
    ||| expected == actual
    ||| expected == SpecType::Unknown
    ||| actual == SpecType::Unknown
    ||| (actual == SpecType::Null && expected is Pointer)
    ||| (expected == SpecType::Null && actual is Pointer)
}

/// Whether a value of one type can stand where the other is needed does
/// not depend on which is which.
pub proof fn law_types_match_symmetric(a: SpecType, b: SpecType)
    ensures
        types_match_spec(a, b) == types_match_spec(b, a),
{
}

/// The struct that a receiver of type `t` names: a struct or a pointer to one.
pub open spec fn receiver_struct(t: SpecType) -> Option<Seq<char>> {
    match t {
        SpecType::Struct(name) => Some(name),
        SpecType::Pointer(inner) => match *inner {
            SpecType::Struct(name) => Some(name),
            _ => None,
        },
        _ => None,
    }
}

/// The prefix of the free functions that act as methods of a receiver of
/// type `t`: `str` for strings, else the struct it names.
pub open spec fn ufcs_base(t: SpecType) -> Option<Seq<char>> {
    match t {
        SpecType::Str => Some("str"@),
        _ => receiver_struct(t),
    }
}

/// Whether `c` is a variable node named `name`.
pub open spec fn names_variable(nodes: Seq<Node>, c: Option<NodeId>, name: Seq<char>) -> bool {
    match c {
        Some(v) => v.0 < nodes.len() && nodes[v.0 as int].node_type == NodeType::VarExpr && nodes[v.0 as int].token.lexeme@
            == name,
        None => false,
    }
}

/// The names tried, in order, for the method call `receiver.method(..)` on a
/// receiver of type `t`: `Base_method` where the receiver has a base name,
/// then `method`.
pub open spec fn ufcs_candidates(t: SpecType, method: Seq<char>) -> Seq<Seq<char>> {
    match ufcs_base(t) {
        Some(b) => seq![b + "_"@ + method, method],
        None => seq![method],
    }
}

/// Whether a name of type `ft` (if known) is a function that takes a
/// receiver of type `t` first.
pub open spec fn takes_receiver(ft: Option<SpecType>, t: SpecType) -> bool {
    match ft {
        Some(SpecType::Callable(ps, _)) => ps.len() > 0 && types_match_spec(ps[0], t),
        _ => false,
    }
}

/// Every diagnostic in `ds` is a type error.
pub open spec fn all_type_phase(ds: Seq<SpecDiagnostic>) -> bool {
    forall|i: int| 0 <= i < ds.len() ==> (#[trigger] ds[i]).phase == DiagnosticPhase::Type
}

/// Whether `name` is the name of a declared struct.
pub open spec fn struct_declared(structs: Seq<(String, Vec<(String, CiprType)>)>, name: Seq<char>) -> bool {
    exists|i: int| 0 <= i < structs.len() && (#[trigger] structs[i]).0@ == name
}

/// The fields of a struct as names with their types.
pub open spec fn fields_view(fs: Seq<(String, CiprType)>) -> Seq<(Seq<char>, SpecType)> {
    Seq::new(fs.len(), |i: int| (fs[i].0@, fs[i].1@))
}

/// The table of structs as names with their fields.
pub open spec fn table_view(structs: Seq<(String, Vec<(String, CiprType)>)>) -> Seq<
    (Seq<char>, Seq<(Seq<char>, SpecType)>),
> {
    Seq::new(structs.len(), |i: int| (structs[i].0@, fields_view(structs[i].1@)))
}

/// Entry `k` is the first of `s` named `name`.
pub open spec fn first_named<V>(s: Seq<(Seq<char>, V)>, name: Seq<char>, k: int) -> bool {
    &&& 0 <= k < s.len()
    &&& s[k].0 == name
    &&& forall|j: int| 0 <= j < k ==> (#[trigger] s[j]).0 != name
}

/// What the first entry of `s` named `name` holds, if there is one.
pub open spec fn lookup_named<V>(s: Seq<(Seq<char>, V)>, name: Seq<char>) -> Option<V> {
    if exists|k: int| first_named(s, name, k) {
        Some(s[choose|k: int| first_named(s, name, k)].1)
    } else {
        None
    }
}

proof fn lemma_lookup_at<V>(s: Seq<(Seq<char>, V)>, name: Seq<char>, k: int)
    requires
        first_named(s, name, k),
    ensures
        lookup_named(s, name) == Some(s[k].1),
{
    let k2 = choose|k2: int| first_named(s, name, k2);
    assert(first_named(s, name, k2));
    if k2 < k {
        assert(s[k2].0 != name);
    } else if k2 > k {
        assert(s[k].0 != name);
    }
}

proof fn lemma_lookup_none<V>(s: Seq<(Seq<char>, V)>, name: Seq<char>)
    requires
        forall|j: int| 0 <= j < s.len() ==> (#[trigger] s[j]).0 != name,
    ensures
        lookup_named(s, name) is None,
{
}

/// The fields that the first `k` children of the struct declaration `id`
/// declare, missing ones skipped.
pub open spec fn decl_fields(nodes: Seq<Node>, id: NodeId, k: nat) -> Seq<(Seq<char>, SpecType)>
    decreases k,
{
    if k == 0 {
        Seq::empty()
    } else {
        let fs = decl_fields(nodes, id, (k - 1) as nat);
        let cs = nodes[id.0 as int].children@;
        if k - 1 < cs.len() && cs[k - 1] is Some && child_index(cs[k - 1]) < nodes.len() {
            let f = nodes[child_index(cs[k - 1])];
            fs.push((f.token.lexeme@, annotated_type(f)))
        } else {
            fs
        }
    }
}

/// `table` after registering the struct that node `id` declares, unless one
/// of that name is registered already.
pub open spec fn with_struct(
    table: Seq<(Seq<char>, Seq<(Seq<char>, SpecType)>)>,
    nodes: Seq<Node>,
    id: NodeId,
) -> Seq<(Seq<char>, Seq<(Seq<char>, SpecType)>)> {
    let name = nodes[id.0 as int].token.lexeme@;
    if lookup_named(table, name) is None {
        table.push((name, decl_fields(nodes, id, nodes[id.0 as int].children@.len())))
    } else {
        table
    }
}

/// The struct declaration among the children of a node, at `c`, if any.
pub open spec fn struct_decl_child(nodes: Seq<Node>, c: Option<NodeId>) -> Option<NodeId> {
    match c {
        Some(d) => if d.0 < nodes.len() && nodes[d.0 as int].node_type == NodeType::StmtStructDecl {
            Some(d)
        } else {
            None
        },
        None => None,
    }
}

/// `table` after registering the structs declared among the first `k`
/// children of `id`, and whether one of them was registered already.
pub open spec fn predeclared(
    nodes: Seq<Node>,
    id: NodeId,
    table: Seq<(Seq<char>, Seq<(Seq<char>, SpecType)>)>,
    k: nat,
) -> (Seq<(Seq<char>, Seq<(Seq<char>, SpecType)>)>, bool)
    decreases k,
{
    if k == 0 {
        (table, false)
    } else {
        let (t, dup) = predeclared(nodes, id, table, (k - 1) as nat);
        let cs = nodes[id.0 as int].children@;
        if k - 1 < cs.len() {
            match struct_decl_child(nodes, cs[k - 1]) {
                Some(d) => (with_struct(t, nodes, d), dup || lookup_named(t, nodes[d.0 as int].token.lexeme@) is Some),
                None => (t, dup),
            }
        } else {
            (t, dup)
        }
    }
}

/// A type that names no undeclared struct and no pointer to void.
pub open spec fn type_valid(t: SpecType, structs: Seq<(String, Vec<(String, CiprType)>)>) -> bool
    decreases t,
{
    match t {
        SpecType::Array(inner) => type_valid(*inner, structs),
        SpecType::Pointer(inner) => *inner != SpecType::Void && type_valid(*inner, structs),
        SpecType::Callable(ps, r) => (forall|i: int| 0 <= i < ps.len() ==> type_valid(#[trigger] ps[i], structs))
            && type_valid(*r, structs),
        SpecType::Struct(name) => struct_declared(structs, name),
        _ => true,
    }
}

/// A type that a value can have: not void, and no array returned by a
/// function type.
pub open spec fn value_type_ok(t: SpecType) -> bool
    decreases t, 1nat,
{
    match t {
        SpecType::Void => false,
        SpecType::Array(inner) => value_type_ok(*inner),
        SpecType::Pointer(inner) => *inner == SpecType::Void || value_type_ok(*inner),
        SpecType::Callable(ps, r) => (forall|i: int| 0 <= i < ps.len() ==> value_type_ok(#[trigger] ps[i]))
            && return_type_ok(*r),
        _ => true,
    }
}

/// A type that a function can return: void, or a value type that is not an
/// array.
pub open spec fn return_type_ok(t: SpecType) -> bool
    decreases t, 2nat,
{
    match t {
        SpecType::Array(_) => false,
        SpecType::Void => true,
        _ => value_type_ok(t),
    }
}

// ---------------------------------------------------------------------------
// Typing rules of expressions
// ---------------------------------------------------------------------------

/// `b` is `a` with nodes added and types recorded: every node of `a` keeps
/// its kind, token, value, children and annotation.
pub open spec fn same_shape(a: Seq<Node>, b: Seq<Node>) -> bool {
    &&& a.len() <= b.len()
    &&& forall|i: int|
        0 <= i < a.len() ==> {
            &&& (#[trigger] b[i]).node_type == a[i].node_type
            &&& b[i].token == a[i].token
            &&& b[i].value == a[i].value
            &&& b[i].children == a[i].children
            &&& b[i].type_annotation == a[i].type_annotation
        }
}

/// The type of a literal.
pub open spec fn literal_type(v: Value) -> SpecType {
    match v {
        Value::Int(_) => SpecType::Int,
        Value::Float(_) => SpecType::Float,
        Value::Str(_) => SpecType::Str,
        Value::Bool(_) => SpecType::Bool,
        Value::Null => SpecType::Null,
    }
}

/// The type that a binary operator gives on operands of types `l` and `r`.
pub open spec fn binary_type(op: TokenType, l: SpecType, r: SpecType) -> SpecType {
    match op {
        TokenType::Plus | TokenType::Minus | TokenType::Star | TokenType::Slash => if l == SpecType::Int && r
            == SpecType::Int {
            SpecType::Int
        } else if l == SpecType::Float && r == SpecType::Float {
            SpecType::Float
        } else if op == TokenType::Plus && l == SpecType::Str && r == SpecType::Str {
            SpecType::Str
        } else {
            SpecType::Unknown
        },
        TokenType::Greater | TokenType::GreaterEqual | TokenType::Less | TokenType::LessEqual => if (l == SpecType::Int
            && r == SpecType::Int) || (l == SpecType::Float && r == SpecType::Float) || l == SpecType::Unknown || r
            == SpecType::Unknown {
            SpecType::Bool
        } else {
            SpecType::Unknown
        },
        TokenType::EqualEqual | TokenType::BangEqual => if l == SpecType::Null && r == SpecType::Null {
            SpecType::Unknown
        } else if (l == SpecType::Null && r is Pointer) || (r == SpecType::Null && l is Pointer) {
            SpecType::Bool
        } else if (l == SpecType::Int && r == SpecType::Int) || (l == SpecType::Float && r == SpecType::Float) || (l
            == SpecType::Bool && r == SpecType::Bool) || (l is Pointer && r is Pointer) {
            if l == r {
                SpecType::Bool
            } else {
                SpecType::Unknown
            }
        } else if l == SpecType::Unknown || r == SpecType::Unknown {
            SpecType::Bool
        } else {
            SpecType::Unknown
        },
        _ => SpecType::Unknown,
    }
}

/// The type that a unary operator gives on an operand of type `t`.
pub open spec fn unary_type(op: TokenType, t: SpecType) -> SpecType {
    match op {
        TokenType::Minus => if t == SpecType::Int || t == SpecType::Float || t == SpecType::Unknown {
            t
        } else {
            SpecType::Unknown
        },
        TokenType::Bang => if t == SpecType::Bool || t == SpecType::Unknown {
            SpecType::Bool
        } else {
            SpecType::Unknown
        },
        _ => SpecType::Unknown,
    }
}

/// The type of `and` and `or` on operands of types `l` and `r`.
pub open spec fn logical_type(l: SpecType, r: SpecType) -> SpecType {
    if (l == SpecType::Bool || l == SpecType::Unknown) && (r == SpecType::Bool || r == SpecType::Unknown) {
        SpecType::Bool
    } else {
        SpecType::Unknown
    }
}

/// Where node `id` is a declaration `let name: annotation = init;` whose
/// initializer the rules type (a missing one is not known): the name, the
/// type the name is given (the annotation where there is one, else the
/// initializer's type), and whether checking reports an error (the
/// initializer's known type is not the annotation, or neither is known).
pub open spec fn declaration_rule(nodes: Seq<Node>, scopes: Seq<Map<Seq<char>, SpecType>>, id: NodeId) -> Option<
    (Seq<char>, SpecType, bool),
> {
    if id.0 < nodes.len() && nodes[id.0 as int].node_type == NodeType::StmtVarDecl {
        let name = nodes[id.0 as int].token.lexeme@;
        let annotated = match nodes[id.0 as int].type_annotation {
            Some(a) => a@,
            None => SpecType::Unknown,
        };
        match kid_type(nodes, scopes, id, 0) {
            Some(init) => if annotated != SpecType::Unknown {
                Some((name, annotated, init != SpecType::Unknown && init != annotated))
            } else if init != SpecType::Unknown {
                Some((name, init, false))
            } else {
                Some((name, SpecType::Unknown, true))
            },
            None => None,
        }
    } else {
        None
    }
}

/// The type a node's annotation declares; not known where it has none.
pub open spec fn annotated_type(n: Node) -> SpecType {
    match n.type_annotation {
        Some(a) => a@,
        None => SpecType::Unknown,
    }
}

/// The declared types of the parameters among the first `k` children of
/// the function declaration `id`, missing ones skipped.
pub open spec fn declared_param_types(nodes: Seq<Node>, id: NodeId, k: nat) -> Seq<SpecType>
    decreases k,
{
    if k == 0 {
        Seq::empty()
    } else {
        let ps = declared_param_types(nodes, id, (k - 1) as nat);
        let cs = nodes[id.0 as int].children@;
        if k - 1 < cs.len() && cs[k - 1] is Some && child_index(cs[k - 1]) < nodes.len() {
            ps.push(annotated_type(nodes[child_index(cs[k - 1])]))
        } else {
            ps
        }
    }
}

/// Where node `id` declares a function `fn name(params): ret { body }`: its
/// name and its type, from the parameters' annotations and the return
/// annotation.
pub open spec fn function_rule(nodes: Seq<Node>, id: NodeId) -> Option<(Seq<char>, SpecType)> {
    if id.0 < nodes.len() && nodes[id.0 as int].node_type == NodeType::StmtFunction {
        let n = nodes[id.0 as int].children@.len();
        let params = if n > 0 { (n - 1) as nat } else { 0 };
        Some(
            (
                nodes[id.0 as int].token.lexeme@,
                SpecType::Callable(declared_param_types(nodes, id, params), Box::new(annotated_type(nodes[id.0 as int]))),
            ),
        )
    } else {
        None
    }
}

/// Where node `id` is an `if` or a `while`: the type the rules give its
/// condition.
pub open spec fn condition_rule(nodes: Seq<Node>, scopes: Seq<Map<Seq<char>, SpecType>>, id: NodeId) -> Option<SpecType> {
    if id.0 < nodes.len() && (nodes[id.0 as int].node_type == NodeType::StmtIf || nodes[id.0 as int].node_type
        == NodeType::StmtWhile) {
        kid_type(nodes, scopes, id, 0)
    } else {
        None
    }
}

/// A condition must be a boolean where its type is known.
pub open spec fn bad_condition(t: SpecType) -> bool {
    t != SpecType::Bool && t != SpecType::Unknown
}

/// The type of the `k`-th child of `id`: not known where there is none;
/// `None` where the child is not an expression these rules type.
pub open spec fn kid_type(nodes: Seq<Node>, scopes: Seq<Map<Seq<char>, SpecType>>, id: NodeId, k: int) -> Option<SpecType>
    decreases measure(nodes, id), 0nat, 0nat,
{
    if id.0 < nodes.len() && 0 <= k < nodes[id.0 as int].children@.len() {
        match nodes[id.0 as int].children@[k] {
            None => Some(SpecType::Unknown),
            Some(c) => if measure(nodes, c) < measure(nodes, id) {
                expr_type(nodes, scopes, c)
            } else {
                None
            },
        }
    } else {
        Some(SpecType::Unknown)
    }
}

/// The type a field access `target.field` reads, looking through one
/// pointer, in the struct table `table`; and whether checking reports an
/// error (a target that is not a struct, or a struct without the field).
pub open spec fn field_rule(
    table: Seq<(Seq<char>, Seq<(Seq<char>, SpecType)>)>,
    target: SpecType,
    field: Seq<char>,
) -> (SpecType, bool) {
    let seen = match target {
        SpecType::Pointer(inner) => *inner,
        other => other,
    };
    match seen {
        SpecType::Struct(name) => match lookup_named(table, name) {
            Some(fs) => match lookup_named(fs, field) {
                Some(ft) => (ft, false),
                None => (SpecType::Unknown, true),
            },
            None => (SpecType::Unknown, false),
        },
        SpecType::Unknown => (SpecType::Unknown, false),
        _ => (SpecType::Unknown, true),
    }
}

/// The type a field assignment `target.field = value` gives, and whether
/// checking the field reports an error: as for reading it, and a field of a
/// registered struct whose type is not known is refused too.
pub open spec fn assign_field_rule(
    table: Seq<(Seq<char>, Seq<(Seq<char>, SpecType)>)>,
    target: SpecType,
    field: Seq<char>,
) -> (SpecType, bool) {
    let (t, err) = field_rule(table, target, field);
    let seen = match target {
        SpecType::Pointer(inner) => *inner,
        other => other,
    };
    let registered = match seen {
        SpecType::Struct(name) => lookup_named(table, name) is Some,
        _ => false,
    };
    (t, err || (t == SpecType::Unknown && registered))
}

/// Whether the target of a field assignment, of type `target`, is not a
/// struct that is missing from `table` (checking stops at such a target).
pub open spec fn field_target_registered(table: Seq<(Seq<char>, Seq<(Seq<char>, SpecType)>)>, target: SpecType) -> bool {
    let seen = match target {
        SpecType::Pointer(inner) => *inner,
        other => other,
    };
    match seen {
        SpecType::Struct(name) => lookup_named(table, name) is Some,
        _ => true,
    }
}

/// The type a call gives whose callee has type `callee`.
pub open spec fn call_result(callee: SpecType) -> SpecType {
    match callee {
        SpecType::Callable(_, r) => *r,
        _ => SpecType::Unknown,
    }
}

/// The call `id` has a callee that is not a field access and whose type the
/// typing rules give.
pub open spec fn plain_typed_callee(nodes: Seq<Node>, scopes: Seq<Map<Seq<char>, SpecType>>, id: NodeId) -> bool {
    match callee_of(nodes, id) {
        Some(c) => nodes[c.0 as int].node_type != NodeType::GetField && kid_type(nodes, scopes, id, 0) is Some,
        None => false,
    }
}

/// Whether an argument of type `arg` passed for a parameter of type
/// `param` is refused: a null for a parameter that is not a pointer, or a
/// known type that does not match.
pub open spec fn bad_argument(param: SpecType, arg: SpecType) -> bool {
    if arg == SpecType::Null {
        !(param is Pointer)
    } else {
        arg != SpecType::Unknown && !types_match_spec(param, arg)
    }
}

/// Whether one of the arguments of types `ats` is refused for the
/// parameters `ps`.
pub open spec fn refused_arg(ps: Seq<SpecType>, ats: Seq<SpecType>) -> bool {
    exists|j: int| 0 <= j < ats.len() && #[trigger] bad_argument(ps[j], ats[j])
}

proof fn lemma_refused_push(ps: Seq<SpecType>, prev: Seq<SpecType>, a: SpecType)
    ensures
        refused_arg(ps, prev.push(a)) == (refused_arg(ps, prev) || bad_argument(ps[prev.len() as int], a)),
{
    let all = prev.push(a);
    assert(all.len() == prev.len() + 1);
    if refused_arg(ps, prev) {
        let j = choose|j: int| 0 <= j < prev.len() && #[trigger] bad_argument(ps[j], prev[j]);
        assert(all[j] == prev[j]);
        assert(0 <= j < all.len() && bad_argument(ps[j], all[j]));
        assert(refused_arg(ps, all));
    }
    if bad_argument(ps[prev.len() as int], a) {
        let j = prev.len() as int;
        assert(all[j] == a);
        assert(0 <= j < all.len() && bad_argument(ps[j], all[j]));
        assert(refused_arg(ps, all));
    }
    if refused_arg(ps, all) {
        let j = choose|j: int| 0 <= j < all.len() && #[trigger] bad_argument(ps[j], all[j]);
        if j < prev.len() {
            assert(all[j] == prev[j]);
            assert(0 <= j < prev.len() && bad_argument(ps[j], prev[j]));
            assert(refused_arg(ps, prev));
        } else {
            assert(j == prev.len());
            assert(all[j] == a);
        }
    }
}

proof fn lemma_arg_types_len(nodes: Seq<Node>, scopes: Seq<Map<Seq<char>, SpecType>>, id: NodeId, k: nat)
    ensures
        arg_types(nodes, scopes, id, k) matches Some(a) ==> a.len() == k,
    decreases k,
{
    if k > 0 {
        lemma_arg_types_len(nodes, scopes, id, (k - 1) as nat);
    }
}

/// Where the arguments' types and reports are known for `n` arguments, they
/// are for fewer.
proof fn lemma_args_prefix(nodes: Seq<Node>, scopes: Seq<Map<Seq<char>, SpecType>>, id: NodeId, m: nat, n: nat)
    requires
        m <= n,
        args_reports(nodes, scopes, id, n) is Some,
        arg_types(nodes, scopes, id, n) is Some,
    ensures
        args_reports(nodes, scopes, id, m) is Some,
        arg_types(nodes, scopes, id, m) is Some,
    decreases n - m,
{
    if m < n {
        lemma_args_prefix(nodes, scopes, id, (m + 1) as nat, n);
    }
}

/// The types the typing rules give the first `k` children of `id`, where
/// they give all of them.
pub open spec fn value_types(nodes: Seq<Node>, scopes: Seq<Map<Seq<char>, SpecType>>, id: NodeId, k: nat) -> Option<
    Seq<SpecType>,
>
    decreases k,
{
    if k == 0 {
        Some(Seq::empty())
    } else {
        match value_types(nodes, scopes, id, (k - 1) as nat) {
            Some(vs) => match kid_type(nodes, scopes, id, k - 1) {
                Some(v) => Some(vs.push(v)),
                None => None,
            },
            None => None,
        }
    }
}

proof fn lemma_value_types_len(nodes: Seq<Node>, scopes: Seq<Map<Seq<char>, SpecType>>, id: NodeId, k: nat)
    ensures
        value_types(nodes, scopes, id, k) matches Some(a) ==> a.len() == k,
    decreases k,
{
    if k > 0 {
        lemma_value_types_len(nodes, scopes, id, (k - 1) as nat);
    }
}

/// A value of type `v` for a field of type `e` is refused: both are known
/// and they differ.
pub open spec fn bad_field_value(e: SpecType, v: SpecType) -> bool {
    e != SpecType::Unknown && v != SpecType::Unknown && e != v
}

/// Whether one of the values of types `vs` is refused for the fields `fs`.
pub open spec fn mismatched_field(fs: Seq<(Seq<char>, SpecType)>, vs: Seq<SpecType>) -> bool {
    exists|j: int| 0 <= j < vs.len() && #[trigger] bad_field_value(fs[j].1, vs[j])
}

proof fn lemma_mismatched_push(fs: Seq<(Seq<char>, SpecType)>, prev: Seq<SpecType>, v: SpecType)
    ensures
        mismatched_field(fs, prev.push(v)) == (mismatched_field(fs, prev) || bad_field_value(fs[prev.len() as int].1, v)),
{
    let all = prev.push(v);
    if mismatched_field(fs, prev) {
        let j = choose|j: int| 0 <= j < prev.len() && #[trigger] bad_field_value(fs[j].1, prev[j]);
        assert(all[j] == prev[j]);
        assert(0 <= j < all.len() && bad_field_value(fs[j].1, all[j]));
    }
    if bad_field_value(fs[prev.len() as int].1, v) {
        let j = prev.len() as int;
        assert(all[j] == v);
        assert(0 <= j < all.len() && bad_field_value(fs[j].1, all[j]));
    }
    if mismatched_field(fs, all) {
        let j = choose|j: int| 0 <= j < all.len() && #[trigger] bad_field_value(fs[j].1, all[j]);
        if j < prev.len() {
            assert(all[j] == prev[j]);
            assert(0 <= j < prev.len() && bad_field_value(fs[j].1, prev[j]));
        } else {
            assert(all[j] == v);
        }
    }
}

/// For the first `k` children of the struct literal `id`, each a field
/// initializer `name: value`: the name it gives and the type the typing
/// rules give its value (`None` for a missing child), where the rules give
/// all of them.
pub open spec fn init_types(nodes: Seq<Node>, scopes: Seq<Map<Seq<char>, SpecType>>, id: NodeId, k: nat) -> Option<
    Seq<Option<(Seq<char>, SpecType)>>,
>
    decreases k,
{
    if k == 0 {
        Some(Seq::empty())
    } else {
        match init_types(nodes, scopes, id, (k - 1) as nat) {
            Some(xs) => {
                let cs = nodes[id.0 as int].children@;
                match (if k - 1 < cs.len() { cs[k - 1] } else { None }) {
                    Some(a) => match kid_type(nodes, scopes, a, 0) {
                        Some(v) => Some(xs.push(Some((nodes[a.0 as int].token.lexeme@, v)))),
                        None => None,
                    },
                    None => Some(xs.push(None)),
                }
            },
            None => None,
        }
    }
}

proof fn lemma_init_types_len(nodes: Seq<Node>, scopes: Seq<Map<Seq<char>, SpecType>>, id: NodeId, k: nat)
    ensures
        init_types(nodes, scopes, id, k) matches Some(a) ==> a.len() == k,
    decreases k,
{
    if k > 0 {
        lemma_init_types_len(nodes, scopes, id, (k - 1) as nat);
    }
}

/// Whether checking the values of the first `k` initializers of the struct
/// literal `id` reports an error, where [`kid_reports`] says for each.
pub open spec fn init_reports(nodes: Seq<Node>, scopes: Seq<Map<Seq<char>, SpecType>>, id: NodeId, k: nat) -> Option<bool>
    decreases k,
{
    if k == 0 {
        Some(false)
    } else {
        match init_reports(nodes, scopes, id, (k - 1) as nat) {
            Some(b) => {
                let cs = nodes[id.0 as int].children@;
                match (if k - 1 < cs.len() { cs[k - 1] } else { None }) {
                    Some(a) => match kid_reports(nodes, scopes, a, 0) {
                        Some(e) => Some(b || e),
                        None => None,
                    },
                    None => Some(b),
                }
            },
            None => None,
        }
    }
}

/// An initializer `x` for the field `f` is refused: it names another field,
/// or gives a null to a field that is not a pointer, or a known value type
/// that does not match the field's known type.
pub open spec fn bad_init(f: (Seq<char>, SpecType), x: Option<(Seq<char>, SpecType)>) -> bool {
    match x {
        Some((name, v)) => name != f.0 || (if v == SpecType::Null {
            !(f.1 is Pointer)
        } else {
            f.1 != SpecType::Unknown && v != SpecType::Unknown && !types_match_spec(f.1, v)
        }),
        None => false,
    }
}

/// Whether one of the initializers `xs` is refused for the fields `fs`.
pub open spec fn refused_init(fs: Seq<(Seq<char>, SpecType)>, xs: Seq<Option<(Seq<char>, SpecType)>>) -> bool {
    exists|j: int| 0 <= j < xs.len() && #[trigger] bad_init(fs[j], xs[j])
}

proof fn lemma_refused_init_push(
    fs: Seq<(Seq<char>, SpecType)>,
    prev: Seq<Option<(Seq<char>, SpecType)>>,
    x: Option<(Seq<char>, SpecType)>,
)
    ensures
        refused_init(fs, prev.push(x)) == (refused_init(fs, prev) || bad_init(fs[prev.len() as int], x)),
{
    let all = prev.push(x);
    if refused_init(fs, prev) {
        let j = choose|j: int| 0 <= j < prev.len() && #[trigger] bad_init(fs[j], prev[j]);
        assert(all[j] == prev[j]);
        assert(0 <= j < all.len() && bad_init(fs[j], all[j]));
    }
    if bad_init(fs[prev.len() as int], x) {
        let j = prev.len() as int;
        assert(all[j] == x);
        assert(0 <= j < all.len() && bad_init(fs[j], all[j]));
    }
    if refused_init(fs, all) {
        let j = choose|j: int| 0 <= j < all.len() && #[trigger] bad_init(fs[j], all[j]);
        if j < prev.len() {
            assert(all[j] == prev[j]);
            assert(0 <= j < prev.len() && bad_init(fs[j], prev[j]));
        } else {
            assert(all[j] == x);
        }
    }
}

/// The types the typing rules give the first `k` arguments of the call
/// `id` (its children after the callee), where they give all of them.
pub open spec fn arg_types(nodes: Seq<Node>, scopes: Seq<Map<Seq<char>, SpecType>>, id: NodeId, k: nat) -> Option<
    Seq<SpecType>,
>
    decreases measure(nodes, id), 1nat, k,
{
    if k == 0 {
        Some(Seq::empty())
    } else {
        match arg_types(nodes, scopes, id, (k - 1) as nat) {
            Some(ats) => match kid_type(nodes, scopes, id, k as int) {
                Some(a) => Some(ats.push(a)),
                None => None,
            },
            None => None,
        }
    }
}

/// How many arguments the call `id` passes, with `params` parameters
/// checked against: those beyond the parameters are not checked.
pub open spec fn checked_args(nodes: Seq<Node>, id: NodeId, params: nat) -> nat {
    let n = nodes[id.0 as int].children@.len();
    let argc: nat = if n > 0 { (n - 1) as nat } else { 0 };
    if argc < params { argc } else { params }
}

/// The callee of the call `id`, where it has one.
pub open spec fn callee_of(nodes: Seq<Node>, id: NodeId) -> Option<NodeId> {
    if 0 < nodes[id.0 as int].children@.len() {
        nodes[id.0 as int].children@[0]
    } else {
        None
    }
}

/// Whether the address of a node of this kind can be taken.
pub open spec fn addressable(kind: NodeType) -> bool {
    kind == NodeType::VarExpr || kind == NodeType::Dereference || kind == NodeType::IndexGet
}

/// The type recorded in `after` for the `k`-th child that node `id` has in
/// `before`; not known where there is none.
pub open spec fn checked_kid(before: Seq<Node>, after: Seq<Node>, id: NodeId, k: int) -> SpecType {
    if 0 <= k < before[id.0 as int].children@.len() {
        match before[id.0 as int].children@[k] {
            Some(c) => after[c.0 as int].resolved_type@,
            None => SpecType::Unknown,
        }
    } else {
        SpecType::Unknown
    }
}

/// The element type of an array literal after its first `k` children: the
/// type of the first element whose type is known.
pub open spec fn items_type(nodes: Seq<Node>, scopes: Seq<Map<Seq<char>, SpecType>>, id: NodeId, k: nat) -> Option<SpecType>
    decreases measure(nodes, id), 1nat, k,
{
    if k == 0 {
        Some(SpecType::Unknown)
    } else {
        match items_type(nodes, scopes, id, (k - 1) as nat) {
            Some(prev) => if id.0 < nodes.len() && k - 1 < nodes[id.0 as int].children@.len() {
                match nodes[id.0 as int].children@[k - 1] {
                    None => Some(prev),
                    Some(c) => if measure(nodes, c) < measure(nodes, id) {
                        match expr_type(nodes, scopes, c) {
                            Some(t) => if prev == SpecType::Unknown { Some(t) } else { Some(prev) },
                            None => None,
                        }
                    } else {
                        None
                    },
                }
            } else {
                Some(prev)
            },
            None => None,
        }
    }
}

/// The type the checker gives node `id` where it is an expression of one
/// of the kinds these rules cover (literals, variables, groupings, unary,
/// binary and logical operators, array literals, indexing, dereferencing,
/// and calls whose callee is not a field access, which give the callee's
/// result type, with such expressions below them), in the scopes `scopes`;
/// `None` for other nodes.
pub open spec fn expr_type(nodes: Seq<Node>, scopes: Seq<Map<Seq<char>, SpecType>>, id: NodeId) -> Option<SpecType>
    decreases measure(nodes, id), 2nat, 0nat,
{
    if id.0 >= nodes.len() {
        None
    } else {
        let n = nodes[id.0 as int];
        let op = n.token.token_type;
        match n.node_type {
            NodeType::Literal => Some(literal_type(n.value)),
            NodeType::VarExpr => Some(
                match env::lookup(scopes, n.token.lexeme@) {
                    Some(t) => t,
                    None => SpecType::Unknown,
                },
            ),
            NodeType::Grouping => kid_type(nodes, scopes, id, 0),
            NodeType::Unary => match kid_type(nodes, scopes, id, 0) {
                Some(t) => Some(unary_type(op, t)),
                None => None,
            },
            NodeType::Binary => match (kid_type(nodes, scopes, id, 0), kid_type(nodes, scopes, id, 1)) {
                (Some(l), Some(r)) => Some(binary_type(op, l, r)),
                _ => None,
            },
            NodeType::Logical => match (kid_type(nodes, scopes, id, 0), kid_type(nodes, scopes, id, 1)) {
                (Some(l), Some(r)) => Some(logical_type(l, r)),
                _ => None,
            },
            NodeType::Array => match items_type(nodes, scopes, id, n.children@.len()) {
                Some(t) => Some(SpecType::Array(Box::new(t))),
                None => None,
            },
            NodeType::IndexGet => match (kid_type(nodes, scopes, id, 0), kid_type(nodes, scopes, id, 1)) {
                (Some(SpecType::Array(inner)), Some(_)) => Some(*inner),
                (Some(_), Some(_)) => Some(SpecType::Unknown),
                _ => None,
            },
            NodeType::Dereference => match kid_type(nodes, scopes, id, 0) {
                Some(SpecType::Pointer(inner)) => Some(*inner),
                Some(_) => Some(SpecType::Unknown),
                None => None,
            },
            NodeType::Call => match callee_of(nodes, id) {
                None => Some(SpecType::Unknown),
                Some(c) => if c.0 < nodes.len() && nodes[c.0 as int].node_type != NodeType::GetField {
                    match kid_type(nodes, scopes, id, 0) {
                        Some(SpecType::Callable(ps, r)) => if arg_types(
                            nodes,
                            scopes,
                            id,
                            checked_args(nodes, id, ps.len()),
                        ) is Some {
                            Some(*r)
                        } else {
                            None
                        },
                        Some(_) => Some(SpecType::Unknown),
                        None => None,
                    }
                } else {
                    None
                },
            },
            _ => None,
        }
    }
}

/// In the equality `id`, the `k`-th operand (of the two) is a null and the
/// other a pointer, so that the null takes the pointer's type.
pub open spec fn null_beside_pointer(nodes: Seq<Node>, scopes: Seq<Map<Seq<char>, SpecType>>, id: NodeId, k: int) -> bool {
    let op = nodes[id.0 as int].token.token_type;
    &&& op == TokenType::EqualEqual || op == TokenType::BangEqual
    &&& kid_type(nodes, scopes, id, k) == Some(SpecType::Null)
    &&& kid_type(nodes, scopes, id, 1 - k) matches Some(other) && other is Pointer
    &&& (k == 1 ==> kid_type(nodes, scopes, id, 0) != Some(SpecType::Null))
}

/// Whether the binary operator `op` refuses operands of types `l` and `r`
/// (an arithmetic operator does not where an operand's type is not known).
pub open spec fn binary_error(op: TokenType, l: SpecType, r: SpecType) -> bool {
    match op {
        TokenType::Plus | TokenType::Minus | TokenType::Star | TokenType::Slash => binary_type(op, l, r)
            == SpecType::Unknown && l != SpecType::Unknown && r != SpecType::Unknown,
        TokenType::Greater | TokenType::GreaterEqual | TokenType::Less | TokenType::LessEqual | TokenType::EqualEqual
        | TokenType::BangEqual => binary_type(op, l, r) == SpecType::Unknown,
        _ => false,
    }
}

/// Whether checking the `k`-th child of `id` reports an error, where the
/// rules of [`expr_reports`] say; a missing child reports nothing.
pub open spec fn kid_reports(nodes: Seq<Node>, scopes: Seq<Map<Seq<char>, SpecType>>, id: NodeId, k: int) -> Option<bool>
    decreases measure(nodes, id), 0nat, 0nat,
{
    if id.0 < nodes.len() && 0 <= k < nodes[id.0 as int].children@.len() {
        match nodes[id.0 as int].children@[k] {
            None => Some(false),
            Some(c) => if measure(nodes, c) < measure(nodes, id) {
                expr_reports(nodes, scopes, c)
            } else {
                None
            },
        }
    } else {
        Some(false)
    }
}

/// Whether checking the first `k` arguments of the call `id` reports an
/// error inside one of them; `None` where that is not known of one.
pub open spec fn args_reports(nodes: Seq<Node>, scopes: Seq<Map<Seq<char>, SpecType>>, id: NodeId, k: nat) -> Option<
    bool,
>
    decreases measure(nodes, id), 0nat, k,
{
    if k == 0 {
        Some(false)
    } else {
        match (args_reports(nodes, scopes, id, (k - 1) as nat), kid_reports(nodes, scopes, id, k as int)) {
            (Some(x), Some(y)) => Some(x || y),
            _ => None,
        }
    }
}

/// Whether checking node `id` reports a type error, for literals,
/// variables (an undefined one is reported), groupings, unary, binary and
/// logical operators (the operands' errors, and the operator's refusal of
/// their types), and calls whose callee is not a field access (the callee's
/// errors; a callee that is not a function; a wrong number of arguments;
/// the errors of the arguments checked and the refusal of one of them)
/// built of such nodes; `None` for other nodes.
pub open spec fn expr_reports(nodes: Seq<Node>, scopes: Seq<Map<Seq<char>, SpecType>>, id: NodeId) -> Option<bool>
    decreases measure(nodes, id), 1nat, 0nat,
{
    if id.0 >= nodes.len() {
        None
    } else {
        let n = nodes[id.0 as int];
        match n.node_type {
            NodeType::Literal => Some(false),
            NodeType::VarExpr => Some(env::lookup(scopes, n.token.lexeme@) is None),
            NodeType::Grouping => if kid_type(nodes, scopes, id, 0) is Some {
                kid_reports(nodes, scopes, id, 0)
            } else {
                None
            },
            NodeType::Binary => match (
                kid_reports(nodes, scopes, id, 0),
                kid_reports(nodes, scopes, id, 1),
                kid_type(nodes, scopes, id, 0),
                kid_type(nodes, scopes, id, 1),
            ) {
                (Some(a), Some(b), Some(l), Some(r)) => Some(a || b || binary_error(n.token.token_type, l, r)),
                _ => None,
            },
            NodeType::Logical => match (
                kid_reports(nodes, scopes, id, 0),
                kid_reports(nodes, scopes, id, 1),
                kid_type(nodes, scopes, id, 0),
                kid_type(nodes, scopes, id, 1),
            ) {
                (Some(a), Some(b), Some(l), Some(r)) => Some(a || b || logical_type(l, r) == SpecType::Unknown),
                _ => None,
            },
            NodeType::Unary => match (kid_reports(nodes, scopes, id, 0), kid_type(nodes, scopes, id, 0)) {
                (Some(a), Some(t)) => Some(a || unary_error(n.token.token_type, t)),
                _ => None,
            },
            NodeType::Call => match callee_of(nodes, id) {
                None => Some(false),
                Some(c) => if c.0 < nodes.len() && nodes[c.0 as int].node_type != NodeType::GetField {
                    match (kid_reports(nodes, scopes, id, 0), kid_type(nodes, scopes, id, 0)) {
                        (Some(a), Some(SpecType::Callable(ps, _))) => {
                            let k = checked_args(nodes, id, ps.len());
                            match (args_reports(nodes, scopes, id, k), arg_types(nodes, scopes, id, k)) {
                                (Some(b), Some(ats)) => Some(
                                    a || ps.len() + 1 != n.children@.len() || b || refused_arg(ps, ats),
                                ),
                                _ => None,
                            }
                        },
                        (Some(a), Some(SpecType::Unknown)) => Some(a),
                        (Some(_), Some(_)) => Some(true),
                        _ => None,
                    }
                } else {
                    None
                },
            },
            _ => None,
        }
    }
}

/// Whether the unary operator `op` refuses an operand of type `t` (one
/// whose type is not known is accepted).
pub open spec fn unary_error(op: TokenType, t: SpecType) -> bool {
    (op == TokenType::Minus || op == TokenType::Bang) && unary_type(op, t) == SpecType::Unknown && t != SpecType::Unknown
}

proof fn lemma_shape_expr_reports(a: Seq<Node>, b: Seq<Node>, s: Seq<Map<Seq<char>, SpecType>>, id: NodeId)
    requires
        same_shape(a, b),
        nodes_wf(a),
        id.0 < a.len(),
    ensures
        expr_reports(b, s, id) == expr_reports(a, s, id),
    decreases measure(a, id), 1nat, 0nat,
{
    lemma_shape_measure(a, b, id);
    assert(b[id.0 as int].children == a[id.0 as int].children);
    assert(b[id.0 as int].token == a[id.0 as int].token);
    match a[id.0 as int].node_type {
        NodeType::Grouping => {
            lemma_shape_kid_type(a, b, s, id, 0);
            lemma_shape_kid_reports(a, b, s, id, 0);
        },
        NodeType::Binary | NodeType::Logical => {
            lemma_shape_kid_type(a, b, s, id, 0);
            lemma_shape_kid_type(a, b, s, id, 1);
            lemma_shape_kid_reports(a, b, s, id, 0);
            lemma_shape_kid_reports(a, b, s, id, 1);
        },
        NodeType::Unary => {
            lemma_shape_kid_type(a, b, s, id, 0);
            lemma_shape_kid_reports(a, b, s, id, 0);
        },
        NodeType::Call => {
            lemma_shape_kid_type(a, b, s, id, 0);
            lemma_shape_kid_reports(a, b, s, id, 0);
            if let Some(c) = callee_of(a, id) {
                if c.0 < a.len() {
                    assert(b[c.0 as int].node_type == a[c.0 as int].node_type);
                }
            }
            if let Some(SpecType::Callable(ps, _)) = kid_type(a, s, id, 0) {
                let k = checked_args(a, id, ps.len());
                assert(checked_args(b, id, ps.len()) == k);
                lemma_shape_arg_types(a, b, s, id, k);
                lemma_shape_args_reports(a, b, s, id, k);
            }
        },
        _ => {},
    }
}

proof fn lemma_shape_args_reports(a: Seq<Node>, b: Seq<Node>, s: Seq<Map<Seq<char>, SpecType>>, id: NodeId, k: nat)
    requires
        same_shape(a, b),
        nodes_wf(a),
        id.0 < a.len(),
    ensures
        args_reports(b, s, id, k) == args_reports(a, s, id, k),
    decreases measure(a, id), 0nat, k,
{
    lemma_shape_measure(a, b, id);
    if k > 0 {
        lemma_shape_args_reports(a, b, s, id, (k - 1) as nat);
        lemma_shape_kid_reports(a, b, s, id, k as int);
    }
}

proof fn lemma_shape_kid_reports(a: Seq<Node>, b: Seq<Node>, s: Seq<Map<Seq<char>, SpecType>>, id: NodeId, k: int)
    requires
        same_shape(a, b),
        nodes_wf(a),
        id.0 < a.len(),
    ensures
        kid_reports(b, s, id, k) == kid_reports(a, s, id, k),
    decreases measure(a, id), 0nat, 0nat,
{
    lemma_shape_measure(a, b, id);
    assert(b[id.0 as int].children == a[id.0 as int].children);
    if 0 <= k < a[id.0 as int].children@.len() {
        if let Some(c) = a[id.0 as int].children@[k] {
            lemma_child_measure(a, id, k);
            lemma_shape_measure(a, b, c);
            lemma_shape_expr_reports(a, b, s, c);
        }
    }
}

/// Where the element type of `n` children is found, so is that of fewer.
proof fn lemma_items_type_prefix(nodes: Seq<Node>, s: Seq<Map<Seq<char>, SpecType>>, id: NodeId, k: nat, n: nat)
    requires
        k <= n,
        items_type(nodes, s, id, n) is Some,
    ensures
        items_type(nodes, s, id, k) is Some,
    decreases n - k,
{
    if k < n {
        lemma_items_type_prefix(nodes, s, id, (k + 1) as nat, n);
    }
}

proof fn lemma_shape_trans(a: Seq<Node>, b: Seq<Node>, c: Seq<Node>)
    requires
        same_shape(a, b),
        same_shape(b, c),
    ensures
        same_shape(a, c),
{
    assert forall|i: int| 0 <= i < a.len() implies {
        &&& (#[trigger] c[i]).node_type == a[i].node_type
        &&& c[i].token == a[i].token
        &&& c[i].value == a[i].value
        &&& c[i].children == a[i].children
        &&& c[i].type_annotation == a[i].type_annotation
    } by {
        assert(b[i].node_type == a[i].node_type);
    }
}

proof fn lemma_shape_measure(a: Seq<Node>, b: Seq<Node>, id: NodeId)
    requires
        same_shape(a, b),
        id.0 < a.len(),
    ensures
        measure(b, id) == measure(a, id),
{
    assert(b[id.0 as int].children == a[id.0 as int].children);
}

/// Typing by the rules reads only the shape of the tree, so recording types
/// and adding nodes changes no node's rule type.
proof fn lemma_shape_expr_type(a: Seq<Node>, b: Seq<Node>, s: Seq<Map<Seq<char>, SpecType>>, id: NodeId)
    requires
        same_shape(a, b),
        nodes_wf(a),
        id.0 < a.len(),
    ensures
        expr_type(b, s, id) == expr_type(a, s, id),
    decreases measure(a, id), 2nat, 0nat,
{
    lemma_shape_measure(a, b, id);
    let n = a[id.0 as int];
    assert(b[id.0 as int].children == n.children);
    assert(b[id.0 as int].token == n.token);
    assert(b[id.0 as int].value == n.value);
    match n.node_type {
        NodeType::Grouping | NodeType::Unary | NodeType::Dereference => {
            lemma_shape_kid_type(a, b, s, id, 0);
        },
        NodeType::Binary | NodeType::Logical | NodeType::IndexGet => {
            lemma_shape_kid_type(a, b, s, id, 0);
            lemma_shape_kid_type(a, b, s, id, 1);
        },
        NodeType::Array => {
            lemma_shape_items_type(a, b, s, id, n.children@.len());
        },
        NodeType::Call => {
            lemma_shape_kid_type(a, b, s, id, 0);
            lemma_shape_arg_types(a, b, s, id, checked_args(a, id, 0));
            if let Some(SpecType::Callable(ps, _)) = kid_type(a, s, id, 0) {
                lemma_shape_arg_types(a, b, s, id, checked_args(a, id, ps.len()));
            }
        },
        _ => {},
    }
}

proof fn lemma_shape_arg_types(a: Seq<Node>, b: Seq<Node>, s: Seq<Map<Seq<char>, SpecType>>, id: NodeId, k: nat)
    requires
        same_shape(a, b),
        nodes_wf(a),
        id.0 < a.len(),
    ensures
        arg_types(b, s, id, k) == arg_types(a, s, id, k),
    decreases measure(a, id), 1nat, k,
{
    lemma_shape_measure(a, b, id);
    if k > 0 {
        lemma_shape_arg_types(a, b, s, id, (k - 1) as nat);
        lemma_shape_kid_type(a, b, s, id, k as int);
    }
}

proof fn lemma_shape_kid_type(a: Seq<Node>, b: Seq<Node>, s: Seq<Map<Seq<char>, SpecType>>, id: NodeId, k: int)
    requires
        same_shape(a, b),
        nodes_wf(a),
        id.0 < a.len(),
    ensures
        kid_type(b, s, id, k) == kid_type(a, s, id, k),
    decreases measure(a, id), 0nat, 0nat,
{
    lemma_shape_measure(a, b, id);
    assert(b[id.0 as int].children == a[id.0 as int].children);
    if 0 <= k < a[id.0 as int].children@.len() {
        if let Some(c) = a[id.0 as int].children@[k] {
            lemma_child_measure(a, id, k);
            lemma_shape_measure(a, b, c);
            lemma_shape_expr_type(a, b, s, c);
        }
    }
}

proof fn lemma_shape_items_type(a: Seq<Node>, b: Seq<Node>, s: Seq<Map<Seq<char>, SpecType>>, id: NodeId, k: nat)
    requires
        same_shape(a, b),
        nodes_wf(a),
        id.0 < a.len(),
    ensures
        items_type(b, s, id, k) == items_type(a, s, id, k),
    decreases measure(a, id), 1nat, k,
{
    lemma_shape_measure(a, b, id);
    assert(b[id.0 as int].children == a[id.0 as int].children);
    if k > 0 {
        lemma_shape_items_type(a, b, s, id, (k - 1) as nat);
        if k - 1 < a[id.0 as int].children@.len() {
            if let Some(c) = a[id.0 as int].children@[k - 1] {
                lemma_child_measure(a, id, k - 1);
                lemma_shape_measure(a, b, c);
                lemma_shape_expr_type(a, b, s, c);
            }
        }
    }
}

/// Whether two types are equal.
pub fn types_equal(a: &CiprType, b: &CiprType) -> (r: bool)
    ensures
        r == (a@ == b@),
{
    a.same(b)
}

/// Whether a value of type `actual` can stand where `expected` is needed.
pub fn types_match(expected: &CiprType, actual: &CiprType) -> (r: bool)
    ensures
        r == types_match_spec(expected@, actual@),
{
    expected.same(actual) || expected.is_unknown() || actual.is_unknown() || (matches!(actual, CiprType::Null)
        && expected.is_pointer()) || (matches!(expected, CiprType::Null) && actual.is_pointer())
}

/// The debug text of a type, as error messages show it.
pub open spec fn type_text(t: SpecType) -> Seq<char>
    decreases t, 0nat,
{
    match t {
        SpecType::Int => "Int"@,
        SpecType::Float => "Float"@,
        SpecType::Str => "Str"@,
        SpecType::Bool => "Bool"@,
        SpecType::Null => "Null"@,
        SpecType::Void => "Void"@,
        SpecType::Unknown => "Unknown"@,
        SpecType::Array(inner) => "Array("@ + type_text(*inner) + ")"@,
        SpecType::Pointer(inner) => "Pointer("@ + type_text(*inner) + ")"@,
        SpecType::Struct(name) => "Struct(\""@ + name + "\")"@,
        SpecType::Callable(ps, r) => "Callable(["@ + params_text(ps, ps.len()) + "], "@ + type_text(*r) + ")"@,
    }
}

/// The debug texts of the first `n` types of `ps`, separated by commas.
pub open spec fn params_text(ps: Seq<SpecType>, n: nat) -> Seq<char>
    decreases ps, n,
{
    if n == 0 || n > ps.len() {
        Seq::empty()
    } else if n == 1 {
        type_text(ps[0])
    } else {
        params_text(ps, (n - 1) as nat) + ", "@ + type_text(ps[n - 1])
    }
}

/// Appends the debug text of a type, as error messages show it.
pub fn push_type(out: &mut String, t: &CiprType)
    ensures
        final(out)@ == old(out)@ + type_text(t@),
    decreases t,
{
    match t {
        CiprType::Int => push_str(out, "Int"),
        CiprType::Float => push_str(out, "Float"),
        CiprType::Str => push_str(out, "Str"),
        CiprType::Bool => push_str(out, "Bool"),
        CiprType::Null => push_str(out, "Null"),
        CiprType::Void => push_str(out, "Void"),
        CiprType::Unknown => push_str(out, "Unknown"),
        CiprType::Array(inner) => {
            push_str(out, "Array(");
            push_type(out, &**inner);
            push_str(out, ")");
        },
        CiprType::Pointer(inner) => {
            push_str(out, "Pointer(");
            push_type(out, &**inner);
            push_str(out, ")");
        },
        CiprType::Struct(name) => {
            push_str(out, "Struct(\"");
            push_str(out, name.as_str());
            push_str(out, "\")");
        },
        CiprType::Callable(ps, r) => {
            let ghost start = out@;
            let ghost pv = match t@ {
                SpecType::Callable(p, _) => p,
                _ => Seq::empty(),
            };
            assert(pv.len() == ps@.len());
            assert(forall|k: int| 0 <= k < ps@.len() ==> #[trigger] pv[k] == ps@[k]@);
            push_str(out, "Callable([");
            let mut i: usize = 0;
            #[verifier::loop_isolation(false)]
            while i < ps.len()
                invariant
                    i <= ps@.len(),
                    pv.len() == ps@.len(),
                    forall|k: int| 0 <= k < ps@.len() ==> #[trigger] pv[k] == ps@[k]@,
                    out@ == start + "Callable(["@ + params_text(pv, i as nat),
                decreases ps@.len() - i,
            {
                if i > 0 {
                    push_str(out, ", ");
                }
                push_type(out, &ps[i]);
                proof {
                    assert(pv[i as int] == ps@[i as int]@);
                    if i == 0 {
                        assert(out@ =~= start + "Callable(["@ + params_text(pv, 1));
                    } else {
                        assert(out@ =~= start + "Callable(["@ + params_text(pv, (i + 1) as nat));
                    }
                }
                i = i + 1;
            }
            push_str(out, "], ");
            push_type(out, &**r);
            push_str(out, ")");
            proof {
                assert(out@ =~= start + type_text(t@));
            }
        },
    }
}

} // verus!

verus! {

broadcast use group_stable;

/// The type checker of one tree.
pub struct TypeChecker {
    arena: NodeArena,
    env: TypeEnv,
    had_error: bool,
    current_return_type: Option<CiprType>,
    structs: Vec<(String, Vec<(String, CiprType)>)>,
    source_name: String,
    diagnostics: Diagnostics,
}

impl TypeChecker {
    pub closed spec fn nodes(&self) -> Seq<Node> {
        arena_nodes(self.arena)
    }

    pub closed spec fn wf(&self) -> bool {
        &&& nodes_wf(arena_nodes(self.arena))
        &&& self.env.wf()
        &&& self.env.view_scopes().len() >= 1
    }

    /// Whether a type error was reported.
    pub closed spec fn error_flag(&self) -> bool {
        self.had_error
    }

    /// The diagnostics reported so far.
    pub closed spec fn diags(&self) -> Seq<SpecDiagnostic> {
        self.diagnostics@
    }

    /// The name of the source file that diagnostics name.
    pub closed spec fn source(&self) -> Seq<char> {
        self.source_name@
    }

    /// `new` is `old` with more diagnostics and perhaps the error flag set.
    pub closed spec fn only_reported(old: &TypeChecker, new: &TypeChecker) -> bool {
        &&& *new == (TypeChecker { had_error: new.had_error, diagnostics: new.diagnostics, ..*old })
        &&& Self::reports_kept(old, new)
    }

    /// Diagnostics are only added, and the error flag is set exactly when
    /// one was added (or it was set before).
    pub closed spec fn reports_kept(old: &TypeChecker, new: &TypeChecker) -> bool {
        &&& new.diagnostics@.len() >= old.diagnostics@.len()
        &&& new.had_error == (old.had_error || new.diagnostics@.len() > old.diagnostics@.len())
        &&& (all_type_phase(old.diagnostics@) ==> all_type_phase(new.diagnostics@))
    }

    /// What every checking method keeps.
    pub closed spec fn kept(old: &TypeChecker, new: &TypeChecker) -> bool {
        &&& new.wf()
        &&& stable(arena_nodes(old.arena), arena_nodes(new.arena))
        &&& new.env.view_scopes().len() == old.env.view_scopes().len()
        &&& new.env.view_scopes().drop_last() == old.env.view_scopes().drop_last()
        &&& (old.had_error ==> new.had_error)
        &&& Self::reports_kept(old, new)
        &&& new.source_name == old.source_name
        &&& new.current_return_type == old.current_return_type
    }

    /// A checker for the tree in `arena`, reporting as `source_name`, that
    /// knows the function `print`.
    pub fn new(arena: NodeArena, source_name: &str) -> (tc: TypeChecker)
        requires
            nodes_wf(arena_nodes(arena)),
        ensures
            tc.wf(),
            tc.nodes() == arena_nodes(arena),
            !tc.error_flag(),
            tc.diags().len() == 0,
    {
        let mut env = TypeEnv::new();
        let mut params: Vec<CiprType> = Vec::new();
        params.push(CiprType::Unknown);
        env.define("print", CiprType::Callable(params, Box::new(CiprType::Void)));
        TypeChecker {
            arena,
            env,
            had_error: false,
            current_return_type: None,
            structs: Vec::new(),
            source_name: source_name.to_string(),
            diagnostics: Diagnostics::new(),
        }
    }

    /// The diagnostics reported so far; the checker keeps none.
    pub fn take_diagnostics(&mut self) -> (d: Diagnostics)
        ensures
            d@ == old(self).diags(),
            final(self).diags().len() == 0,
            final(self).nodes() == old(self).nodes(),
            final(self).error_flag() == old(self).error_flag(),
            final(self).wf() == old(self).wf(),
    {
        let mut d = Diagnostics::new();
        core::mem::swap(&mut d, &mut self.diagnostics);
        d
    }

    /// The structs registered so far, in order, with their fields.
    pub closed spec fn struct_table(&self) -> Seq<(Seq<char>, Seq<(Seq<char>, SpecType)>)> {
        table_view(self.structs@)
    }

    /// The fields of the struct named `name`, where one is registered.
    pub open spec fn struct_def(&self, name: Seq<char>) -> Option<Seq<(Seq<char>, SpecType)>> {
        lookup_named(self.struct_table(), name)
    }

    /// Whether a receiver of type `t` has a field named `field`.
    pub open spec fn has_field(&self, t: SpecType, field: Seq<char>) -> bool {
        match receiver_struct(t) {
            Some(n) => match self.struct_def(n) {
                Some(fs) => lookup_named(fs, field) is Some,
                None => false,
            },
            None => false,
        }
    }

    /// What becomes of the method call `call` on the checked `receiver`
    /// with method name `method`, where `settled` says the call was left to
    /// be checked as a call: a field of that name leaves it as it is;
    /// otherwise its callee is now the variable named by the first candidate
    /// that takes the receiver, with the receiver as first argument; where
    /// none does (or no node can be added), the call is not settled.
    pub open spec fn ufcs_outcome(&self, call: NodeId, receiver: NodeId, method: Seq<char>, settled: bool) -> bool {
        let rt = self.nodes()[receiver.0 as int].resolved_type@;
        let cands = ufcs_candidates(rt, method);
        let cs = self.nodes()[call.0 as int].children@;
        if self.has_field(rt, method) {
            settled
        } else if settled {
            exists|j: int|
                {
                    &&& 0 <= j < cands.len()
                    &&& takes_receiver(self.knows(#[trigger] cands[j]), rt)
                    &&& forall|k: int| 0 <= k < j ==> !takes_receiver(self.knows(cands[k]), rt)
                    &&& cs.len() >= 2
                    &&& cs[1] == Some(receiver)
                    &&& names_variable(self.nodes(), cs[0], cands[j])
                }
        } else {
            self.nodes().len() == usize::MAX || forall|j: int|
                0 <= j < cands.len() ==> !takes_receiver(self.knows(#[trigger] cands[j]), rt)
        }
    }

    /// The scopes of names where checking stands.
    pub closed spec fn scopes_view(&self) -> Seq<Map<Seq<char>, SpecType>> {
        self.env.view_scopes()
    }

    /// The type that the typing rules give node `id`, by [`expr_type`].
    pub open spec fn rule_type(&self, id: NodeId) -> Option<SpecType> {
        expr_type(self.nodes(), self.scopes_view(), id)
    }

    /// What checking the declaration `id` gives, by [`declaration_rule`].
    pub open spec fn declaration(&self, id: NodeId) -> Option<(Seq<char>, SpecType, bool)> {
        declaration_rule(self.nodes(), self.scopes_view(), id)
    }

    /// The type of the condition of the `if` or `while` at `id`, by
    /// [`condition_rule`].
    pub open spec fn condition(&self, id: NodeId) -> Option<SpecType> {
        condition_rule(self.nodes(), self.scopes_view(), id)
    }

    /// The return type of the function being checked; `None` at top level.
    pub closed spec fn expected_return(&self) -> Option<SpecType> {
        match self.current_return_type {
            Some(t) => Some(t@),
            None => None,
        }
    }

    /// Whether node `id` is a `return` statement, and whether it has a value.
    pub open spec fn return_at(&self, id: NodeId) -> Option<bool> {
        if id.0 < self.nodes().len() && self.nodes()[id.0 as int].node_type == NodeType::StmtReturn {
            Some(0 < self.nodes()[id.0 as int].children@.len() && self.nodes()[id.0 as int].children@[0] is Some)
        } else {
            None
        }
    }

    /// The name and type of the function that node `id` declares, by
    /// [`function_rule`].
    pub open spec fn function_signature(&self, id: NodeId) -> Option<(Seq<char>, SpecType)> {
        function_rule(self.nodes(), id)
    }

    /// The type that `name` has where checking stands.
    pub closed spec fn knows(&self, name: Seq<char>) -> Option<SpecType> {
        env::lookup(self.env.view_scopes(), name)
    }

    /// Declares `name` as having type `t` in the innermost scope (before
    /// checking starts, the global one).
    pub fn define_global(&mut self, name: &str, t: CiprType)
        requires
            old(self).wf(),
        ensures
            final(self).wf(),
            final(self).knows(name@) == Some(t@),
            old(self).scopes_view().len() > 0,
            final(self).scopes_view() == old(self).scopes_view().update(
                old(self).scopes_view().len() - 1,
                old(self).scopes_view().last().insert(name@, t@),
            ),
            final(self).nodes() == old(self).nodes(),
            final(self).error_flag() == old(self).error_flag(),
            final(self).diags() == old(self).diags(),
    {
        let ghost tv = t@;
        self.env.define(name, t);
        proof {
            env::law_define_then_get(old(self).env.view_scopes(), name@, tv);
        }
    }

    /// Whether a type error was reported.
    pub fn had_error(&self) -> (b: bool)
        ensures
            b == self.error_flag(),
    {
        self.had_error
    }

    /// Gives back the arena, with every checked node's type recorded.
    pub fn into_arena(self) -> (a: NodeArena)
        ensures
            arena_nodes(a) == self.nodes(),
            self.wf() ==> nodes_wf(arena_nodes(a)),
    {
        self.arena
    }

    /// Reports a type error at `line`.
    pub fn error(&mut self, line: usize, message: &str)
        ensures
            final(self).diags() == old(self).diags().push(
                SpecDiagnostic { phase: DiagnosticPhase::Type, file: old(self).source(), line: Some(line as nat), message: message@ },
            ),
            final(self).error_flag(),
            Self::only_reported(old(self), final(self)),
    {
        self.diagnostics.emit_line(DiagnosticPhase::Type, self.source_name.as_str(), line, message);
        self.had_error = true;
    }

    /// The declared type of an optional annotation.
    pub fn parse_type_annotation(annotation: &Option<CiprType>) -> (t: CiprType)
        ensures
            t@ == match annotation {
                Some(a) => a@,
                None => SpecType::Unknown,
            },
    {
        type_syntax::parse_annotation(annotation)
    }

    // ── Reading nodes ──

    fn kid(&self, id: NodeId, k: usize) -> (r: Option<NodeId>)
        requires
            self.wf(),
            id.0 < self.nodes().len(),
        ensures
            r == (if k < self.nodes()[id.0 as int].children@.len() {
                self.nodes()[id.0 as int].children@[k as int]
            } else {
                None
            }),
            r matches Some(c) ==> c.0 < self.nodes().len() && measure(self.nodes(), c) < measure(self.nodes(), id),
    {
        let n = self.arena.get(id);
        if k < n.children.len() {
            let r = n.children[k];
            proof {
                if r is Some {
                    lemma_child_measure(self.nodes(), id, k as int);
                }
            }
            r
        } else {
            None
        }
    }

    fn kids_len(&self, id: NodeId) -> (n: usize)
        requires
            id.0 < self.nodes().len(),
        ensures
            n == self.nodes()[id.0 as int].children@.len(),
    {
        self.arena.get(id).children.len()
    }

    fn line_of(&self, id: NodeId) -> (l: usize)
        requires
            id.0 < self.nodes().len(),
        ensures
            l == self.nodes()[id.0 as int].token.line,
    {
        self.arena.get(id).token.line
    }

    fn kind_of(&self, id: NodeId) -> (t: NodeType)
        requires
            id.0 < self.nodes().len(),
        ensures
            t == self.nodes()[id.0 as int].node_type,
    {
        self.arena.get(id).node_type
    }

    fn name_of(&self, id: NodeId) -> (s: String)
        requires
            id.0 < self.nodes().len(),
        ensures
            s@ == self.nodes()[id.0 as int].token.lexeme@,
    {
        self.arena.get(id).token.lexeme.clone()
    }

    fn resolved_of(&self, id: NodeId) -> (t: CiprType)
        requires
            id.0 < self.nodes().len(),
        ensures
            t@ == self.nodes()[id.0 as int].resolved_type@,
    {
        self.arena.get(id).resolved_type.duplicate()
    }

    fn annotation_of(&self, id: NodeId) -> (t: CiprType)
        requires
            id.0 < self.nodes().len(),
        ensures
            t@ == match self.nodes()[id.0 as int].type_annotation {
                Some(a) => a@,
                None => SpecType::Unknown,
            },
    {
        Self::parse_type_annotation(&self.arena.get(id).type_annotation)
    }

    fn set_type(&mut self, id: NodeId, t: CiprType)
        requires
            old(self).wf(),
            id.0 < old(self).nodes().len(),
        ensures
            Self::kept(old(self), final(self)),
            final(self).nodes()[id.0 as int].resolved_type == t,
            final(self).nodes().len() == old(self).nodes().len(),
            final(self).had_error == old(self).had_error,
            final(self).current_return_type == old(self).current_return_type,
            same_shape(old(self).nodes(), final(self).nodes()),
            final(self).env == old(self).env,
            final(self).structs == old(self).structs,
            forall|i: int| 0 <= i < old(self).nodes().len() && i != id.0 ==> #[trigger] final(self).nodes()[i] == old(
                self,
            ).nodes()[i],
    {
        let ghost before = self.nodes();
        self.arena.set_resolved_type(id, t);
        proof {
            let after = self.nodes();
            assert forall|i: int| 0 <= i < before.len() implies {
                &&& (#[trigger] after[i]).node_type == before[i].node_type
                &&& after[i].token == before[i].token
                &&& after[i].value == before[i].value
                &&& after[i].children == before[i].children
                &&& after[i].type_annotation == before[i].type_annotation
            } by {
                if i != id.0 {
                    assert(after[i] == before[i]);
                }
            }
            assert forall|i: int, k: int|
                0 <= i < after.len() && 0 <= k < after[i].children@.len() && (#[trigger] after[i].children@[k]) is Some implies {
                let c = child_index(after[i].children@[k]);
                &&& c < after.len()
                &&& (c < i || after[c].children@.len() == 0)
            } by {
                assert(after[i].children == before[i].children);
                let c = child_index(before[i].children@[k]);
                assert(after[c].children == before[c].children);
            }
            assert forall|i: int| 0 <= i < before.len() implies {
                &&& (#[trigger] after[i]).node_type == before[i].node_type
                &&& (after[i].children@.len() == 0) == (before[i].children@.len() == 0)
            } by {
                assert(after[i].node_type == before[i].node_type);
            }
        }
    }

    // ── Dispatch ──

    /// Checks node `id`: finds its type, records it in the node, and gives it.
    pub fn check(&mut self, id: NodeId) -> (t: CiprType)
        requires
            old(self).wf(),
            id.0 < old(self).nodes().len(),
        ensures
            Self::kept(old(self), final(self)),
            final(self).wf(),
            final(self).nodes().len() >= old(self).nodes().len(),
            final(self).scopes_view().len() == old(self).scopes_view().len(),
            final(self).scopes_view().drop_last() == old(self).scopes_view().drop_last(),
            final(self).nodes()[id.0 as int].resolved_type@ == t@,
            old(self).rule_type(id) matches Some(t0) ==> t@ == t0 && same_shape(old(self).nodes(), final(self).nodes())
                && final(self).scopes_view() == old(self).scopes_view(),
            old(self).declaration(id) matches Some((name, dt, err)) ==> t@ == dt && final(self).knows(name) == Some(dt)
                && (err ==> final(self).error_flag()),
            old(self).condition(id) matches Some(ct) ==> (bad_condition(ct) ==> final(self).error_flag()),
            old(self).function_signature(id) matches Some((name, ft)) ==> final(self).knows(name) == Some(ft) && t@
                == ft,
            final(self).diags().len() >= old(self).diags().len(),
            final(self).error_flag() == (old(self).error_flag() || final(self).diags().len() > old(self).diags().len()),
            all_type_phase(old(self).diags()) ==> all_type_phase(final(self).diags()),
            expr_reports(old(self).nodes(), old(self).scopes_view(), id) matches Some(e) ==> final(self).error_flag() == (
            old(self).error_flag() || e),
            (id.0 < old(self).nodes().len() && old(self).nodes()[id.0 as int].node_type == NodeType::StmtBlock)
                ==> final(self).scopes_view() == old(self).scopes_view(),
            old(self).return_at(id) matches Some(has_value) ==> {
                &&& old(self).expected_return() is None ==> final(self).error_flag()
                &&& (old(self).expected_return() == Some(SpecType::Void) && has_value) ==> final(self).error_flag()
            },
        decreases measure(old(self).nodes(), id), 3nat,
    {
        let node_type = self.kind_of(id);
        let t = match node_type {
            NodeType::StmtList => self.check_block(id),
            NodeType::StmtBlock => self.check_block_stmt(id),
            NodeType::StmtVarDecl => self.check_var_decl(id),
            NodeType::StmtFunction => self.check_function(id),
            NodeType::StmtExpr => self.check_expr_stmt(id),
            NodeType::StmtIf => self.check_if(id),
            NodeType::StmtWhile => self.check_while(id),
            NodeType::StmtReturn => self.check_return(id),
            NodeType::Literal => self.check_literal(id),
            NodeType::VarExpr => self.check_var_expr(id),
            NodeType::Assign => self.check_assign(id),
            NodeType::Binary => self.check_binary(id),
            NodeType::Unary => self.check_unary(id),
            NodeType::Logical => self.check_logical(id),
            NodeType::Call => self.check_call(id),
            NodeType::Array => self.check_array(id),
            NodeType::IndexGet => self.check_index_get(id),
            NodeType::AddressOf => self.check_addressof(id),
            NodeType::Dereference => self.check_dereference(id),
            NodeType::AssignDeref => self.check_assign_deref(id),
            NodeType::StmtStructDecl => self.check_struct_decl(id),
            NodeType::StructInit => self.check_struct_init(id),
            NodeType::GetField => self.check_get_field(id),
            NodeType::AssignField => self.check_assign_field(id),
            NodeType::StmtExternFn => self.check_extern_fn(id),
            NodeType::StmtInclude => self.check_include(id),
            NodeType::ExprNew => self.check_new(id),
            NodeType::StmtDelete => self.check_delete(id),
            NodeType::Grouping => self.check_kid(id, 0),
        };
        let ghost mid = *self;
        self.set_type(id, t.duplicate());
        proof {
            lemma_stable_trans(old(self).nodes(), mid.nodes(), self.nodes());
        }
        t
    }

    /// Checks the `k`-th child of `id`, or gives `Unknown` where there is none.
    fn check_kid(&mut self, id: NodeId, k: usize) -> (t: CiprType)
        requires
            old(self).wf(),
            id.0 < old(self).nodes().len(),
        ensures
            Self::kept(old(self), final(self)),
            t@ == checked_kid(old(self).nodes(), final(self).nodes(), id, k as int),
            kid_reports(old(self).nodes(), old(self).scopes_view(), id, k as int) matches Some(e) ==> final(self).error_flag()
                == (old(self).error_flag() || e),
            kid_type(old(self).nodes(), old(self).scopes_view(), id, k as int) matches Some(t0) ==> t@ == t0 && same_shape(
                old(self).nodes(),
                final(self).nodes(),
            ) && final(self).scopes_view() == old(self).scopes_view(),
        decreases measure(old(self).nodes(), id), 0nat,
    {
        match self.kid(id, k) {
            Some(c) => self.check(c),
            None => CiprType::Unknown,
        }
    }

    /// Checks a child that may be missing.
    pub fn check_child(&mut self, child_opt: Option<NodeId>) -> (t: CiprType)
        requires
            old(self).wf(),
            child_opt matches Some(c) ==> c.0 < old(self).nodes().len(),
        ensures
            Self::kept(old(self), final(self)),
            child_opt is None ==> t@ == SpecType::Unknown && *final(self) == *old(self),
            child_opt matches Some(c) ==> final(self).nodes()[c.0 as int].resolved_type@ == t@ && (old(self).rule_type(c)
                matches Some(t0) ==> t@ == t0),
    {
        match child_opt {
            Some(c) => self.check(c),
            None => CiprType::Unknown,
        }
    }
}

} // verus!

verus! {

impl TypeChecker {
    // ── Statements ──

    fn check_block(&mut self, id: NodeId) -> (t: CiprType)
        requires
            old(self).wf(),
            id.0 < old(self).nodes().len(),
        ensures
            Self::kept(old(self), final(self)),
            t@ == SpecType::Void,
            predeclared(old(self).nodes(), id, old(self).struct_table(), old(self).nodes()[id.0 as int].children@.len()).1
                ==> final(self).error_flag(),
        decreases measure(old(self).nodes(), id), 1nat,
    {
        self.predeclare_structs(id);
        let ghost flagged = self.had_error;
        let n = self.kids_len(id);
        let mut i: usize = 0;
        while i < n
            invariant
                Self::kept(old(self), self),
                id.0 < old(self).nodes().len(),
                measure(self.nodes(), id) == measure(old(self).nodes(), id),
                flagged ==> self.had_error,
            decreases n - i,
        {
            self.check_kid(id, i);
            i = i + 1;
        }
        CiprType::Void
    }

    fn check_block_stmt(&mut self, id: NodeId) -> (t: CiprType)
        requires
            old(self).wf(),
            id.0 < old(self).nodes().len(),
        ensures
            Self::kept(old(self), final(self)),
            final(self).scopes_view() == old(self).scopes_view(),
            t@ == SpecType::Void,
            predeclared(old(self).nodes(), id, old(self).struct_table(), old(self).nodes()[id.0 as int].children@.len()).1
                ==> final(self).error_flag(),
        decreases measure(old(self).nodes(), id), 1nat,
    {
        self.env.enter_scope();
        let ghost depth = self.env.view_scopes().len();
        proof {
            assert(self.env.view_scopes().drop_last() =~= old(self).env.view_scopes());
        }
        self.predeclare_structs(id);
        let ghost flagged = self.had_error;
        let n = self.kids_len(id);
        let mut i: usize = 0;
        while i < n
            invariant
                flagged ==> self.had_error,
                self.wf(),
                stable(old(self).nodes(), self.nodes()),
                self.env.view_scopes().len() == depth,
                depth == old(self).env.view_scopes().len() + 1,
                self.env.view_scopes().drop_last() == old(self).env.view_scopes(),
                old(self).had_error ==> self.had_error,
                self.source_name == old(self).source_name,
                Self::reports_kept(old(self), self),
                self.current_return_type == old(self).current_return_type,
                id.0 < old(self).nodes().len(),
                measure(self.nodes(), id) == measure(old(self).nodes(), id),
            decreases n - i,
        {
            self.check_kid(id, i);
            i = i + 1;
        }
        self.env.exit_scope();
        CiprType::Void
    }

    fn check_include(&mut self, id: NodeId) -> (t: CiprType)
        requires
            old(self).wf(),
            id.0 < old(self).nodes().len(),
        ensures
            Self::kept(old(self), final(self)),
            t@ == SpecType::Void,
            predeclared(old(self).nodes(), id, old(self).struct_table(), old(self).nodes()[id.0 as int].children@.len()).1
                ==> final(self).error_flag(),
        decreases measure(old(self).nodes(), id), 2nat,
    {
        self.check_block(id)
    }

    fn check_expr_stmt(&mut self, id: NodeId) -> (t: CiprType)
        requires
            old(self).wf(),
            id.0 < old(self).nodes().len(),
        ensures
            Self::kept(old(self), final(self)),
            t@ == SpecType::Void,
        decreases measure(old(self).nodes(), id), 1nat,
    {
        self.check_kid(id, 0);
        CiprType::Void
    }

    fn check_if(&mut self, id: NodeId) -> (t: CiprType)
        requires
            old(self).wf(),
            id.0 < old(self).nodes().len(),
        ensures
            Self::kept(old(self), final(self)),
            old(self).condition(id) matches Some(ct) ==> (bad_condition(ct) ==> final(self).error_flag()),
        decreases measure(old(self).nodes(), id), 1nat,
    {
        let line = self.line_of(id);
        let cond_type = self.check_kid(id, 0);
        if !matches!(cond_type, CiprType::Bool) && !cond_type.is_unknown() {
            self.error(line, "Condition must be a boolean.");
        }
        self.check_kid(id, 1);
        self.check_kid(id, 2);
        CiprType::Void
    }

    fn check_while(&mut self, id: NodeId) -> (t: CiprType)
        requires
            old(self).wf(),
            id.0 < old(self).nodes().len(),
        ensures
            Self::kept(old(self), final(self)),
            old(self).condition(id) matches Some(ct) ==> (bad_condition(ct) ==> final(self).error_flag()),
        decreases measure(old(self).nodes(), id), 1nat,
    {
        let line = self.line_of(id);
        let cond_type = self.check_kid(id, 0);
        if !matches!(cond_type, CiprType::Bool) && !cond_type.is_unknown() {
            self.error(line, "Condition must be a boolean.");
        }
        self.check_kid(id, 1);
        CiprType::Void
    }

    fn check_return(&mut self, id: NodeId) -> (t: CiprType)
        requires
            old(self).wf(),
            id.0 < old(self).nodes().len(),
        ensures
            Self::kept(old(self), final(self)),
            old(self).return_at(id) matches Some(has_value) ==> {
                &&& old(self).expected_return() is None ==> final(self).error_flag()
                &&& (old(self).expected_return() == Some(SpecType::Void) && has_value) ==> final(self).error_flag()
            },
        decreases measure(old(self).nodes(), id), 1nat,
    {
        let line = self.line_of(id);
        let value_child = self.kid(id, 0);
        let val_type = self.check_kid(id, 0);
        match &self.current_return_type {
            Some(expected) => {
                let expected = expected.duplicate();
                if matches!(expected, CiprType::Void) && value_child.is_some() {
                    self.error(line, "Void functions cannot return a value.");
                } else if matches!(val_type, CiprType::Null) && !self.coerce_null_child(value_child, &expected) {
                    self.error(line, "Cannot return null from a non-pointer function.");
                } else if !types_match(&expected, &val_type) && !matches!(expected, CiprType::Void)
                    && !val_type.is_unknown() {
                    let mut m = String::new();
                    push_str(&mut m, "Expected return type ");
                    push_type(&mut m, &expected);
                    push_str(&mut m, " but got ");
                    push_type(&mut m, &val_type);
                    self.error(line, m.as_str());
                }
            },
            None => {
                self.error(line, "Cannot return from top-level code.");
            },
        }
        CiprType::Void
    }

    // ── Structs declared in a list of statements ──

    /// Registers the structs declared among the children of `id`, reporting
    /// those declared twice.
    fn predeclare_structs(&mut self, id: NodeId)
        requires
            old(self).wf(),
            id.0 < old(self).nodes().len(),
        ensures
            Self::kept(old(self), final(self)),
            final(self).nodes() == old(self).nodes(),
            final(self).current_return_type == old(self).current_return_type,
            final(self).struct_table() == predeclared(
                old(self).nodes(),
                id,
                old(self).struct_table(),
                old(self).nodes()[id.0 as int].children@.len(),
            ).0,
            final(self).error_flag() == (old(self).error_flag() || predeclared(
                old(self).nodes(),
                id,
                old(self).struct_table(),
                old(self).nodes()[id.0 as int].children@.len(),
            ).1),
            final(self).scopes_view() == old(self).scopes_view(),
    {
        let n = self.kids_len(id);
        let mut i: usize = 0;
        while i < n
            invariant
                Self::kept(old(self), self),
                self.nodes() == old(self).nodes(),
                self.current_return_type == old(self).current_return_type,
                self.env == old(self).env,
                id.0 < old(self).nodes().len(),
                i <= n,
                n == old(self).nodes()[id.0 as int].children@.len(),
                self.struct_table() == predeclared(old(self).nodes(), id, old(self).struct_table(), i as nat).0,
                self.had_error == (old(self).had_error || predeclared(old(self).nodes(), id, old(self).struct_table(), i as nat).1),
            decreases n - i,
        {
            if let Some(child) = self.kid(id, i) {
                if self.kind_of(child) == NodeType::StmtStructDecl {
                    if !self.register_struct_decl(child) {
                        let name = self.name_of(child);
                        let line = self.line_of(child);
                        let mut m = String::new();
                        push_str(&mut m, "Duplicate struct declaration '");
                        push_str(&mut m, name.as_str());
                        push_str(&mut m, "'.");
                        self.error(line, m.as_str());
                    }
                }
            }
            i = i + 1;
        }
    }

    fn find_struct(&self, name: &str) -> (r: Option<usize>)
        ensures
            r matches Some(k) ==> k < self.structs@.len() && self.structs@[k as int].0@ == name@ && first_named(
                self.struct_table(),
                name@,
                k as int,
            ) && self.struct_def(name@) == Some(fields_view(self.structs@[k as int].1@)),
            r is None ==> !struct_declared(self.structs@, name@) && self.struct_def(name@) is None,
    {
        let ghost tv = self.struct_table();
        let mut i: usize = 0;
        while i < self.structs.len()
            invariant
                i <= self.structs@.len(),
                tv == table_view(self.structs@),
                forall|k: int| 0 <= k < i ==> self.structs@[k].0@ != name@,
            decreases self.structs@.len() - i,
        {
            if str_eq(self.structs[i].0.as_str(), name) {
                proof {
                    assert forall|j: int| 0 <= j < i implies (#[trigger] tv[j]).0 != name@ by {
                        assert(tv[j].0 == self.structs@[j].0@);
                    }
                    assert(tv[i as int].0 == self.structs@[i as int].0@);
                    lemma_lookup_at(tv, name@, i as int);
                }
                return Some(i);
            }
            i = i + 1;
        }
        proof {
            assert forall|j: int| 0 <= j < tv.len() implies (#[trigger] tv[j]).0 != name@ by {
                assert(tv[j].0 == self.structs@[j].0@);
            }
            lemma_lookup_none(tv, name@);
        }
        None
    }

    /// The fields of the struct named `name`, if it is declared.
    fn struct_fields(&self, name: &str) -> (r: Option<Vec<(String, CiprType)>>)
        ensures
            r matches Some(v) ==> self.struct_def(name@) == Some(fields_view(v@)),
            r is None ==> self.struct_def(name@) is None,
    {
        match self.find_struct(name) {
            Some(k) => {
                let fields = &self.structs[k].1;
                let mut out: Vec<(String, CiprType)> = Vec::new();
                let mut i: usize = 0;
                while i < fields.len()
                    invariant
                        i <= fields@.len(),
                        out@.len() == i,
                        forall|j: int| 0 <= j < i ==> (#[trigger] out@[j]).0@ == fields@[j].0@ && out@[j].1@ == fields@[j].1@,
                    decreases fields@.len() - i,
                {
                    out.push((fields[i].0.clone(), fields[i].1.duplicate()));
                    i = i + 1;
                }
                proof {
                    assert(fields_view(out@) =~= fields_view(fields@)) by {
                        assert forall|j: int| 0 <= j < out@.len() implies fields_view(out@)[j] == fields_view(fields@)[j] by {
                            assert(out@[j].0@ == fields@[j].0@);
                        }
                    }
                }
                Some(out)
            },
            None => None,
        }
    }

    /// Registers the struct declared by node `id`; false where a struct of
    /// that name is already registered.
    fn register_struct_decl(&mut self, id: NodeId) -> (r: bool)
        requires
            old(self).wf(),
            id.0 < old(self).nodes().len(),
        ensures
            Self::kept(old(self), final(self)),
            final(self).nodes() == old(self).nodes(),
            final(self).had_error == old(self).had_error,
            final(self).current_return_type == old(self).current_return_type,
            *final(self) == (TypeChecker { structs: final(self).structs, ..*old(self) }),
            r == (old(self).struct_def(old(self).nodes()[id.0 as int].token.lexeme@) is None),
            final(self).struct_table() == with_struct(old(self).struct_table(), old(self).nodes(), id),
    {
        let name = self.name_of(id);
        if self.find_struct(name.as_str()).is_some() {
            return false;
        }
        let mut fields: Vec<(String, CiprType)> = Vec::new();
        let n = self.kids_len(id);
        let mut i: usize = 0;
        while i < n
            invariant
                self.wf(),
                id.0 < self.nodes().len(),
                i <= n,
                n == self.nodes()[id.0 as int].children@.len(),
                fields_view(fields@) == decl_fields(self.nodes(), id, i as nat),
            decreases n - i,
        {
            let ghost before = fields@;
            if let Some(child_id) = self.kid(id, i) {
                let field_name = self.name_of(child_id);
                let field_type = self.annotation_of(child_id);
                fields.push((field_name, field_type));
                proof {
                    assert(fields_view(fields@) =~= fields_view(before).push(
                        (self.nodes()[child_id.0 as int].token.lexeme@, annotated_type(self.nodes()[child_id.0 as int])),
                    ));
                }
            }
            i = i + 1;
        }
        let ghost old_structs = self.structs@;
        let ghost entry = (name@, fields_view(fields@));
        self.structs.push((name, fields));
        proof {
            assert(table_view(self.structs@) =~= table_view(old_structs).push(entry));
        }
        true
    }

    fn check_struct_decl(&mut self, id: NodeId) -> (t: CiprType)
        requires
            old(self).wf(),
            id.0 < old(self).nodes().len(),
        ensures
            Self::kept(old(self), final(self)),
            t@ == SpecType::Struct(old(self).nodes()[id.0 as int].token.lexeme@),
            final(self).struct_table() == with_struct(old(self).struct_table(), old(self).nodes(), id),
        decreases measure(old(self).nodes(), id), 1nat,
    {
        let name = self.name_of(id);
        if self.find_struct(name.as_str()).is_none() {
            let _ = self.register_struct_decl(id);
        }
        let ghost registered = self.structs;
        let n = self.kids_len(id);
        let mut i: usize = 0;
        while i < n
            invariant
                Self::kept(old(self), self),
                id.0 < old(self).nodes().len(),
                self.structs == registered,
            decreases n - i,
        {
            if let Some(child_id) = self.kid(id, i) {
                let field_type = self.annotation_of(child_id);
                let line = self.line_of(child_id);
                self.validate_value_type(&field_type, line, "Struct field type");
                self.set_type(child_id, field_type);
            }
            i = i + 1;
        }
        CiprType::Struct(name)
    }
}

} // verus!

verus! {

impl TypeChecker {
    // ── Validity of declared types ──

    /// Reports, at `line`, each undeclared struct and each pointer to void
    /// that `ty` names.
    fn validate_type(&mut self, ty: &CiprType, line: usize)
        ensures
            *final(self) == (TypeChecker { had_error: final(self).had_error, diagnostics: final(self).diagnostics, ..*old(self) }),
            Self::reports_kept(old(self), final(self)),
            final(self).had_error == (old(self).had_error || !type_valid(ty@, old(self).structs@)),
        decreases ty,
    {
        match ty {
            CiprType::Array(inner) => self.validate_type(&**inner, line),
            CiprType::Pointer(inner) => {
                if matches!(**inner, CiprType::Void) {
                    self.error(line, "Pointers to void are not supported.");
                }
                self.validate_type(&**inner, line);
            },
            CiprType::Callable(params, ret) => {
                let ghost before = *self;
                let mut i: usize = 0;
                #[verifier::loop_isolation(false)]
                while i < params.len()
                    invariant
                        i <= params@.len(),
                        *self == (TypeChecker { had_error: self.had_error, diagnostics: self.diagnostics, ..before }),
                        Self::reports_kept(&before, self),
                        self.had_error == (before.had_error || exists|j: int| 0 <= j < i && !type_valid(#[trigger] params@[j]@, before.structs@)),
                    decreases params@.len() - i,
                {
                    self.validate_type(&params[i], line);
                    i = i + 1;
                }
                self.validate_type(&**ret, line);
                proof {
                    let ps = ty@->Callable_0;
                    assert forall|j: int| 0 <= j < ps.len() implies ps[j] == params@[j]@ by {}
                    if exists|j: int| 0 <= j < params@.len() && !type_valid(#[trigger] params@[j]@, before.structs@) {
                        let j = choose|j: int| 0 <= j < params@.len() && !type_valid(#[trigger] params@[j]@, before.structs@);
                        assert(!type_valid(ps[j], before.structs@));
                    }
                }
            },
            CiprType::Struct(name) => {
                if self.find_struct(name.as_str()).is_none() {
                    let mut m = String::new();
                    push_str(&mut m, "Undefined type '");
                    push_str(&mut m, name.as_str());
                    push_str(&mut m, "'.");
                    self.error(line, m.as_str());
                }
            },
            _ => {},
        }
    }

    /// Reports, at `line`, each place where `ty` would hold a void value or
    /// return an array; `context` names what `ty` is the type of.
    fn enforce_value_type_rules(&mut self, ty: &CiprType, line: usize, context: &str)
        ensures
            *final(self) == (TypeChecker { had_error: final(self).had_error, diagnostics: final(self).diagnostics, ..*old(self) }),
            Self::reports_kept(old(self), final(self)),
            final(self).had_error == (old(self).had_error || !value_type_ok(ty@)),
        decreases ty, 1nat,
    {
        match ty {
            CiprType::Void => {
                let mut m = String::new();
                push_str(&mut m, context);
                push_str(&mut m, " cannot be void.");
                self.error(line, m.as_str());
            },
            CiprType::Array(inner) => self.enforce_value_type_rules(&**inner, line, "Array element type"),
            CiprType::Pointer(inner) => {
                if !matches!(**inner, CiprType::Void) {
                    self.enforce_value_type_rules(&**inner, line, "Pointer target type");
                }
            },
            CiprType::Callable(params, ret) => {
                let ghost before = *self;
                let mut i: usize = 0;
                #[verifier::loop_isolation(false)]
                while i < params.len()
                    invariant
                        i <= params@.len(),
                        *self == (TypeChecker { had_error: self.had_error, diagnostics: self.diagnostics, ..before }),
                        Self::reports_kept(&before, self),
                        self.had_error == (before.had_error || exists|j: int| 0 <= j < i && !value_type_ok(#[trigger] params@[j]@)),
                    decreases params@.len() - i,
                {
                    self.enforce_value_type_rules(&params[i], line, "Function parameter type");
                    i = i + 1;
                }
                self.enforce_return_type_rules(&**ret, line, "Function return type");
                proof {
                    let ps = ty@->Callable_0;
                    assert forall|j: int| 0 <= j < ps.len() implies ps[j] == params@[j]@ by {}
                    if exists|j: int| 0 <= j < params@.len() && !value_type_ok(#[trigger] params@[j]@) {
                        let j = choose|j: int| 0 <= j < params@.len() && !value_type_ok(#[trigger] params@[j]@);
                        assert(!value_type_ok(ps[j]));
                    }
                }
            },
            _ => {},
        }
    }

    /// Reports, at `line`, a returned array or a value type that breaks the
    /// rules of [`Self::enforce_value_type_rules`]; void is allowed.
    fn enforce_return_type_rules(&mut self, ty: &CiprType, line: usize, context: &str)
        ensures
            *final(self) == (TypeChecker { had_error: final(self).had_error, diagnostics: final(self).diagnostics, ..*old(self) }),
            Self::reports_kept(old(self), final(self)),
            final(self).had_error == (old(self).had_error || !return_type_ok(ty@)),
        decreases ty, 2nat,
    {
        match ty {
            CiprType::Array(_) => {
                let mut m = String::new();
                push_str(&mut m, context);
                push_str(&mut m, " cannot be an array. Arrays are stack-allocated and cannot be returned.");
                self.error(line, m.as_str());
            },
            CiprType::Void => {},
            _ => self.enforce_value_type_rules(ty, line, context),
        }
    }

    /// Checks a type that a value will have.
    fn validate_value_type(&mut self, ty: &CiprType, line: usize, context: &str)
        ensures
            *final(self) == (TypeChecker { had_error: final(self).had_error, diagnostics: final(self).diagnostics, ..*old(self) }),
            Self::reports_kept(old(self), final(self)),
            final(self).had_error == (old(self).had_error || !type_valid(ty@, old(self).structs@) || !value_type_ok(ty@)),
    {
        self.validate_type(ty, line);
        self.enforce_value_type_rules(ty, line, context);
    }

    /// Checks a type that a function will return.
    fn validate_return_type(&mut self, ty: &CiprType, line: usize, context: &str)
        ensures
            *final(self) == (TypeChecker { had_error: final(self).had_error, diagnostics: final(self).diagnostics, ..*old(self) }),
            Self::reports_kept(old(self), final(self)),
            final(self).had_error == (old(self).had_error || !type_valid(ty@, old(self).structs@) || !return_type_ok(ty@)),
    {
        self.validate_type(ty, line);
        self.enforce_return_type_rules(ty, line, context);
    }

    /// Where the child is an untyped null and `expected` is a pointer type,
    /// gives the null (and the groupings around it) that type.
    fn coerce_null_child(&mut self, child_opt: Option<NodeId>, expected: &CiprType) -> (r: bool)
        requires
            old(self).wf(),
            child_opt matches Some(c) ==> c.0 < old(self).nodes().len(),
        ensures
            Self::kept(old(self), final(self)),
            final(self).nodes().len() == old(self).nodes().len(),
            final(self).had_error == old(self).had_error,
            final(self).current_return_type == old(self).current_return_type,
            r == (child_opt matches Some(c) && old(self).nodes()[c.0 as int].resolved_type@ == SpecType::Null
                && expected@ is Pointer),
            same_shape(old(self).nodes(), final(self).nodes()),
            final(self).env == old(self).env,
            final(self).structs == old(self).structs,
            child_opt matches Some(c) ==> forall|i: int|
                0 <= i < old(self).nodes().len() && old(self).nodes()[i].children@.len() > 0 && i != c.0 && !(i < c.0
                    && old(self).nodes()[c.0 as int].children@.len() > 0) ==> #[trigger] final(self).nodes()[i] == old(
                    self,
                ).nodes()[i],
            r ==> match child_opt {
                Some(c) => final(self).nodes()[c.0 as int].resolved_type@ == expected@,
                None => false,
            },
            !r ==> final(self).nodes() == old(self).nodes(),
        decreases opt_measure(old(self).nodes(), child_opt),
    {
        match child_opt {
            None => false,
            Some(c) => {
                let t = self.resolved_of(c);
                if !matches!(t, CiprType::Null) || !expected.is_pointer() {
                    return false;
                }
                self.set_type(c, expected.duplicate());
                if self.kind_of(c) == NodeType::Grouping {
                    if let Some(nested) = self.kid(c, 0) {
                        let ghost mid = *self;
                        proof {
                            assert(mid.nodes()[c.0 as int].children@.len() > 0);
                        }
                        self.coerce_null_child(Some(nested), expected);
                        proof {
                            lemma_stable_trans(old(self).nodes(), mid.nodes(), self.nodes());
                            lemma_shape_trans(old(self).nodes(), mid.nodes(), self.nodes());
                            assert(self.nodes()[c.0 as int] == mid.nodes()[c.0 as int]);
                        }
                    }
                }
                true
            },
        }
    }

    /// Refuses a struct literal or `new` of the opaque `String` struct.
    fn reject_opaque_string_construction(&mut self, struct_name: &str, line: usize, context: &str) -> (r: bool)
        ensures
            r == (struct_name@ == "String"@),
            *final(self) == (TypeChecker { had_error: final(self).had_error, diagnostics: final(self).diagnostics, ..*old(self) }),
            Self::reports_kept(old(self), final(self)),
            final(self).had_error == (old(self).had_error || r),
    {
        if !str_eq(struct_name, "String") {
            return false;
        }
        let mut m = String::new();
        push_str(&mut m, "String is opaque; use string_from(...) or a string-producing API instead of ");
        push_str(&mut m, context);
        push_str(&mut m, ".");
        self.error(line, m.as_str());
        true
    }
}

} // verus!

verus! {

/// Giving a non-leaf node new children that are all earlier nodes or
/// leaves keeps an arena well formed, and changes no node's kind.
proof fn lemma_rewrite_wf(grown: Seq<Node>, after: Seq<Node>, call: int, children: Seq<Option<NodeId>>)
    requires
        nodes_wf(grown),
        0 <= call < grown.len(),
        grown[call].children@.len() > 0,
        children.len() > 0,
        after == grown.update(call, Node { children: after[call].children, ..grown[call] }),
        after[call].children@ == children,
        forall|j: int| 0 <= j < children.len() ==> (#[trigger] children[j] matches Some(c)
            ==> c.0 < grown.len() && (c.0 < call || grown[c.0 as int].children@.len() == 0)),
    ensures
        nodes_wf(after),
        stable(grown, after),
{
    assert forall|i: int, k: int|
        0 <= i < after.len() && 0 <= k < after[i].children@.len() && (#[trigger] after[i].children@[k]) is Some implies {
        let c = child_index(after[i].children@[k]);
        &&& c < after.len()
        &&& (c < i || after[c].children@.len() == 0)
    } by {
        if i == call {
            assert(children[k] is Some);
            let c = child_index(children[k]);
            if c != call {
                assert(after[c] == grown[c]);
            }
        } else {
            assert(after[i] == grown[i]);
            let c = child_index(grown[i].children@[k]);
            if c != call {
                assert(after[c] == grown[c]);
            }
        }
    }
    assert forall|i: int| 0 <= i < grown.len() implies {
        &&& (#[trigger] after[i]).node_type == grown[i].node_type
        &&& (after[i].children@.len() == 0) == (grown[i].children@.len() == 0)
    } by {
        if i != call {
            assert(after[i] == grown[i]);
        }
    }
}

/// `prefix`, then the debug texts of two types joined by " and ".
fn pair_message(prefix: &str, a: &CiprType, b: &CiprType) -> (m: String)
    ensures
        m@ == prefix@ + type_text(a@) + " and "@ + type_text(b@),
{
    let mut m = String::new();
    push_str(&mut m, prefix);
    push_type(&mut m, a);
    push_str(&mut m, " and ");
    push_type(&mut m, b);
    m
}

/// "Cannot assign `val` to `what` of type `target`".
fn assign_message(val: &CiprType, what: &str, target: &CiprType) -> (m: String)
    ensures
        m@ == "Cannot assign "@ + type_text(val@) + " to "@ + what@ + " of type "@ + type_text(target@),
{
    let mut m = String::new();
    push_str(&mut m, "Cannot assign ");
    push_type(&mut m, val);
    push_str(&mut m, " to ");
    push_str(&mut m, what);
    push_str(&mut m, " of type ");
    push_type(&mut m, target);
    m
}

impl TypeChecker {
    fn op_of(&self, id: NodeId) -> (t: TokenType)
        requires
            id.0 < self.nodes().len(),
        ensures
            t == self.nodes()[id.0 as int].token.token_type,
    {
        self.arena.get(id).token.token_type
    }

    // ── Variables ──

    fn check_var_decl(&mut self, id: NodeId) -> (t: CiprType)
        requires
            old(self).wf(),
            id.0 < old(self).nodes().len(),
        ensures
            Self::kept(old(self), final(self)),
            old(self).declaration(id) matches Some((name, dt, err)) ==> t@ == dt && final(self).knows(name) == Some(dt)
                && (err ==> final(self).error_flag()),
        decreases measure(old(self).nodes(), id), 1nat,
    {
        let name = self.name_of(id);
        let line = self.line_of(id);
        let declared = self.annotation_of(id);
        let init_type = self.check_kid(id, 0);
        let final_type = if !declared.is_unknown() {
            if !init_type.is_unknown() && !types_equal(&init_type, &declared) {
                let m = assign_message(&init_type, "variable", &declared);
                self.error(line, m.as_str());
            }
            declared
        } else if !init_type.is_unknown() {
            init_type
        } else {
            self.error(line, "Variables must have a type annotation or an initializer.");
            CiprType::Unknown
        };
        let ghost before = self.env.view_scopes();
        let ghost ft = final_type@;
        self.env.define(name.as_str(), final_type.duplicate());
        proof {
            env::law_define_then_get(before, name@, ft);
        }
        final_type
    }

    fn check_assign(&mut self, id: NodeId) -> (t: CiprType)
        requires
            old(self).wf(),
            id.0 < old(self).nodes().len(),
        ensures
            Self::kept(old(self), final(self)),
            t@ == match final(self).knows(old(self).nodes()[id.0 as int].token.lexeme@) {
                Some(vt) => vt,
                None => SpecType::Unknown,
            },
            final(self).knows(old(self).nodes()[id.0 as int].token.lexeme@) is None ==> final(self).error_flag(),
            final(self).knows(old(self).nodes()[id.0 as int].token.lexeme@) matches Some(vt) ==> ((vt != SpecType::Unknown
                && checked_kid(old(self).nodes(), final(self).nodes(), id, 0) != SpecType::Unknown && vt != checked_kid(
                old(self).nodes(),
                final(self).nodes(),
                id,
                0,
            )) ==> final(self).error_flag()),
        decreases measure(old(self).nodes(), id), 1nat,
    {
        let name = self.name_of(id);
        let line = self.line_of(id);
        let val_type = self.check_kid(id, 0);
        match self.env.get(name.as_str()) {
            Some(var_type) => {
                if !var_type.is_unknown() && !val_type.is_unknown() && !types_equal(&var_type, &val_type) {
                    let m = assign_message(&val_type, "variable", &var_type);
                    self.error(line, m.as_str());
                }
                var_type
            },
            None => {
                let mut m = String::new();
                push_str(&mut m, "Undefined variable '");
                push_str(&mut m, name.as_str());
                push_str(&mut m, "'.");
                self.error(line, m.as_str());
                CiprType::Unknown
            },
        }
    }

    fn check_var_expr(&mut self, id: NodeId) -> (t: CiprType)
        requires
            old(self).wf(),
            id.0 < old(self).nodes().len(),
            old(self).nodes()[id.0 as int].node_type == NodeType::VarExpr,
        ensures
            final(self).error_flag() == (old(self).error_flag() || old(self).knows(old(self).nodes()[id.0 as int].token.lexeme@)
                is None),
            Self::kept(old(self), final(self)),
            old(self).rule_type(id) matches Some(t0) ==> t@ == t0 && same_shape(old(self).nodes(), final(self).nodes())
                && final(self).scopes_view() == old(self).scopes_view(),
        decreases measure(old(self).nodes(), id), 1nat,
    {
        let name = self.name_of(id);
        let line = self.line_of(id);
        match self.env.get(name.as_str()) {
            Some(t) => t,
            None => {
                let mut m = String::new();
                push_str(&mut m, "Undefined variable '");
                push_str(&mut m, name.as_str());
                push_str(&mut m, "'.");
                self.error(line, m.as_str());
                CiprType::Unknown
            },
        }
    }

    // ── Operators ──

    fn check_literal(&mut self, id: NodeId) -> (t: CiprType)
        requires
            old(self).wf(),
            id.0 < old(self).nodes().len(),
            old(self).nodes()[id.0 as int].node_type == NodeType::Literal,
        ensures
            final(self).error_flag() == old(self).error_flag(),
            Self::kept(old(self), final(self)),
            t@ == match old(self).nodes()[id.0 as int].value {
                Value::Int(_) => SpecType::Int,
                Value::Float(_) => SpecType::Float,
                Value::Str(_) => SpecType::Str,
                Value::Bool(_) => SpecType::Bool,
                Value::Null => SpecType::Null,
            },
        old(self).rule_type(id) matches Some(t0) ==> t@ == t0 && same_shape(old(self).nodes(), final(self).nodes())
                && final(self).scopes_view() == old(self).scopes_view(),
        decreases measure(old(self).nodes(), id), 1nat,
    {
        match &self.arena.get(id).value {
            Value::Int(_) => CiprType::Int,
            Value::Float(_) => CiprType::Float,
            Value::Str(_) => CiprType::Str,
            Value::Bool(_) => CiprType::Bool,
            Value::Null => CiprType::Null,
        }
    }

    #[verifier::rlimit(80)]
    fn check_binary(&mut self, id: NodeId) -> (t: CiprType)
        requires
            old(self).wf(),
            id.0 < old(self).nodes().len(),
            old(self).nodes()[id.0 as int].node_type == NodeType::Binary,
        ensures
            Self::kept(old(self), final(self)),
            old(self).rule_type(id) matches Some(t0) ==> t@ == t0 && same_shape(old(self).nodes(), final(self).nodes())
                && final(self).scopes_view() == old(self).scopes_view(),
            expr_reports(old(self).nodes(), old(self).scopes_view(), id) matches Some(e) ==> final(self).error_flag() == (
            old(self).error_flag() || e),
            (old(self).rule_type(id) is Some && null_beside_pointer(old(self).nodes(), old(self).scopes_view(), id, 0))
                ==> checked_kid(old(self).nodes(), final(self).nodes(), id, 0) != SpecType::Null,
            (old(self).rule_type(id) is Some && null_beside_pointer(old(self).nodes(), old(self).scopes_view(), id, 1))
                ==> checked_kid(old(self).nodes(), final(self).nodes(), id, 1) != SpecType::Null,
        decreases measure(old(self).nodes(), id), 1nat,
    {
        let op = self.op_of(id);
        let line = self.line_of(id);
        let left = self.check_kid(id, 0);
        let ghost mid = self.nodes();
        proof {
            if old(self).rule_type(id) is Some {
                lemma_shape_kid_type(old(self).nodes(), mid, old(self).scopes_view(), id, 1);
                lemma_shape_kid_reports(old(self).nodes(), mid, old(self).scopes_view(), id, 1);
            }
        }
        let right = self.check_kid(id, 1);
        let ghost after_kids = self.nodes();
        let ghost flag_kids = self.had_error;
        proof {
            if old(self).rule_type(id) is Some {
                lemma_shape_trans(old(self).nodes(), mid, after_kids);
            }
            if expr_reports(old(self).nodes(), old(self).scopes_view(), id) is Some {
                let a = kid_reports(old(self).nodes(), old(self).scopes_view(), id, 0)->0;
                let b = kid_reports(old(self).nodes(), old(self).scopes_view(), id, 1)->0;
                assert(flag_kids == (old(self).had_error || a || b));
                assert(left@ == kid_type(old(self).nodes(), old(self).scopes_view(), id, 0)->0);
                assert(right@ == kid_type(old(self).nodes(), old(self).scopes_view(), id, 1)->0);
            }
        }
        match op {
            TokenType::Plus | TokenType::Minus | TokenType::Star | TokenType::Slash => {
                if matches!(left, CiprType::Int) && matches!(right, CiprType::Int) {
                    CiprType::Int
                } else if matches!(left, CiprType::Float) && matches!(right, CiprType::Float) {
                    CiprType::Float
                } else if op == TokenType::Plus && matches!(left, CiprType::Str) && matches!(right, CiprType::Str) {
                    CiprType::Str
                } else if left.is_unknown() || right.is_unknown() {
                    CiprType::Unknown
                } else {
                    let m = pair_message("Arithmetic operators require matching Int or Float operands, got ", &left, &right);
                    self.error(line, m.as_str());
                    CiprType::Unknown
                }
            },
            TokenType::Greater | TokenType::GreaterEqual | TokenType::Less | TokenType::LessEqual => {
                if (matches!(left, CiprType::Int) && matches!(right, CiprType::Int)) || (matches!(left, CiprType::Float)
                    && matches!(right, CiprType::Float)) || left.is_unknown() || right.is_unknown() {
                    CiprType::Bool
                } else {
                    let m = pair_message("Ordering comparisons require matching Int or Float operands, got ", &left, &right);
                    self.error(line, m.as_str());
                    CiprType::Unknown
                }
            },
            TokenType::EqualEqual | TokenType::BangEqual => {
                if matches!(left, CiprType::Null) && matches!(right, CiprType::Null) {
                    self.error(line, "Cannot compare two untyped null values.");
                    return CiprType::Unknown;
                }
                if matches!(left, CiprType::Null) && right.is_pointer() {
                    let c = self.kid(id, 0);
                    self.coerce_null_child(c, &right);
                    proof {
                        if old(self).rule_type(id) is Some {
                            lemma_shape_trans(old(self).nodes(), after_kids, self.nodes());
                        }
                    }
                    return CiprType::Bool;
                }
                if matches!(right, CiprType::Null) && left.is_pointer() {
                    let c = self.kid(id, 1);
                    self.coerce_null_child(c, &left);
                    proof {
                        if old(self).rule_type(id) is Some {
                            lemma_shape_trans(old(self).nodes(), after_kids, self.nodes());
                        }
                    }
                    return CiprType::Bool;
                }
                let comparable = (matches!(left, CiprType::Int) && matches!(right, CiprType::Int))
                    || (matches!(left, CiprType::Float) && matches!(right, CiprType::Float))
                    || (matches!(left, CiprType::Bool) && matches!(right, CiprType::Bool))
                    || (left.is_pointer() && right.is_pointer());
                if comparable {
                    if types_equal(&left, &right) {
                        CiprType::Bool
                    } else {
                        let m = pair_message("Equality comparisons require matching operand types, got ", &left, &right);
                        self.error(line, m.as_str());
                        CiprType::Unknown
                    }
                } else if left.is_unknown() || right.is_unknown() {
                    CiprType::Bool
                } else {
                    let m = pair_message(
                        "Equality comparisons are only supported for Int, Float, Bool, and Pointer operands, got ",
                        &left,
                        &right,
                    );
                    self.error(line, m.as_str());
                    CiprType::Unknown
                }
            },
            _ => CiprType::Unknown,
        }
    }

    fn check_unary(&mut self, id: NodeId) -> (t: CiprType)
        requires
            old(self).wf(),
            id.0 < old(self).nodes().len(),
            old(self).nodes()[id.0 as int].node_type == NodeType::Unary,
        ensures
            Self::kept(old(self), final(self)),
            expr_reports(old(self).nodes(), old(self).scopes_view(), id) matches Some(e) ==> final(self).error_flag() == (
            old(self).error_flag() || e),
            old(self).rule_type(id) matches Some(t0) ==> t@ == t0 && same_shape(old(self).nodes(), final(self).nodes())
                && final(self).scopes_view() == old(self).scopes_view(),
        decreases measure(old(self).nodes(), id), 1nat,
    {
        let op = self.op_of(id);
        let line = self.line_of(id);
        let right = self.check_kid(id, 0);
        match op {
            TokenType::Minus => {
                if !matches!(right, CiprType::Int) && !matches!(right, CiprType::Float) && !right.is_unknown() {
                    self.error(line, "Operand must be Int or Float.");
                    CiprType::Unknown
                } else {
                    right
                }
            },
            TokenType::Bang => {
                if !matches!(right, CiprType::Bool) && !right.is_unknown() {
                    self.error(line, "Operand of '!' must be Bool.");
                    CiprType::Unknown
                } else {
                    CiprType::Bool
                }
            },
            _ => CiprType::Unknown,
        }
    }

    fn check_logical(&mut self, id: NodeId) -> (t: CiprType)
        requires
            old(self).wf(),
            id.0 < old(self).nodes().len(),
            old(self).nodes()[id.0 as int].node_type == NodeType::Logical,
        ensures
            Self::kept(old(self), final(self)),
            expr_reports(old(self).nodes(), old(self).scopes_view(), id) matches Some(e) ==> final(self).error_flag() == (
            old(self).error_flag() || e),
            old(self).rule_type(id) matches Some(t0) ==> t@ == t0 && same_shape(old(self).nodes(), final(self).nodes())
                && final(self).scopes_view() == old(self).scopes_view(),
        decreases measure(old(self).nodes(), id), 1nat,
    {
        let line = self.line_of(id);
        let left = self.check_kid(id, 0);
        let ghost mid = self.nodes();
        proof {
            if old(self).rule_type(id) is Some {
                lemma_shape_kid_type(old(self).nodes(), mid, old(self).scopes_view(), id, 1);
                lemma_shape_kid_reports(old(self).nodes(), mid, old(self).scopes_view(), id, 1);
            }
        }
        let right = self.check_kid(id, 1);
        let ghost after_kids = self.nodes();
        proof {
            if old(self).rule_type(id) is Some {
                lemma_shape_trans(old(self).nodes(), mid, after_kids);
            }
        }
        let left_ok = matches!(left, CiprType::Bool) || left.is_unknown();
        let right_ok = matches!(right, CiprType::Bool) || right.is_unknown();
        if !left_ok || !right_ok {
            let m = pair_message("Logical operators require Bool operands, got ", &left, &right);
            self.error(line, m.as_str());
            CiprType::Unknown
        } else {
            CiprType::Bool
        }
    }
}

} // verus!

verus! {

impl TypeChecker {
    // ── Struct tables ──

    /// The type of field `field` of the `k`-th registered struct.
    fn field_type(&self, k: usize, field: &str) -> (r: Option<CiprType>)
        requires
            k < self.structs@.len(),
        ensures
            r matches Some(t) ==> lookup_named(fields_view(self.structs@[k as int].1@), field@) == Some(t@),
            r is None ==> lookup_named(fields_view(self.structs@[k as int].1@), field@) is None,
    {
        let fields = &self.structs[k].1;
        let ghost fv = fields_view(fields@);
        assert(fields@ == self.structs@[k as int].1@);
        let mut i: usize = 0;
        while i < fields.len()
            invariant
                i <= fields@.len(),
                fv == fields_view(fields@),
                k < self.structs@.len(),
                fields@ == self.structs@[k as int].1@,
                forall|j: int| 0 <= j < i ==> (#[trigger] fields@[j]).0@ != field@,
            decreases fields@.len() - i,
        {
            if str_eq(fields[i].0.as_str(), field) {
                let t = fields[i].1.duplicate();
                proof {
                    assert forall|j: int| 0 <= j < i implies (#[trigger] fv[j]).0 != field@ by {
                        assert(fv[j].0 == fields@[j].0@);
                    }
                    assert(fv[i as int] == (fields@[i as int].0@, fields@[i as int].1@));
                    lemma_lookup_at(fv, field@, i as int);
                }
                return Some(t);
            }
            i = i + 1;
        }
        proof {
            assert forall|j: int| 0 <= j < fv.len() implies (#[trigger] fv[j]).0 != field@ by {
                assert(fv[j].0 == fields@[j].0@);
            }
            lemma_lookup_none(fv, field@);
        }
        None
    }

    /// The struct named by a struct type or a pointer to one.
    fn receiver_struct_name(t: &CiprType) -> (r: Option<String>)
        ensures
            r matches Some(s) ==> receiver_struct(t@) == Some(s@),
            r is None ==> receiver_struct(t@) is None,
    {
        match t {
            CiprType::Struct(name) => Some(name.clone()),
            CiprType::Pointer(inner) => {
                assert(t@ == SpecType::Pointer(Box::new((**inner)@)));
                match &**inner {
                    CiprType::Struct(name) => Some(name.clone()),
                    _ => None,
                }
            },
            _ => None,
        }
    }

    /// Whether the receiver's struct has a field named `field_name`.
    fn receiver_has_field(&self, receiver_type: &CiprType, field_name: &str) -> (r: bool)
        ensures
            r == match receiver_struct(receiver_type@) {
                Some(n) => match self.struct_def(n) {
                    Some(fs) => lookup_named(fs, field_name@) is Some,
                    None => false,
                },
                None => false,
            },
    {
        match Self::receiver_struct_name(receiver_type) {
            Some(name) => match self.find_struct(name.as_str()) {
                Some(k) => self.field_type(k, field_name).is_some(),
                None => false,
            },
            None => false,
        }
    }

    /// The prefix of the free functions that act as methods of the receiver.
    fn ufcs_base_type_name(receiver_type: &CiprType) -> (r: Option<String>)
        ensures
            r matches Some(s) ==> ufcs_base(receiver_type@) == Some(s@),
            r is None ==> ufcs_base(receiver_type@) is None,
    {
        match receiver_type {
            CiprType::Str => Some("str".to_string()),
            _ => Self::receiver_struct_name(receiver_type),
        }
    }

    /// Whether a function of type `candidate_type` takes the receiver first.
    fn ufcs_receiver_compatible(&self, candidate_type: &CiprType, receiver_type: &CiprType) -> (r: bool)
        ensures
            r == match candidate_type@ {
                SpecType::Callable(ps, _) => ps.len() > 0 && types_match_spec(ps[0], receiver_type@),
                _ => false,
            },
    {
        match candidate_type {
            CiprType::Callable(params, _) => params.len() > 0 && types_match(&params[0], receiver_type),
            _ => false,
        }
    }

    // ── Calls ──

    /// Rewrites `receiver.method(args)` into a call of the free function
    /// `Type_method` or `method` with the receiver first, where one exists.
    /// Gives the call's type where the call is settled here.
    fn maybe_rewrite_ufcs_call(&mut self, call_id: NodeId) -> (r: Option<CiprType>)
        requires
            old(self).wf(),
            call_id.0 < old(self).nodes().len(),
        ensures
            Self::kept(old(self), final(self)),
            r matches Some(t) ==> t@ == SpecType::Unknown,
            callee_of(old(self).nodes(), call_id) is None ==> r is Some && *final(self) == *old(self),
            callee_of(old(self).nodes(), call_id) matches Some(c) ==> {
                &&& old(self).nodes()[c.0 as int].node_type != NodeType::GetField ==> r is None && *final(self) == *old(
                    self,
                )
                &&& (old(self).nodes()[c.0 as int].node_type == NodeType::GetField && callee_of(old(self).nodes(), c) is None)
                    ==> r is Some && *final(self) == *old(self)
                &&& (old(self).nodes()[c.0 as int].node_type == NodeType::GetField && callee_of(old(self).nodes(), c) is Some
                    && r is Some) ==> final(self).error_flag()
                &&& old(self).nodes()[c.0 as int].node_type == NodeType::GetField ==> (callee_of(old(self).nodes(), c)
                    matches Some(rv) ==> final(self).ufcs_outcome(
                    call_id,
                    rv,
                    old(self).nodes()[c.0 as int].token.lexeme@,
                    r is None,
                ))
            },
        decreases measure(old(self).nodes(), call_id), 0nat,
    {
        let callee_id = match self.kid(call_id, 0) {
            Some(c) => c,
            None => return Some(CiprType::Unknown),
        };
        if self.kind_of(callee_id) != NodeType::GetField {
            return None;
        }
        let receiver_id = match self.kid(callee_id, 0) {
            Some(r) => r,
            None => return Some(CiprType::Unknown),
        };
        proof {
            let ns = self.nodes();
            assert(ns[callee_id.0 as int].children@.len() > 0);
            assert(callee_id.0 < call_id.0);
            assert(receiver_id.0 < call_id.0 || ns[receiver_id.0 as int].children@.len() == 0);
        }
        let ghost pre_check = self.nodes();
        let method_name = self.name_of(callee_id);
        let receiver_type = self.check(receiver_id);
        proof {
            assert(pre_check[call_id.0 as int].children@.len() > 0);
            assert(self.nodes()[call_id.0 as int].children@.len() > 0);
        }
        let ghost rt = receiver_type@;
        let ghost mname = method_name@;
        let ghost cands = ufcs_candidates(rt, mname);
        let ghost checked = *self;
        let line = self.line_of(call_id);
        if self.receiver_has_field(&receiver_type, method_name.as_str()) {
            return None;
        }
        let mut candidates: Vec<String> = Vec::new();
        if let Some(base) = Self::ufcs_base_type_name(&receiver_type) {
            let mut c = base;
            push_str(&mut c, "_");
            push_str(&mut c, method_name.as_str());
            candidates.push(c);
        }
        candidates.push(method_name.clone());
        proof {
            assert(candidates@.len() == cands.len());
            assert forall|k: int| 0 <= k < cands.len() implies #[trigger] candidates@[k]@ == cands[k] by {}
        }
        let mut i: usize = 0;
        while i < candidates.len()
            invariant
                Self::kept(old(self), self),
                call_id.0 < old(self).nodes().len(),
                receiver_id.0 < self.nodes().len(),
                self.nodes()[call_id.0 as int].children@.len() > 0,
                receiver_id.0 < call_id.0 || self.nodes()[receiver_id.0 as int].children@.len() == 0,
                callee_of(old(self).nodes(), call_id) == Some(callee_id),
                old(self).nodes()[callee_id.0 as int].node_type == NodeType::GetField,
                callee_of(old(self).nodes(), callee_id) == Some(receiver_id),
                mname == old(self).nodes()[callee_id.0 as int].token.lexeme@,
                *self == checked,
                rt == receiver_type@,
                self.nodes()[receiver_id.0 as int].resolved_type@ == rt,
                !self.has_field(rt, mname),
                cands == ufcs_candidates(rt, mname),
                candidates@.len() == cands.len(),
                forall|k: int| 0 <= k < cands.len() ==> #[trigger] candidates@[k]@ == cands[k],
                i <= candidates@.len(),
                forall|k: int| 0 <= k < i ==> !takes_receiver(self.knows(#[trigger] cands[k]), rt),
            decreases candidates@.len() - i,
        {
            if let Some(candidate_type) = self.env.get(candidates[i].as_str()) {
                if self.ufcs_receiver_compatible(&candidate_type, &receiver_type) {
                    if self.arena.len() == usize::MAX {
                        self.error(line, "Program is too large.");
                        return Some(CiprType::Unknown);
                    }
                    let tok = Token::synthetic(TokenType::Identifier, candidates[i].as_str(), line);
                    let ghost before = self.nodes();
                    let callee = alloc_node(&mut self.arena, NodeType::VarExpr, tok, Value::Null, Vec::new());
                    let ghost grown = self.nodes();
                    proof {
                        assert forall|j: int| 0 <= j < before.len() implies #[trigger] grown[j] == before[j] by {
                            assert(grown == before.push(grown[callee.0 as int]));
                        }
                        lemma_push_wf(before, grown[callee.0 as int]);
                        assert(grown == before.push(grown[callee.0 as int]));
                    }
                    let n = self.kids_len(call_id);
                    let mut children: Vec<Option<NodeId>> = Vec::new();
                    children.push(Some(callee));
                    children.push(Some(receiver_id));
                    let mut k: usize = 1;
                    while k < n
                        invariant
                            self.wf(),
                            self.nodes() == grown,
                            nodes_wf(grown),
                            1 <= k <= n,
                            n == grown[call_id.0 as int].children@.len(),
                            call_id.0 < before.len(),
                            grown.len() == before.len() + 1,
                            forall|j: int| 0 <= j < before.len() ==> #[trigger] grown[j] == before[j],
                            stable(old(self).nodes(), before),
                            children@.len() >= 2,
                            children@[0] == Some(callee),
                            children@[1] == Some(receiver_id),
                            forall|j: int| 0 <= j < children@.len() ==> (#[trigger] children@[j] matches Some(c)
                                ==> c.0 < grown.len() && (c.0 < call_id.0 || grown[c.0 as int].children@.len() == 0)),
                        decreases n - k,
                    {
                        let c = self.kid(call_id, k);
                        children.push(c);
                        k = k + 1;
                    }
                    let ghost new_children = children@;
                    self.arena.set_children(call_id, children);
                    proof {
                        assert(grown[call_id.0 as int] == before[call_id.0 as int]);
                        assert(new_children.len() > 0);
                        lemma_rewrite_wf(grown, self.nodes(), call_id.0 as int, new_children);
                        lemma_stable_trans(old(self).nodes(), before, grown);
                        lemma_stable_trans(old(self).nodes(), grown, self.nodes());
                        assert(self.env == checked.env);
                        assert(self.structs == checked.structs);
                        assert(receiver_id.0 != call_id.0);
                        assert(self.nodes()[receiver_id.0 as int] == before[receiver_id.0 as int]);
                        assert(self.nodes()[callee.0 as int] == grown[callee.0 as int]);
                        assert(self.knows(cands[i as int]) == Some(candidate_type@));
                        assert(takes_receiver(self.knows(cands[i as int]), rt));
                    }
                    return None;
                }
            }
            i = i + 1;
        }
        let mut m = String::new();
        push_str(&mut m, "No method '");
        push_str(&mut m, method_name.as_str());
        push_str(&mut m, "' for receiver type ");
        push_type(&mut m, &receiver_type);
        push_str(&mut m, ". Tried: ");
        let mut j: usize = 0;
        while j < candidates.len()
            invariant
                j <= candidates@.len(),
            decreases candidates@.len() - j,
        {
            if j > 0 {
                push_str(&mut m, ", ");
            }
            push_str(&mut m, candidates[j].as_str());
            j = j + 1;
        }
        push_str(&mut m, ".");
        self.error(line, m.as_str());
        Some(CiprType::Unknown)
    }
}

} // verus!

verus! {

impl TypeChecker {
    fn check_call(&mut self, id: NodeId) -> (t: CiprType)
        requires
            old(self).wf(),
            id.0 < old(self).nodes().len(),
        ensures
            Self::kept(old(self), final(self)),
            old(self).nodes()[id.0 as int].node_type == NodeType::Call ==> (old(self).rule_type(id) matches Some(t0)
                ==> t@ == t0 && same_shape(old(self).nodes(), final(self).nodes()) && final(self).scopes_view()
                == old(self).scopes_view()),
            old(self).nodes()[id.0 as int].node_type == NodeType::Call ==> (expr_reports(
                old(self).nodes(),
                old(self).scopes_view(),
                id,
            ) matches Some(e) ==> final(self).error_flag() == (old(self).error_flag() || e)),
            callee_of(old(self).nodes(), id) is None ==> t@ == SpecType::Unknown,
            callee_of(old(self).nodes(), id) matches Some(c) ==> (old(self).nodes()[c.0 as int].node_type
                != NodeType::GetField ==> (kid_type(old(self).nodes(), old(self).scopes_view(), id, 0) matches Some(ct)
                ==> {
                &&& t@ == call_result(ct)
                &&& (ct != SpecType::Unknown && !(ct is Callable)) ==> final(self).error_flag()
                &&& (ct matches SpecType::Callable(ps, _) && ps.len() + 1 != old(self).nodes()[id.0 as int].children@.len())
                    ==> final(self).error_flag()
                &&& ct matches SpecType::Callable(ps, _) ==> (arg_types(
                    old(self).nodes(),
                    old(self).scopes_view(),
                    id,
                    checked_args(old(self).nodes(), id, ps.len()),
                ) matches Some(ats) ==> (refused_arg(ps, ats) ==> final(self).error_flag()))
            })),
        decreases measure(old(self).nodes(), id), 1nat,
    {
        if let Some(t) = self.maybe_rewrite_ufcs_call(id) {
            proof {
                if old(self).nodes()[id.0 as int].node_type == NodeType::Call && old(self).rule_type(id) is Some {
                    assert(callee_of(old(self).nodes(), id) is None);
                    assert(self.nodes() == old(self).nodes());
                    assert(same_shape(old(self).nodes(), self.nodes()));
                }
            }
            return t;
        }
        let line = self.line_of(id);
        let ghost o_nodes = old(self).nodes();
        let ghost o_scopes = old(self).scopes_view();
        let ghost typed = plain_typed_callee(o_nodes, o_scopes, id);
        let ghost reported = o_nodes[id.0 as int].node_type == NodeType::Call && expr_reports(o_nodes, o_scopes, id) is Some;
        let callee_type = self.check_kid(id, 0);
        let ghost ct = callee_type@;
        match callee_type {
            CiprType::Callable(param_types, ret_type) => {
                let ghost ps = ct->Callable_0;
                proof {
                    assert(ps.len() == param_types@.len());
                    assert forall|j: int| 0 <= j < ps.len() implies ps[j] == (#[trigger] param_types@[j])@ by {}
                }
                let n = self.kids_len(id);
                let arg_count: usize = if n > 0 { n - 1 } else { 0 };
                if arg_count != param_types.len() {
                    let mut m = String::new();
                    push_str(&mut m, "Expected ");
                    push_decimal(&mut m, param_types.len());
                    push_str(&mut m, " arguments but got ");
                    push_decimal(&mut m, arg_count);
                    self.error(line, m.as_str());
                }
                let ghost flagged = self.had_error;
                proof {
                    if reported {
                        let k = checked_args(o_nodes, id, ps.len());
                        assert(typed);
                        lemma_args_prefix(o_nodes, o_scopes, id, 0, k);
                    }
                }
                let mut i: usize = 0;
                while i < arg_count
                    invariant
                        Self::kept(old(self), self),
                        id.0 < old(self).nodes().len(),
                        arg_count < usize::MAX,
                        flagged ==> self.had_error,
                        o_nodes == old(self).nodes(),
                        o_scopes == old(self).scopes_view(),
                        nodes_wf(o_nodes),
                        i <= arg_count,
                        typed ==> n == o_nodes[id.0 as int].children@.len(),
                        arg_count == (if n > 0 { n - 1 } else { 0 }),
                        ps.len() == param_types@.len(),
                        forall|j: int| 0 <= j < ps.len() ==> ps[j] == (#[trigger] param_types@[j])@,
                        typed && arg_types(o_nodes, o_scopes, id, (if i < ps.len() { i as nat } else { ps.len() })) is Some
                            ==> same_shape(o_nodes, self.nodes()) && self.scopes_view() == o_scopes,
                        typed ==> (arg_types(o_nodes, o_scopes, id, (if i < ps.len() { i as nat } else { ps.len() }))
                            matches Some(ats) ==> (refused_arg(ps, ats) ==> self.had_error)),
                        reported ==> typed && ct == kid_type(o_nodes, o_scopes, id, 0)->0,
                        reported ==> args_reports(o_nodes, o_scopes, id, checked_args(o_nodes, id, ps.len())) is Some
                            && arg_types(o_nodes, o_scopes, id, checked_args(o_nodes, id, ps.len())) is Some,
                        reported ==> (args_reports(o_nodes, o_scopes, id, (if i < ps.len() { i as nat } else { ps.len() }))
                            matches Some(x) && arg_types(o_nodes, o_scopes, id, (if i < ps.len() { i as nat } else { ps.len() }))
                            matches Some(ats) && self.had_error == (flagged || x || refused_arg(ps, ats))),
                    decreases arg_count - i,
                {
                    if i < param_types.len() {
                        let ghost pre = *self;
                        let ghost k1 = (i + 1) as nat;
                        proof {
                            if typed && arg_types(o_nodes, o_scopes, id, k1) is Some {
                                assert(arg_types(o_nodes, o_scopes, id, i as nat) is Some);
                                lemma_shape_kid_type(o_nodes, pre.nodes(), o_scopes, id, k1 as int);
                            }
                        }
                        proof {
                            if reported {
                                lemma_args_prefix(o_nodes, o_scopes, id, k1, checked_args(o_nodes, id, ps.len()));
                                lemma_shape_kid_reports(o_nodes, pre.nodes(), o_scopes, id, k1 as int);
                            }
                        }
                        let arg_type = self.check_kid(id, i + 1);
                        let ghost post = *self;
                        let ghost fk = self.had_error;
                        let param = &param_types[i];
                        assert(param@ == ps[i as int]);
                        if matches!(arg_type, CiprType::Null) && param.is_unknown() {
                            self.error(line, "Null arguments require a parameter with an explicit pointer type.");
                            assert(bad_argument(ps[i as int], arg_type@));
                        } else if matches!(arg_type, CiprType::Null) {
                            let c = self.kid(id, i + 1);
                            proof {
                                if typed && arg_types(o_nodes, o_scopes, id, k1) is Some {
                                    assert(post.nodes()[id.0 as int].children == pre.nodes()[id.0 as int].children);
                                }
                            }
                            let ghost before_coerce = *self;
                            let coerced = self.coerce_null_child(c, param);
                            proof {
                                if reported {
                                    assert(c is Some);
                                    let cid = c->0;
                                    assert(before_coerce.nodes()[cid.0 as int].resolved_type@ == SpecType::Null);
                                    assert(coerced == (param@ is Pointer));
                                }
                            }
                            if !coerced {
                                self.error(line, "Null can only be passed to pointer parameters.");
                            }
                            proof {
                                if typed && arg_types(o_nodes, o_scopes, id, k1) is Some {
                                    lemma_shape_trans(o_nodes, post.nodes(), before_coerce.nodes());
                                }
                            }
                        } else if !types_match(param, &arg_type) && !arg_type.is_unknown() {
                            let mut m = String::new();
                            push_str(&mut m, "Expected argument of type ");
                            push_type(&mut m, param);
                            push_str(&mut m, " but got ");
                            push_type(&mut m, &arg_type);
                            self.error(line, m.as_str());
                        }
                        proof {
                            if typed && arg_types(o_nodes, o_scopes, id, k1) is Some {
                                lemma_shape_trans(o_nodes, pre.nodes(), post.nodes());
                                assert(bad_argument(ps[i as int], arg_type@) ==> self.had_error);
                                let ats = arg_types(o_nodes, o_scopes, id, k1)->Some_0;
                                let prev = arg_types(o_nodes, o_scopes, id, i as nat)->Some_0;
                                assert(ats == prev.push(arg_type@));
                                lemma_arg_types_len(o_nodes, o_scopes, id, i as nat);
                                lemma_refused_push(ps, prev, arg_type@);
                                assert(pre.had_error ==> self.had_error);
                            }
                            if reported {
                                assert(self.had_error == (fk || bad_argument(ps[i as int], arg_type@)));
                                let e = kid_reports(o_nodes, o_scopes, id, k1 as int)->0;
                                assert(fk == (pre.had_error || e));
                                let x = args_reports(o_nodes, o_scopes, id, i as nat)->0;
                                assert(args_reports(o_nodes, o_scopes, id, k1) == Some(x || e));
                            }
                        }
                    }
                    i = i + 1;
                }
                proof {
                    if typed {
                        assert(checked_args(o_nodes, id, ps.len()) == (if i < ps.len() { i as nat } else { ps.len() }));
                    }
                    if old(self).nodes()[id.0 as int].node_type == NodeType::Call && old(self).rule_type(id) is Some {
                        assert(typed);
                        assert(ct == kid_type(o_nodes, o_scopes, id, 0)->0);
                        assert(arg_types(o_nodes, o_scopes, id, checked_args(o_nodes, id, ps.len())) is Some);
                        assert(same_shape(o_nodes, self.nodes()));
                    }
                }
                *ret_type
            },
            CiprType::Unknown => CiprType::Unknown,
            _ => {
                let ghost before_error = *self;
                self.error(line, "Can only call functions.");
                proof {
                    if old(self).nodes()[id.0 as int].node_type == NodeType::Call && old(self).rule_type(id) is Some {
                        assert(self.nodes() == before_error.nodes());
                        assert(self.scopes_view() == before_error.scopes_view());
                    }
                }
                CiprType::Unknown
            },
        }
    }

    fn check_extern_fn(&mut self, id: NodeId) -> (t: CiprType)
        requires
            old(self).wf(),
            id.0 < old(self).nodes().len(),
        ensures
            Self::kept(old(self), final(self)),
            t@ == SpecType::Callable(
                declared_param_types(old(self).nodes(), id, old(self).nodes()[id.0 as int].children@.len()),
                Box::new(annotated_type(old(self).nodes()[id.0 as int])),
            ),
            final(self).knows(old(self).nodes()[id.0 as int].token.lexeme@) == Some(t@),
        decreases measure(old(self).nodes(), id), 1nat,
    {
        let name = self.name_of(id);
        let line = self.line_of(id);
        let ret_type = self.annotation_of(id);
        self.validate_return_type(&ret_type, line, "Extern function return type");
        self.set_type(id, ret_type.duplicate());
        let ghost nodes = old(self).nodes();
        let n = self.kids_len(id);
        let mut param_types: Vec<CiprType> = Vec::new();
        let mut i: usize = 0;
        while i < n
            invariant
                Self::kept(old(self), self),
                id.0 < old(self).nodes().len(),
                nodes == old(self).nodes(),
                same_shape(nodes, self.nodes()),
                self.nodes().len() == nodes.len(),
                self.env == old(self).env,
                i <= n,
                n == nodes[id.0 as int].children@.len(),
                param_types@.len() == declared_param_types(nodes, id, i as nat).len(),
                forall|k: int| 0 <= k < param_types@.len() ==> (#[trigger] param_types@[k])@ == declared_param_types(
                    nodes,
                    id,
                    i as nat,
                )[k],
            decreases n - i,
        {
            let ghost before = *self;
            let ghost prev = declared_param_types(nodes, id, i as nat);
            if let Some(param_id) = self.kid(id, i) {
                let p_type = self.annotation_of(param_id);
                let p_line = self.line_of(param_id);
                self.validate_value_type(&p_type, p_line, "Extern function parameter type");
                let ghost mid = *self;
                self.set_type(param_id, p_type.duplicate());
                param_types.push(p_type);
                proof {
                    lemma_shape_trans(nodes, mid.nodes(), self.nodes());
                    assert(before.nodes()[id.0 as int].children == nodes[id.0 as int].children);
                    assert(before.nodes()[param_id.0 as int].type_annotation == nodes[param_id.0 as int].type_annotation);
                    assert(declared_param_types(nodes, id, (i + 1) as nat) == prev.push(
                        annotated_type(nodes[param_id.0 as int]),
                    ));
                }
            } else {
                proof {
                    assert(before.nodes()[id.0 as int].children == nodes[id.0 as int].children);
                    assert(declared_param_types(nodes, id, (i + 1) as nat) == prev);
                }
            }
            i = i + 1;
        }
        let ghost spec_params = declared_param_types(nodes, id, n as nat);
        let func_type = CiprType::Callable(param_types, Box::new(ret_type));
        proof {
            if let SpecType::Callable(ps, _) = func_type@ {
                assert(ps =~= spec_params);
            }
        }
        self.env.define(name.as_str(), func_type.duplicate());
        proof {
            env::law_define_then_get(old(self).env.view_scopes(), name@, func_type@);
        }
        func_type
    }

    fn check_function(&mut self, id: NodeId) -> (t: CiprType)
        requires
            old(self).wf(),
            id.0 < old(self).nodes().len(),
        ensures
            Self::kept(old(self), final(self)),
            old(self).nodes()[id.0 as int].node_type == NodeType::StmtFunction ==> (function_rule(
                old(self).nodes(),
                id,
            ) matches Some((name, ft)) && final(self).knows(name) == Some(ft) && t@ == ft),
        decreases measure(old(self).nodes(), id), 1nat,
    {
        let name = self.name_of(id);
        let line = self.line_of(id);
        let ret_type = self.annotation_of(id);
        self.validate_return_type(&ret_type, line, "Function return type");
        let n = self.kids_len(id);
        let param_count: usize = if n > 0 { n - 1 } else { 0 };
        let ghost nodes = old(self).nodes();
        let mut param_types: Vec<CiprType> = Vec::new();
        let mut i: usize = 0;
        while i < param_count
            invariant
                Self::kept(old(self), self),
                self.nodes() == old(self).nodes(),
                nodes == old(self).nodes(),
                id.0 < old(self).nodes().len(),
                n == nodes[id.0 as int].children@.len(),
                param_count == (if n > 0 { n - 1 } else { 0 }),
                i <= param_count,
                param_types@.len() == declared_param_types(nodes, id, i as nat).len(),
                forall|k: int| 0 <= k < param_types@.len() ==> (#[trigger] param_types@[k])@ == declared_param_types(
                    nodes,
                    id,
                    i as nat,
                )[k],
            decreases param_count - i,
        {
            if let Some(param_id) = self.kid(id, i) {
                let p_type = self.annotation_of(param_id);
                let p_line = self.line_of(param_id);
                self.validate_value_type(&p_type, p_line, "Function parameter type");
                param_types.push(p_type);
            }
            i = i + 1;
        }
        let mut copies: Vec<CiprType> = Vec::new();
        let mut j: usize = 0;
        while j < param_types.len()
            invariant
                j <= param_types@.len(),
                copies@.len() == j,
                forall|k: int| 0 <= k < j ==> (#[trigger] copies@[k])@ == param_types@[k]@,
            decreases param_types@.len() - j,
        {
            copies.push(param_types[j].duplicate());
            j = j + 1;
        }
        let ghost spec_params = declared_param_types(nodes, id, param_count as nat);
        let func_type = CiprType::Callable(copies, Box::new(ret_type.duplicate()));
        proof {
            if let SpecType::Callable(ps, _) = func_type@ {
                assert(ps =~= spec_params);
            }
        }
        self.env.define(name.as_str(), func_type.duplicate());
        let ghost outer = self.env.view_scopes();
        self.env.enter_scope();
        let ghost depth = self.env.view_scopes().len();
        proof {
            assert(self.env.view_scopes().drop_last() =~= outer);
        }
        let mut i: usize = 0;
        let mut next: usize = 0;
        while i < param_count
            invariant
                self.wf(),
                stable(old(self).nodes(), self.nodes()),
                self.env.view_scopes().len() == depth,
                self.env.view_scopes().drop_last() == outer,
                depth == old(self).env.view_scopes().len() + 1,
                old(self).had_error ==> self.had_error,
                self.source_name == old(self).source_name,
                Self::reports_kept(old(self), self),
                self.current_return_type == old(self).current_return_type,
                id.0 < old(self).nodes().len(),
                measure(self.nodes(), id) == measure(old(self).nodes(), id),
            decreases param_count - i,
        {
            if let Some(param_id) = self.kid(id, i) {
                if next < param_types.len() {
                    let p_name = self.name_of(param_id);
                    self.env.define(p_name.as_str(), param_types[next].duplicate());
                    self.set_type(param_id, param_types[next].duplicate());
                    next = next + 1;
                }
            }
            i = i + 1;
        }
        let mut prev_ret = Some(ret_type);
        core::mem::swap(&mut prev_ret, &mut self.current_return_type);
        if n > 0 {
            self.check_kid(id, n - 1);
        }
        self.current_return_type = prev_ret;
        self.env.exit_scope();
        proof {
            env::law_define_then_get(old(self).env.view_scopes(), name@, func_type@);
        }
        func_type
    }

    // ── Arrays ──

    fn check_array(&mut self, id: NodeId) -> (t: CiprType)
        requires
            old(self).wf(),
            id.0 < old(self).nodes().len(),
            old(self).nodes()[id.0 as int].node_type == NodeType::Array,
        ensures
            Self::kept(old(self), final(self)),
            old(self).rule_type(id) matches Some(t0) ==> t@ == t0 && same_shape(old(self).nodes(), final(self).nodes())
                && final(self).scopes_view() == old(self).scopes_view(),
        decreases measure(old(self).nodes(), id), 1nat,
    {
        let line = self.line_of(id);
        let n = self.kids_len(id);
        let ghost a = old(self).nodes();
        let ghost sc = old(self).scopes_view();
        let ghost cov = old(self).rule_type(id) is Some;
        let mut elem_type = CiprType::Unknown;
        let mut i: usize = 0;
        proof {
            if cov {
                assert(items_type(a, sc, id, n as nat) is Some);
            }
        }
        while i < n
            invariant
                Self::kept(old(self), self),
                id.0 < old(self).nodes().len(),
                old(self).wf(),
                a == old(self).nodes(),
                sc == old(self).scopes_view(),
                a[id.0 as int].node_type == NodeType::Array,
                n == a[id.0 as int].children@.len(),
                i <= n,
                cov == (old(self).rule_type(id) is Some),
                cov ==> items_type(a, sc, id, n as nat) is Some,
                cov ==> same_shape(a, self.nodes()) && self.scopes_view() == sc && items_type(a, sc, id, i as nat)
                    == Some(elem_type@),
            decreases n - i,
        {
            proof {
                if cov {
                    lemma_items_type_prefix(a, sc, id, (i + 1) as nat, n as nat);
                    lemma_shape_kid_type(a, self.nodes(), sc, id, i as int);
                    assert(self.nodes()[id.0 as int].children == a[id.0 as int].children);
                    if a[id.0 as int].children@[i as int] is Some {
                        lemma_child_measure(a, id, i as int);
                    }
                }
            }
            if self.kid(id, i).is_some() {
                let ghost before = self.nodes();
                let t = self.check_kid(id, i);
                proof {
                    if cov {
                        lemma_shape_trans(a, before, self.nodes());
                    }
                }
                if elem_type.is_unknown() {
                    elem_type = t;
                } else if !t.is_unknown() && !types_equal(&t, &elem_type) {
                    self.error(line, "Array elements must have the same type.");
                }
            }
            i = i + 1;
        }
        CiprType::Array(Box::new(elem_type))
    }

    fn check_index_get(&mut self, id: NodeId) -> (t: CiprType)
        requires
            old(self).wf(),
            id.0 < old(self).nodes().len(),
            old(self).nodes()[id.0 as int].node_type == NodeType::IndexGet,
        ensures
            Self::kept(old(self), final(self)),
            old(self).rule_type(id) matches Some(t0) ==> t@ == t0 && same_shape(old(self).nodes(), final(self).nodes())
                && final(self).scopes_view() == old(self).scopes_view(),
        decreases measure(old(self).nodes(), id), 1nat,
    {
        let line = self.line_of(id);
        let target_type = self.check_kid(id, 0);
        let ghost mid = self.nodes();
        proof {
            if old(self).rule_type(id) is Some {
                lemma_shape_kid_type(old(self).nodes(), mid, old(self).scopes_view(), id, 1);
            }
        }
        let index_type = self.check_kid(id, 1);
        proof {
            if old(self).rule_type(id) is Some {
                lemma_shape_trans(old(self).nodes(), mid, self.nodes());
            }
        }
        if !matches!(index_type, CiprType::Int) && !index_type.is_unknown() {
            self.error(line, "Array index must be an Int.");
        }
        match target_type {
            CiprType::Array(inner) => *inner,
            CiprType::Unknown => CiprType::Unknown,
            _ => {
                self.error(line, "Only arrays can be indexed.");
                CiprType::Unknown
            },
        }
    }

    // ── Pointers ──

    fn check_addressof(&mut self, id: NodeId) -> (t: CiprType)
        requires
            old(self).wf(),
            id.0 < old(self).nodes().len(),
        ensures
            Self::kept(old(self), final(self)),
            t@ == match (if 0 < old(self).nodes()[id.0 as int].children@.len() {
                old(self).nodes()[id.0 as int].children@[0]
            } else {
                None
            }) {
                Some(c) => if addressable(old(self).nodes()[c.0 as int].node_type) {
                    SpecType::Pointer(Box::new(final(self).nodes()[c.0 as int].resolved_type@))
                } else {
                    SpecType::Unknown
                },
                None => SpecType::Unknown,
            },
            0 < old(self).nodes()[id.0 as int].children@.len() ==> (old(self).nodes()[id.0 as int].children@[0] matches Some(
                c,
            ) ==> (!addressable(old(self).nodes()[c.0 as int].node_type) ==> final(self).error_flag())),
        decreases measure(old(self).nodes(), id), 1nat,
    {
        let line = self.line_of(id);
        let target = match self.kid(id, 0) {
            Some(c) => c,
            None => return CiprType::Unknown,
        };
        let target_type = self.check(target);
        let kind = self.kind_of(target);
        if kind != NodeType::VarExpr && kind != NodeType::Dereference && kind != NodeType::IndexGet {
            self.error(line, "Can only take the address of a variable, dereference, or array index.");
            return CiprType::Unknown;
        }
        CiprType::Pointer(Box::new(target_type))
    }

    fn check_dereference(&mut self, id: NodeId) -> (t: CiprType)
        requires
            old(self).wf(),
            id.0 < old(self).nodes().len(),
            old(self).nodes()[id.0 as int].node_type == NodeType::Dereference,
        ensures
            Self::kept(old(self), final(self)),
            old(self).rule_type(id) matches Some(t0) ==> t@ == t0 && same_shape(old(self).nodes(), final(self).nodes())
                && final(self).scopes_view() == old(self).scopes_view(),
        decreases measure(old(self).nodes(), id), 1nat,
    {
        let line = self.line_of(id);
        let target_type = self.check_kid(id, 0);
        match target_type {
            CiprType::Pointer(inner) => *inner,
            CiprType::Unknown => CiprType::Unknown,
            _ => {
                self.error(line, "Cannot dereference a non-pointer type.");
                CiprType::Unknown
            },
        }
    }

    fn check_assign_deref(&mut self, id: NodeId) -> (t: CiprType)
        requires
            old(self).wf(),
            id.0 < old(self).nodes().len(),
        ensures
            Self::kept(old(self), final(self)),
            kid_type(old(self).nodes(), old(self).scopes_view(), id, 0) matches Some(pt) ==> {
                &&& t@ == match pt {
                    SpecType::Pointer(inner) => *inner,
                    _ => SpecType::Unknown,
                }
                &&& (pt != SpecType::Unknown && !(pt is Pointer)) ==> final(self).error_flag()
                &&& (t@ != SpecType::Unknown && checked_kid(old(self).nodes(), final(self).nodes(), id, 1)
                    != SpecType::Unknown && t@ != checked_kid(old(self).nodes(), final(self).nodes(), id, 1))
                    ==> final(self).error_flag()
            },
        decreases measure(old(self).nodes(), id), 1nat,
    {
        let line = self.line_of(id);
        let ptr_type = self.check_kid(id, 0);
        let ghost mid = self.nodes();
        let val_type = self.check_kid(id, 1);
        proof {
            if kid_type(old(self).nodes(), old(self).scopes_view(), id, 0) is Some {
                assert(mid[id.0 as int].children == old(self).nodes()[id.0 as int].children);
            }
        }
        let expected = match ptr_type {
            CiprType::Pointer(inner) => *inner,
            CiprType::Unknown => CiprType::Unknown,
            _ => {
                self.error(line, "Cannot assign to dereference of a non-pointer type.");
                CiprType::Unknown
            },
        };
        if !expected.is_unknown() && !val_type.is_unknown() && !types_equal(&expected, &val_type) {
            let m = assign_message(&val_type, "dereferenced pointer", &expected);
            self.error(line, m.as_str());
        }
        expected
    }

    fn check_new(&mut self, id: NodeId) -> (t: CiprType)
        requires
            old(self).wf(),
            id.0 < old(self).nodes().len(),
        ensures
            Self::kept(old(self), final(self)),
            t@ == match old(self).struct_def(old(self).nodes()[id.0 as int].token.lexeme@) {
                Some(fs) => if fs.len() == old(self).nodes()[id.0 as int].children@.len() {
                    SpecType::Pointer(Box::new(SpecType::Struct(old(self).nodes()[id.0 as int].token.lexeme@)))
                } else {
                    SpecType::Unknown
                },
                None => SpecType::Unknown,
            },
            t@ == SpecType::Unknown ==> final(self).error_flag(),
            old(self).struct_def(old(self).nodes()[id.0 as int].token.lexeme@) matches Some(fs) ==> (value_types(
                old(self).nodes(),
                old(self).scopes_view(),
                id,
                old(self).nodes()[id.0 as int].children@.len(),
            ) matches Some(vs) ==> (fs.len() == vs.len() && mismatched_field(fs, vs) ==> final(self).error_flag())),
        decreases measure(old(self).nodes(), id), 1nat,
    {
        let struct_name = self.name_of(id);
        let line = self.line_of(id);
        let ghost o_nodes = old(self).nodes();
        let ghost o_scopes = old(self).scopes_view();
        let fields = match self.struct_fields(struct_name.as_str()) {
            Some(f) => f,
            None => {
                let mut m = String::new();
                push_str(&mut m, "Undefined struct '");
                push_str(&mut m, struct_name.as_str());
                push_str(&mut m, "' for new");
                self.error(line, m.as_str());
                return CiprType::Unknown;
            },
        };
        let n = self.kids_len(id);
        if n != fields.len() {
            let mut m = String::new();
            push_str(&mut m, "'new ");
            push_str(&mut m, struct_name.as_str());
            push_str(&mut m, "' expects ");
            push_decimal(&mut m, fields.len());
            push_str(&mut m, " arguments but got ");
            push_decimal(&mut m, n);
            self.error(line, m.as_str());
            return CiprType::Unknown;
        }
        let ghost fs = fields_view(fields@);
        proof {
            lemma_value_types_len(o_nodes, o_scopes, id, n as nat);
        }
        let mut i: usize = 0;
        while i < n
            invariant
                Self::kept(old(self), self),
                id.0 < old(self).nodes().len(),
                n == fields@.len(),
                o_nodes == old(self).nodes(),
                o_scopes == old(self).scopes_view(),
                nodes_wf(o_nodes),
                n == o_nodes[id.0 as int].children@.len(),
                i <= n,
                fs == fields_view(fields@),
                value_types(o_nodes, o_scopes, id, i as nat) is Some ==> same_shape(o_nodes, self.nodes())
                    && self.scopes_view() == o_scopes,
                value_types(o_nodes, o_scopes, id, i as nat) matches Some(vs) ==> (mismatched_field(fs, vs)
                    ==> self.had_error),
            decreases n - i,
        {
            let ghost pre = *self;
            let ghost k1 = (i + 1) as nat;
            proof {
                if value_types(o_nodes, o_scopes, id, k1) is Some {
                    assert(value_types(o_nodes, o_scopes, id, i as nat) is Some);
                    lemma_shape_kid_type(o_nodes, pre.nodes(), o_scopes, id, i as int);
                    assert(pre.nodes()[id.0 as int].children == o_nodes[id.0 as int].children);
                }
            }
            if self.kid(id, i).is_some() {
                let val_type = self.check_kid(id, i);
                let expected = &fields[i].1;
                assert(expected@ == fs[i as int].1);
                if !expected.is_unknown() && !val_type.is_unknown() && !types_equal(expected, &val_type) {
                    let mut m = String::new();
                    push_str(&mut m, "'new ");
                    push_str(&mut m, struct_name.as_str());
                    push_str(&mut m, "' argument ");
                    push_decimal(&mut m, i);
                    push_str(&mut m, " (");
                    push_str(&mut m, fields[i].0.as_str());
                    push_str(&mut m, ") expects type ");
                    push_type(&mut m, expected);
                    push_str(&mut m, ", got ");
                    push_type(&mut m, &val_type);
                    self.error(line, m.as_str());
                }
                proof {
                    if value_types(o_nodes, o_scopes, id, k1) is Some {
                        let vs = value_types(o_nodes, o_scopes, id, k1)->Some_0;
                        let prev = value_types(o_nodes, o_scopes, id, i as nat)->Some_0;
                        assert(vs == prev.push(val_type@));
                        lemma_value_types_len(o_nodes, o_scopes, id, i as nat);
                        lemma_mismatched_push(fs, prev, val_type@);
                        assert(bad_field_value(fs[i as int].1, val_type@) ==> self.had_error);
                        assert(pre.had_error ==> self.had_error);
                    }
                }
            } else {
                proof {
                    if value_types(o_nodes, o_scopes, id, k1) is Some {
                        let vs = value_types(o_nodes, o_scopes, id, k1)->Some_0;
                        let prev = value_types(o_nodes, o_scopes, id, i as nat)->Some_0;
                        assert(vs == prev.push(SpecType::Unknown));
                        lemma_value_types_len(o_nodes, o_scopes, id, i as nat);
                        lemma_mismatched_push(fs, prev, SpecType::Unknown);
                    }
                }
            }
            i = i + 1;
        }
        let ghost sn = struct_name@;
        let inner = CiprType::Struct(struct_name);
        assert(inner@ == SpecType::Struct(sn));
        let r = CiprType::Pointer(Box::new(inner));
        assert(r@ == SpecType::Pointer(Box::new(inner@)));
        r
    }

    fn check_delete(&mut self, id: NodeId) -> (t: CiprType)
        requires
            old(self).wf(),
            id.0 < old(self).nodes().len(),
        ensures
            Self::kept(old(self), final(self)),
            t@ == if checked_kid(old(self).nodes(), final(self).nodes(), id, 0) is Pointer {
                SpecType::Void
            } else {
                SpecType::Unknown
            },
            t@ == SpecType::Unknown ==> final(self).error_flag(),
        decreases measure(old(self).nodes(), id), 1nat,
    {
        let line = self.line_of(id);
        let child_type = self.check_kid(id, 0);
        if child_type.is_pointer() {
            CiprType::Void
        } else {
            let mut m = String::new();
            push_str(&mut m, "Cannot delete non-pointer type ");
            push_type(&mut m, &child_type);
            self.error(line, m.as_str());
            CiprType::Unknown
        }
    }
}

} // verus!

verus! {

impl TypeChecker {
    // ── Struct values ──

    fn check_struct_init(&mut self, id: NodeId) -> (t: CiprType)
        requires
            old(self).wf(),
            id.0 < old(self).nodes().len(),
        ensures
            Self::kept(old(self), final(self)),
            t@ == match old(self).struct_def(old(self).nodes()[id.0 as int].token.lexeme@) {
                Some(fs) => if fs.len() == old(self).nodes()[id.0 as int].children@.len() {
                    SpecType::Struct(old(self).nodes()[id.0 as int].token.lexeme@)
                } else {
                    SpecType::Unknown
                },
                None => SpecType::Unknown,
            },
            t@ == SpecType::Unknown ==> final(self).error_flag(),
            old(self).struct_def(old(self).nodes()[id.0 as int].token.lexeme@) matches Some(fs) ==> (init_types(
                old(self).nodes(),
                old(self).scopes_view(),
                id,
                old(self).nodes()[id.0 as int].children@.len(),
            ) matches Some(xs) ==> (fs.len() == xs.len() && refused_init(fs, xs) ==> final(self).error_flag())),
            old(self).struct_def(old(self).nodes()[id.0 as int].token.lexeme@) matches Some(fs) ==> (fs.len()
                == old(self).nodes()[id.0 as int].children@.len() ==> (init_types(
                old(self).nodes(),
                old(self).scopes_view(),
                id,
                old(self).nodes()[id.0 as int].children@.len(),
            ) matches Some(xs) ==> (init_reports(
                old(self).nodes(),
                old(self).scopes_view(),
                id,
                old(self).nodes()[id.0 as int].children@.len(),
            ) matches Some(e) ==> final(self).error_flag() == (old(self).error_flag() || refused_init(fs, xs) || e)))),
        decreases measure(old(self).nodes(), id), 1nat,
    {
        let struct_name = self.name_of(id);
        let line = self.line_of(id);
        let ghost o_nodes = old(self).nodes();
        let ghost o_scopes = old(self).scopes_view();
        let fields = match self.struct_fields(struct_name.as_str()) {
            Some(f) => f,
            None => {
                let mut m = String::new();
                push_str(&mut m, "Undefined struct '");
                push_str(&mut m, struct_name.as_str());
                push_str(&mut m, "'");
                self.error(line, m.as_str());
                return CiprType::Unknown;
            },
        };
        let n = self.kids_len(id);
        if n != fields.len() {
            let mut m = String::new();
            push_str(&mut m, "Struct '");
            push_str(&mut m, struct_name.as_str());
            push_str(&mut m, "' expects ");
            push_decimal(&mut m, fields.len());
            push_str(&mut m, " fields but got ");
            push_decimal(&mut m, n);
            self.error(line, m.as_str());
            return CiprType::Unknown;
        }
        let ghost fs = fields_view(fields@);
        let ghost start_flag = self.had_error;
        assert(start_flag == old(self).had_error);
        proof {
            lemma_init_types_len(o_nodes, o_scopes, id, n as nat);
        }
        let mut i: usize = 0;
        while i < n
            invariant
                Self::kept(old(self), self),
                id.0 < old(self).nodes().len(),
                n == fields@.len(),
                measure(self.nodes(), id) == measure(old(self).nodes(), id),
                o_nodes == old(self).nodes(),
                o_scopes == old(self).scopes_view(),
                nodes_wf(o_nodes),
                n == o_nodes[id.0 as int].children@.len(),
                i <= n,
                fs == fields_view(fields@),
                init_types(o_nodes, o_scopes, id, i as nat) is Some ==> same_shape(o_nodes, self.nodes())
                    && self.scopes_view() == o_scopes,
                init_types(o_nodes, o_scopes, id, i as nat) matches Some(xs) ==> (refused_init(fs, xs)
                    ==> self.had_error),
                init_types(o_nodes, o_scopes, id, i as nat) matches Some(xs) ==> (init_reports(o_nodes, o_scopes, id, i as nat)
                    matches Some(e) ==> self.had_error == (start_flag || refused_init(fs, xs) || e)),
            decreases n - i,
        {
            let ghost pre = *self;
            let ghost k1 = (i + 1) as nat;
            let ghost good = init_types(o_nodes, o_scopes, id, k1) is Some;
            let ghost exact = good && init_reports(o_nodes, o_scopes, id, k1) is Some;
            proof {
                if good {
                    assert(init_types(o_nodes, o_scopes, id, i as nat) is Some);
                    assert(pre.nodes()[id.0 as int].children == o_nodes[id.0 as int].children);
                }
            }
            if let Some(assign_id) = self.kid(id, i) {
                proof {
                    if good {
                        assert(assign_id.0 < o_nodes.len());
                        lemma_shape_kid_type(o_nodes, pre.nodes(), o_scopes, assign_id, 0);
                        lemma_shape_kid_reports(o_nodes, pre.nodes(), o_scopes, assign_id, 0);
                        assert(pre.nodes()[assign_id.0 as int].children == o_nodes[assign_id.0 as int].children);
                        assert(pre.nodes()[assign_id.0 as int].token == o_nodes[assign_id.0 as int].token);
                    }
                }
                let field_name = self.name_of(assign_id);
                let f_line = self.line_of(assign_id);
                let expected_name = &fields[i].0;
                let expected = &fields[i].1;
                assert(expected@ == fs[i as int].1 && expected_name@ == fs[i as int].0);
                let ghost mut vt = SpecType::Unknown;
                if !str_eq(field_name.as_str(), expected_name.as_str()) {
                    let mut m = String::new();
                    push_str(&mut m, "Provided struct field '");
                    push_str(&mut m, field_name.as_str());
                    push_str(&mut m, "' does not match expected field '");
                    push_str(&mut m, expected_name.as_str());
                    push_str(&mut m, "' at position ");
                    push_decimal(&mut m, i);
                    self.error(f_line, m.as_str());
                }
                let ghost named = *self;
                if let Some(val_id) = self.kid(assign_id, 0) {
                    let val_type = self.check(val_id);
                    let ghost post = *self;
                    proof {
                        vt = val_type@;
                    }
                    if matches!(val_type, CiprType::Null) {
                        if !self.coerce_null_child(Some(val_id), expected) {
                            self.error(f_line, "Null can only initialize pointer-typed struct fields.");
                        }
                    } else if !expected.is_unknown() && !val_type.is_unknown() && !types_match(expected, &val_type) {
                        let mut m = String::new();
                        push_str(&mut m, "Field '");
                        push_str(&mut m, field_name.as_str());
                        push_str(&mut m, "' expects type ");
                        push_type(&mut m, expected);
                        push_str(&mut m, ", got ");
                        push_type(&mut m, &val_type);
                        self.error(f_line, m.as_str());
                    }
                    proof {
                        if good {
                            lemma_shape_trans(o_nodes, named.nodes(), post.nodes());
                            lemma_shape_trans(o_nodes, post.nodes(), self.nodes());
                        }
                    }
                }
                proof {
                    if good {
                        let xs = init_types(o_nodes, o_scopes, id, k1)->Some_0;
                        let prev = init_types(o_nodes, o_scopes, id, i as nat)->Some_0;
                        let x = Some((field_name@, vt));
                        assert(xs == prev.push(x));
                        lemma_init_types_len(o_nodes, o_scopes, id, i as nat);
                        lemma_refused_init_push(fs, prev, x);
                        assert(bad_init(fs[i as int], x) ==> self.had_error);
                        assert(pre.had_error ==> self.had_error);
                        if exact {
                            let e = kid_reports(o_nodes, o_scopes, assign_id, 0)->0;
                            assert(self.had_error == (pre.had_error || bad_init(fs[i as int], x) || e));
                        }
                    }
                }
            } else {
                proof {
                    if good {
                        let xs = init_types(o_nodes, o_scopes, id, k1)->Some_0;
                        let prev = init_types(o_nodes, o_scopes, id, i as nat)->Some_0;
                        assert(xs == prev.push(None));
                        lemma_init_types_len(o_nodes, o_scopes, id, i as nat);
                        lemma_refused_init_push(fs, prev, None);
                        assert(self.had_error == pre.had_error);
                    }
                }
            }
            i = i + 1;
        }
        CiprType::Struct(struct_name)
    }

    /// The struct a field access reads: the target's struct, seen through
    /// one pointer.
    fn deref_once(t: CiprType) -> (r: CiprType)
        ensures
            r@ == match t@ {
                SpecType::Pointer(inner) => *inner,
                other => other,
            },
    {
        match t {
            CiprType::Pointer(inner) => *inner,
            other => other,
        }
    }

    fn check_get_field(&mut self, id: NodeId) -> (t: CiprType)
        requires
            old(self).wf(),
            id.0 < old(self).nodes().len(),
        ensures
            Self::kept(old(self), final(self)),
            t@ == field_rule(
                final(self).struct_table(),
                checked_kid(old(self).nodes(), final(self).nodes(), id, 0),
                old(self).nodes()[id.0 as int].token.lexeme@,
            ).0,
            field_rule(
                final(self).struct_table(),
                checked_kid(old(self).nodes(), final(self).nodes(), id, 0),
                old(self).nodes()[id.0 as int].token.lexeme@,
            ).1 ==> final(self).error_flag(),
        decreases measure(old(self).nodes(), id), 1nat,
    {
        let line = self.line_of(id);
        let field_name = self.name_of(id);
        let target_type = Self::deref_once(self.check_kid(id, 0));
        match target_type {
            CiprType::Struct(struct_name) => {
                let k = match self.find_struct(struct_name.as_str()) {
                    Some(k) => k,
                    None => return CiprType::Unknown,
                };
                match self.field_type(k, field_name.as_str()) {
                    Some(t) => t,
                    None => {
                        let mut m = String::new();
                        push_str(&mut m, "Struct '");
                        push_str(&mut m, struct_name.as_str());
                        push_str(&mut m, "' has no field '");
                        push_str(&mut m, field_name.as_str());
                        push_str(&mut m, "'");
                        self.error(line, m.as_str());
                        CiprType::Unknown
                    },
                }
            },
            CiprType::Unknown => CiprType::Unknown,
            _ => {
                self.error(line, "Cannot access field on non-struct type");
                CiprType::Unknown
            },
        }
    }

    fn check_assign_field(&mut self, id: NodeId) -> (t: CiprType)
        requires
            old(self).wf(),
            id.0 < old(self).nodes().len(),
        ensures
            Self::kept(old(self), final(self)),
            kid_type(old(self).nodes(), old(self).scopes_view(), id, 0) matches Some(tt) ==> {
                &&& t@ == assign_field_rule(final(self).struct_table(), tt, old(self).nodes()[id.0 as int].token.lexeme@).0
                &&& assign_field_rule(final(self).struct_table(), tt, old(self).nodes()[id.0 as int].token.lexeme@).1
                    ==> final(self).error_flag()
                &&& field_target_registered(final(self).struct_table(), tt) ==> (kid_type(
                    old(self).nodes(),
                    old(self).scopes_view(),
                    id,
                    1,
                ) matches Some(vt) ==> (bad_argument(t@, vt) ==> final(self).error_flag()))
            },
        decreases measure(old(self).nodes(), id), 1nat,
    {
        let line = self.line_of(id);
        let field_name = self.name_of(id);
        let ghost o_nodes = old(self).nodes();
        let ghost o_scopes = old(self).scopes_view();
        let target_type = Self::deref_once(self.check_kid(id, 0));
        let ghost mid = *self;
        proof {
            if kid_type(o_nodes, o_scopes, id, 0) is Some {
                lemma_shape_kid_type(o_nodes, mid.nodes(), o_scopes, id, 1);
            }
        }
        let val_type = self.check_kid(id, 1);
        let ghost post = *self;
        let expected = match target_type {
            CiprType::Struct(struct_name) => {
                let k = match self.find_struct(struct_name.as_str()) {
                    Some(k) => k,
                    None => return CiprType::Unknown,
                };
                match self.field_type(k, field_name.as_str()) {
                    Some(t) if !t.is_unknown() => t,
                    _ => {
                        let mut m = String::new();
                        push_str(&mut m, "Struct '");
                        push_str(&mut m, struct_name.as_str());
                        push_str(&mut m, "' has no field '");
                        push_str(&mut m, field_name.as_str());
                        push_str(&mut m, "'");
                        self.error(line, m.as_str());
                        CiprType::Unknown
                    },
                }
            },
            CiprType::Unknown => CiprType::Unknown,
            _ => {
                self.error(line, "Cannot assign field on non-struct type");
                CiprType::Unknown
            },
        };
        if matches!(val_type, CiprType::Null) {
            let c = self.kid(id, 1);
            proof {
                if kid_type(o_nodes, o_scopes, id, 0) is Some && kid_type(o_nodes, o_scopes, id, 1) is Some {
                    assert(post.nodes()[id.0 as int].children == mid.nodes()[id.0 as int].children);
                    assert(self.nodes() == post.nodes());
                }
            }
            if !self.coerce_null_child(c, &expected) {
                self.error(line, "Null can only be assigned to pointer-typed struct fields.");
            }
        } else if !expected.is_unknown() && !val_type.is_unknown() && !types_match(&expected, &val_type) {
            let mut m = String::new();
            push_str(&mut m, "Field '");
            push_str(&mut m, field_name.as_str());
            push_str(&mut m, "' expects type ");
            push_type(&mut m, &expected);
            push_str(&mut m, ", got ");
            push_type(&mut m, &val_type);
            self.error(line, m.as_str());
        }
        expected
    }
}

/// The types of the binary operators: arithmetic keeps two integers or two
/// floats (and `+` two strings) and refuses a mix of them; a comparison of
/// two integers or two floats is a boolean; `==` and `!=` on two operands of
/// one type among integers, floats and booleans, on two equal pointer
/// types, or on null and a pointer, are booleans, and none of these is
/// refused; equality of an integer and a boolean is refused.
pub proof fn law_binary_types(op: TokenType, t: SpecType)
    ensures
        (t == SpecType::Int || t == SpecType::Float || t == SpecType::Bool || t is Pointer) ==> (binary_type(
            TokenType::EqualEqual,
            t,
            t,
        ) == SpecType::Bool && !binary_error(TokenType::EqualEqual, t, t) && binary_type(TokenType::BangEqual, t, t)
            == SpecType::Bool && !binary_error(TokenType::BangEqual, t, t)),
        t is Pointer ==> binary_type(TokenType::EqualEqual, SpecType::Null, t) == SpecType::Bool && binary_type(
            TokenType::EqualEqual,
            t,
            SpecType::Null,
        ) == SpecType::Bool,
        (op == TokenType::Greater || op == TokenType::GreaterEqual || op == TokenType::Less || op == TokenType::LessEqual)
            ==> binary_type(op, SpecType::Int, SpecType::Int) == SpecType::Bool && binary_type(
            op,
            SpecType::Float,
            SpecType::Float,
        ) == SpecType::Bool && !binary_error(op, SpecType::Int, SpecType::Int),
        (op == TokenType::Plus || op == TokenType::Minus || op == TokenType::Star || op == TokenType::Slash) ==> (
        binary_type(op, SpecType::Int, SpecType::Int) == SpecType::Int && binary_type(op, SpecType::Float, SpecType::Float)
            == SpecType::Float && binary_error(op, SpecType::Int, SpecType::Float) && !binary_error(
            op,
            SpecType::Int,
            SpecType::Int,
        )),
        binary_type(TokenType::Plus, SpecType::Str, SpecType::Str) == SpecType::Str,
        binary_error(TokenType::EqualEqual, SpecType::Int, SpecType::Bool),
{
}

} // verus!
