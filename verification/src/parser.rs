//! The recursive-descent parser: turns tokens into a tree of nodes.
use vstd::prelude::*;

use crate::ast::{
    alloc_node, alloc_node_typed, arena_nodes, child_index, nodes_wf, CiprType, Node, NodeArena,
    NodeId, NodeType,
};
use crate::diagnostics::{DiagnosticPhase, Diagnostics, SpecDiagnostic};
use crate::scanner::Scanner;
use crate::diagnostics::push_decimal;
use crate::text::{push_str, str_eq};
use crate::token::{Token, TokenType, Value};
use crate::type_syntax;

verus! {

/// A file that an `include` statement can read: its path and its text.
pub struct IncludeSource {
    pub path: String,
    pub text: String,
}

/// The parser of one token list.
pub struct Parser {
    tokens: Vec<Token>,
    pub arena: NodeArena,
    current: usize,
    pub had_error: bool,
    visited_files: Vec<String>,
    source_name: String,
    diagnostics: Diagnostics,
    sources: Vec<IncludeSource>,
    first_node: Ghost<nat>,
    /// For each operator node this parser added, the position of the token
    /// it carries.
    op_at: Ghost<Map<int, int>>,
    /// The nodes that parsing included files added.
    included: Ghost<Set<int>>,
}

/// Whether a node of this kind applies an operator to operands.
pub open spec fn is_operator_node(t: NodeType) -> bool {
    t == NodeType::Binary || t == NodeType::Logical || t == NodeType::Unary
}

/// The operator nodes of `nodes` from node `first` on: each one that
/// `included` does not hold is recorded in `at`, at the position, before
/// `current`, of the token of `toks` it carries; no two share a position.
pub open spec fn ops_recorded(
    nodes: Seq<Node>,
    toks: Seq<Token>,
    current: int,
    first: int,
    at: Map<int, int>,
    included: Set<int>,
) -> bool {
    &&& forall|i: int|
        #[trigger] at.contains_key(i) ==> first <= i < nodes.len() && is_operator_node(nodes[i].node_type) && 0 <= at[i]
            < current && toks[at[i]] == nodes[i].token
    &&& forall|i: int, j: int| #[trigger] at.contains_key(i) && #[trigger] at.contains_key(j) && i != j ==> at[i] != at[j]
    &&& forall|i: int|
        first <= i < nodes.len() && is_operator_node(#[trigger] nodes[i].node_type) ==> at.contains_key(i)
            || included.contains(i)
}

/// A token list that the parser accepts: it ends with the end-of-file token.
pub open spec fn tokens_ok(ts: Seq<Token>) -> bool {
    ts.len() > 0 && ts.last().token_type == TokenType::EofToken
}

/// The arity of the built-in type that `new name(...)` makes, where
/// `name` is one: one argument for `String`, none for the others.
/// Node `w` is the `while` loop of a desugared `for`: its condition is `cond`
/// (a `true` literal where there is none), and its body is `body`, followed,
/// in a block, by the increment `incr` as a statement where there is one.
pub open spec fn for_while_shape(
    nodes: Seq<Node>,
    w: NodeId,
    cond: Option<NodeId>,
    incr: Option<NodeId>,
    body: Option<NodeId>,
) -> bool {
    let n = nodes[w.0 as int];
    &&& w.0 < nodes.len()
    &&& n.node_type == NodeType::StmtWhile
    &&& n.children@.len() == 2
    &&& match cond {
        Some(c) => n.children@[0] == Some(c),
        None => match n.children@[0] {
            Some(t) => t.0 < nodes.len() && nodes[t.0 as int].node_type == NodeType::Literal && nodes[t.0 as int].value
                == Value::Bool(true),
            None => false,
        },
    }
    &&& match incr {
        Some(e) => match n.children@[1] {
            Some(b) => {
                &&& b.0 < nodes.len()
                &&& nodes[b.0 as int].node_type == NodeType::StmtBlock
                &&& nodes[b.0 as int].children@.len() == 2
                &&& nodes[b.0 as int].children@[0] == body
                &&& match nodes[b.0 as int].children@[1] {
                    Some(st) => st.0 < nodes.len() && nodes[st.0 as int].node_type == NodeType::StmtExpr
                        && nodes[st.0 as int].children@ == seq![Some(e)],
                    None => false,
                }
            },
            None => false,
        },
        None => n.children@[1] == body,
    }
}

/// Node `id` is the desugared `for (init; cond; incr) body`: the `while`
/// loop of [`for_while_shape`], after `init` in a block where there is one.
pub open spec fn for_shape(
    nodes: Seq<Node>,
    id: NodeId,
    init: Option<NodeId>,
    cond: Option<NodeId>,
    incr: Option<NodeId>,
    body: Option<NodeId>,
) -> bool {
    match init {
        Some(i) => {
            &&& id.0 < nodes.len()
            &&& nodes[id.0 as int].node_type == NodeType::StmtBlock
            &&& nodes[id.0 as int].children@.len() == 2
            &&& nodes[id.0 as int].children@[0] == Some(i)
            &&& match nodes[id.0 as int].children@[1] {
                Some(w) => for_while_shape(nodes, w, cond, incr, body),
                None => false,
            }
        },
        None => for_while_shape(nodes, id, cond, incr, body),
    }
}

/// The present entries of `cs` are nodes numbered from `lo` up to, not
/// including, `hi`, in increasing order: declarations in the order they
/// were parsed.
pub open spec fn declarations_in_order(cs: Seq<Option<NodeId>>, lo: int, hi: int) -> bool {
    &&& forall|i: int| 0 <= i < cs.len() && (#[trigger] cs[i]) is Some ==> lo <= child_index(cs[i]) < hi
    &&& forall|i: int, j: int|
        0 <= i < j < cs.len() && (#[trigger] cs[i]) is Some && (#[trigger] cs[j]) is Some ==> child_index(cs[i])
            < child_index(cs[j])
}

/// The diagnostic of a parse error `message` at `token`, in `file`.
pub open spec fn parse_diagnostic(file: Seq<char>, token: Token, message: Seq<char>) -> SpecDiagnostic {
    SpecDiagnostic {
        phase: DiagnosticPhase::Parse,
        file,
        line: Some(token.line as nat),
        message: "Error at '"@ + token.lexeme@ + "': "@ + message,
    }
}

/// No diagnostic in `ds` is a type error.
pub open spec fn no_type_phase(ds: Seq<SpecDiagnostic>) -> bool {
    forall|i: int| 0 <= i < ds.len() ==> (#[trigger] ds[i]).phase != DiagnosticPhase::Type
}

/// Whether `path` is among the files already included.
pub open spec fn visited_has(visited: Seq<String>, path: Seq<char>) -> bool {
    exists|k: int| 0 <= k < visited.len() && (#[trigger] visited[k])@ == path
}

/// Each entry of `cs` is a field initializer `name: value`: an assignment
/// node named by its token, with the value as its one child.
pub open spec fn field_inits_shape(nodes: Seq<Node>, cs: Seq<Option<NodeId>>) -> bool {
    forall|k: int|
        0 <= k < cs.len() ==> match #[trigger] cs[k] {
            Some(f) => f.0 < nodes.len() && nodes[f.0 as int].node_type == NodeType::Assign && nodes[f.0 as int].children@.len()
                == 1,
            None => false,
        }
}

/// How the clauses of a `for` loop whose `(` stands at position `open` of
/// `toks` lie there: the initializer ends at `s1`, with a `;` (a lone `;`
/// where there is no initializer); it is a variable declaration of the name
/// after `let` where the clause starts with `let`, and an expression
/// statement otherwise. The condition lies between `s1` and the `;` at
/// `s2`, the increment between `s2` and the `)` at `rp`; each is absent
/// where nothing lies there, and, but after an error, only there.
pub open spec fn for_clauses(
    toks: Seq<Token>,
    nodes: Seq<Node>,
    open: int,
    init: Option<NodeId>,
    cond: Option<NodeId>,
    incr: Option<NodeId>,
    s1: int,
    s2: int,
    rp: int,
    failed: bool,
) -> bool {
    &&& open <= s1 < s2 < rp < toks.len()
    &&& open + 1 < toks.len()
    &&& toks[open].token_type == TokenType::LeftParen
    &&& toks[s2].token_type == TokenType::Semicolon
    &&& toks[rp].token_type == TokenType::RightParen
    &&& toks[open + 1].token_type == TokenType::Semicolon ==> init is None && s1 == open + 1
    &&& init is None ==> toks[open + 1].token_type == TokenType::Semicolon || failed
    &&& init matches Some(i) ==> {
        &&& i.0 < nodes.len()
        &&& toks[s1].token_type == TokenType::Semicolon
        &&& if toks[open + 1].token_type == TokenType::Let {
            &&& open + 2 < toks.len()
            &&& nodes[i.0 as int].node_type == NodeType::StmtVarDecl
            &&& nodes[i.0 as int].token == toks[open + 2]
        } else {
            nodes[i.0 as int].node_type == NodeType::StmtExpr
        }
    }
    &&& s2 == s1 + 1 ==> cond is None
    &&& cond is None ==> s2 == s1 + 1 || failed
    &&& rp == s2 + 1 ==> incr is None
    &&& incr is None ==> rp == s2 + 1 || failed
}

/// The field initializers `cs` of a struct literal, whose fields are
/// written from position `start` of `toks` up to, not including, `end`:
/// the `k`-th names the field written by the identifier token at `ps[k]`,
/// which a `:` follows; the names stand in increasing order from `start`
/// on; and each sets its field to one expression, a node added from node
/// `first` on, before the initializer's own node.
pub open spec fn field_inits_at(
    nodes: Seq<Node>,
    cs: Seq<Option<NodeId>>,
    toks: Seq<Token>,
    ps: Seq<int>,
    start: int,
    end: int,
    first: int,
) -> bool {
    &&& ps.len() == cs.len()
    &&& ps.len() > 0 ==> ps[0] == start
    &&& forall|k: int| 0 <= k < ps.len() ==> start <= #[trigger] ps[k] && ps[k] + 1 < end && ps[k] + 1 < toks.len()
    &&& forall|i: int, j: int| 0 <= i < j < ps.len() ==> #[trigger] ps[i] < #[trigger] ps[j]
    &&& forall|k: int|
        0 <= k < cs.len() ==> match #[trigger] cs[k] {
            Some(f) => {
                &&& f.0 < nodes.len()
                &&& nodes[f.0 as int].node_type == NodeType::Assign
                &&& nodes[f.0 as int].token == toks[ps[k]]
                &&& toks[ps[k]].token_type == TokenType::Identifier
                &&& toks[ps[k] + 1].token_type == TokenType::Colon
                &&& nodes[f.0 as int].children@.len() == 1
                &&& first <= f.0
                &&& nodes[f.0 as int].children@[0] matches Some(e) ==> first <= e.0 < f.0
            },
            None => false,
        }
}

/// The present entries of `cs` were parsed in the order they come: their
/// nodes are numbered in increasing order.
pub open spec fn parsed_in_order(cs: Seq<Option<NodeId>>) -> bool {
    forall|i: int, j: int|
        0 <= i < j < cs.len() && (#[trigger] cs[i]) is Some && (#[trigger] cs[j]) is Some ==> child_index(cs[i])
            < child_index(cs[j])
}

/// The value of the literal that a token of this kind stands for, where
/// it is a literal.
pub open spec fn literal_token_value(t: Token) -> Option<Value> {
    match t.token_type {
        TokenType::False => Some(Value::Bool(false)),
        TokenType::True => Some(Value::Bool(true)),
        TokenType::Null => Some(Value::Null),
        TokenType::Int | TokenType::Float | TokenType::Str => Some(t.literal),
        _ => None,
    }
}

/// Whether a token of this kind can start a primary expression.
pub open spec fn starts_expression(tt: TokenType) -> bool {
    ||| tt == TokenType::New
    ||| tt == TokenType::False
    ||| tt == TokenType::True
    ||| tt == TokenType::Null
    ||| tt == TokenType::Int
    ||| tt == TokenType::Float
    ||| tt == TokenType::Str
    ||| tt == TokenType::LeftBracket
    ||| tt == TokenType::LeftParen
    ||| tt == TokenType::Identifier
}

pub open spec fn builtin_arity(name: Seq<char>) -> Option<nat> {
    if name == "String"@ {
        Some(1)
    } else if name == "IntVec"@ || name == "StrVec"@ || name == "StrIntMap"@ || name == "StrStrMap"@ {
        Some(0)
    } else {
        None
    }
}

/// Every string token of `ts` carries its string.
pub open spec fn str_literals_ok(ts: Seq<Token>) -> bool {
    forall|i: int| 0 <= i < ts.len() && (#[trigger] ts[i]).token_type == TokenType::Str ==> ts[i].literal is Str
}

/// Every present child in `cs` names one of the first `n` nodes.
pub open spec fn children_ok(cs: Seq<Option<NodeId>>, n: nat) -> bool {
    forall|k: int| 0 <= k < cs.len() && (#[trigger] cs[k]) is Some ==> child_index(cs[k]) < n
}

/// A node whose children all name earlier nodes can be added to a
/// well-formed arena.
pub proof fn lemma_push_wf(nodes: Seq<Node>, n: Node)
    requires
        nodes_wf(nodes),
        children_ok(n.children@, nodes.len()),
    ensures
        nodes_wf(nodes.push(n)),
{
    let s = nodes.push(n);
    assert forall|i: int, k: int|
        0 <= i < s.len() && 0 <= k < s[i].children@.len() && (#[trigger] s[i].children@[k]) is Some implies {
        let c = child_index(s[i].children@[k]);
        &&& c < s.len()
        &&& (c < i || s[c].children@.len() == 0)
    } by {
        if i < nodes.len() {
            assert(s[i] == nodes[i]);
            let c = child_index(nodes[i].children@[k]);
            assert(s[c] == nodes[c]);
        } else {
            assert(n.children@[k] is Some);
        }
    }
}

/// `b` keeps every node of `a` where it was: nodes are only ever added.
pub open spec fn extends(a: Seq<Node>, b: Seq<Node>) -> bool {
    &&& a.len() <= b.len()
    &&& forall|i: int| 0 <= i < a.len() ==> #[trigger] b[i] == a[i]
}

/// How tightly a node binds as an operand, from assignment (1) up to the
/// postfix and primary forms (9).
pub open spec fn binding(node_type: NodeType, op: TokenType) -> int {
    match node_type {
        NodeType::Assign | NodeType::AssignField | NodeType::AssignDeref => 1,
        NodeType::Logical => if op == TokenType::Or { 2 } else { 3 },
        NodeType::Binary => {
            if op == TokenType::EqualEqual || op == TokenType::BangEqual {
                4
            } else if op == TokenType::Greater || op == TokenType::GreaterEqual || op == TokenType::Less
                || op == TokenType::LessEqual {
                5
            } else if op == TokenType::Plus || op == TokenType::Minus {
                6
            } else {
                7
            }
        },
        NodeType::Unary | NodeType::AddressOf => 8,
        _ => 9,
    }
}

/// How tightly node `id` of `nodes` binds.
pub open spec fn node_binding(nodes: Seq<Node>, id: NodeId) -> int {
    binding(nodes[id.0 as int].node_type, nodes[id.0 as int].token.token_type)
}

/// The child `c`, where present, binds at least as tightly as `level`.
pub open spec fn binds_at_least(nodes: Seq<Node>, c: Option<NodeId>, level: int) -> bool {
    match c {
        Some(id) => node_binding(nodes, id) >= level,
        None => true,
    }
}

/// A node of kind `node_type` with operator `op` and children `cs` respects
/// the precedence of the operators: the left operand of a binary operator
/// binds at least as tightly as the operator and the right one strictly more
/// (so operators of one level group to the left), the operand of a prefix
/// operator is a prefix or postfix form, and the operand of a postfix form
/// (call, index, field, dereference) is itself a postfix or primary form.
pub open spec fn respects_precedence(
    nodes: Seq<Node>,
    node_type: NodeType,
    op: TokenType,
    cs: Seq<Option<NodeId>>,
) -> bool {
    let level = binding(node_type, op);
    match node_type {
        NodeType::Binary | NodeType::Logical => {
            &&& cs.len() == 2
            &&& binds_at_least(nodes, cs[0], level)
            &&& binds_at_least(nodes, cs[1], level + 1)
        },
        NodeType::Unary | NodeType::AddressOf => cs.len() > 0 ==> binds_at_least(nodes, cs[0], 8),
        NodeType::Call | NodeType::IndexGet | NodeType::GetField | NodeType::Dereference => cs.len() > 0
            ==> binds_at_least(nodes, cs[0], 9),
        _ => true,
    }
}

/// Node `i` of `nodes` respects the precedence of the operators.
pub open spec fn node_respects_precedence(nodes: Seq<Node>, i: int) -> bool {
    respects_precedence(nodes, nodes[i].node_type, nodes[i].token.token_type, nodes[i].children@)
}

/// Every node from position `from` on respects the precedence of the
/// operators.
pub open spec fn precedence_from(nodes: Seq<Node>, from: int) -> bool {
    forall|i: int| 0 <= i && from <= i < nodes.len() ==> #[trigger] node_respects_precedence(nodes, i)
}

/// Whether a node respects precedence depends only on it and its children,
/// which adding nodes leaves as they were.
pub proof fn lemma_precedence_extends(a: Seq<Node>, b: Seq<Node>, node_type: NodeType, op: TokenType, cs: Seq<Option<NodeId>>)
    requires
        extends(a, b),
        children_ok(cs, a.len()),
    ensures
        respects_precedence(a, node_type, op, cs) == respects_precedence(b, node_type, op, cs),
{
    if cs.len() > 0 && cs[0] is Some {
        assert(b[child_index(cs[0])] == a[child_index(cs[0])]);
    }
    if cs.len() > 1 && cs[1] is Some {
        assert(b[child_index(cs[1])] == a[child_index(cs[1])]);
    }
}

/// Adding nodes keeps every node that respected precedence doing so.
pub proof fn lemma_precedence_from_extends(a: Seq<Node>, b: Seq<Node>, from: int)
    requires
        nodes_wf(a),
        extends(a, b),
        precedence_from(a, from),
    ensures
        forall|i: int| 0 <= i && from <= i < a.len() ==> #[trigger] node_respects_precedence(b, i),
{
    assert forall|i: int| 0 <= i && from <= i < a.len() implies #[trigger] node_respects_precedence(b, i) by {
        assert(node_respects_precedence(a, i));
        assert(b[i] == a[i]);
        assert forall|k: int| 0 <= k < a[i].children@.len() && (#[trigger] a[i].children@[k]) is Some
            implies child_index(a[i].children@[k]) < a.len() by {}
        lemma_precedence_extends(a, b, a[i].node_type, a[i].token.token_type, a[i].children@);
    }
}

impl Parser {
    pub closed spec fn wf(&self) -> bool {
        &&& tokens_ok(self.tokens@)
        &&& self.tokens@.len() <= usize::MAX
        &&& self.current < self.tokens@.len()
        &&& nodes_wf(arena_nodes(self.arena))
        &&& self.first_node@ <= arena_nodes(self.arena).len()
        &&& precedence_from(arena_nodes(self.arena), self.first_node@ as int)
        &&& ops_recorded(
            arena_nodes(self.arena),
            self.tokens@,
            self.current as int,
            self.first_node@ as int,
            self.op_at@,
            self.included@,
        )
    }

    /// The position of the token that operator node `i` carries, where this
    /// parser added it from its own tokens.
    pub closed spec fn op_position(&self, i: int) -> Option<int> {
        if self.op_at@.contains_key(i) {
            Some(self.op_at@[i])
        } else {
            None
        }
    }

    /// The tokens being parsed.
    pub closed spec fn tokens_view(&self) -> Seq<Token> {
        self.tokens@
    }

    /// Whether node `i` was added by parsing an included file.
    pub closed spec fn included_node(&self, i: int) -> bool {
        self.included@.contains(i)
    }

    /// The position of the first node this parser added.
    pub closed spec fn first_new_node(&self) -> nat {
        self.first_node@
    }

    /// The diagnostics reported so far.
    pub closed spec fn diags(&self) -> Seq<SpecDiagnostic> {
        self.diagnostics@
    }

    /// `b` is `a` but for the diagnostics.
    pub closed spec fn same_but_diagnostics(a: &Parser, b: &Parser) -> bool {
        &&& b.tokens == a.tokens
        &&& b.arena == a.arena
        &&& b.current == a.current
        &&& b.had_error == a.had_error
        &&& b.visited_files == a.visited_files
        &&& b.source_name == a.source_name
        &&& b.sources == a.sources
        &&& b.first_node == a.first_node
        &&& b.op_at == a.op_at
        &&& b.included == a.included
    }

    /// Whether an error was reported.
    pub closed spec fn error_flag(&self) -> bool {
        self.had_error
    }

    /// The arena that receives the nodes.
    pub closed spec fn arena_of(&self) -> NodeArena {
        self.arena
    }

    /// The number of nodes allocated so far.
    pub closed spec fn node_count(&self) -> nat {
        arena_nodes(self.arena).len()
    }

    /// The number of files that `include` can still read.
    pub closed spec fn sources_left(&self) -> nat {
        self.sources@.len()
    }

    /// The number of tokens not yet read.
    pub closed spec fn remaining(&self) -> int {
        self.tokens@.len() - self.current
    }

    pub closed spec fn at_end(&self) -> bool {
        self.tokens@[self.current as int].token_type == TokenType::EofToken
    }

    /// The node at `id`.
    pub closed spec fn node_at(&self, id: NodeId) -> Node {
        arena_nodes(self.arena)[id.0 as int]
    }

    pub closed spec fn position(&self) -> nat {
        self.current as nat
    }

    /// What every parsing method keeps: the tokens, the name; the position
    /// only moves forward; nodes are only added; files are only used up.
    pub closed spec fn grows(old: &Parser, new: &Parser) -> bool {
        &&& Self::grows_base(old, new)
        &&& Self::ops_grow(old, new)
    }

    /// The operator positions recorded before stay, and those recorded
    /// since are of tokens consumed since.
    pub closed spec fn ops_grow(old: &Parser, new: &Parser) -> bool {
        &&& forall|i: int| #[trigger] old.op_at@.contains_key(i) ==> new.op_at@.contains_key(i) && new.op_at@[i] == old.op_at@[i]
        &&& forall|i: int| #[trigger] new.op_at@.contains_key(i) && !old.op_at@.contains_key(i) ==> old.current <= new.op_at@[i]
    }

    pub closed spec fn grows_base(old: &Parser, new: &Parser) -> bool {
        &&& new.wf()
        &&& new.tokens == old.tokens
        &&& new.source_name == old.source_name
        &&& new.first_node == old.first_node
        &&& old.current <= new.current
        &&& extends(arena_nodes(old.arena), arena_nodes(new.arena))
        &&& new.sources@.len() <= old.sources@.len()
        &&& (old.had_error ==> new.had_error)
        &&& new.diagnostics@.len() >= old.diagnostics@.len()
        &&& new.had_error == (old.had_error || new.diagnostics@.len() > old.diagnostics@.len())
        &&& (no_type_phase(old.diagnostics@) ==> no_type_phase(new.diagnostics@))
    }

    pub open spec fn result_ok(&self, r: Option<NodeId>) -> bool {
        r matches Some(id) ==> id.0 < self.node_count()
    }

    /// A parser for `tokens`, named `source_name` in diagnostics, that adds
    /// nodes to `arena`, and for which `include` reads the files of
    /// `sources` (each at most once) and skips the paths of `visited_files`.
    pub fn new_with_source(
        tokens: Vec<Token>,
        arena: NodeArena,
        visited_files: Vec<String>,
        source_name: &str,
        sources: Vec<IncludeSource>,
    ) -> (p: Parser)
        requires
            tokens_ok(tokens@),
            nodes_wf(arena_nodes(arena)),
        ensures
            p.wf(),
            p.position() == 0,
            p.arena_of() == arena,
            p.sources_left() == sources@.len(),
            p.first_new_node() == arena_nodes(arena).len(),
            !p.error_flag(),
            p.diags().len() == 0,
    {
        let _n = tokens.len();
        let ghost first = arena_nodes(arena).len();
        Parser {
            tokens,
            arena,
            current: 0,
            had_error: false,
            visited_files,
            source_name: source_name.to_string(),
            diagnostics: Diagnostics::new(),
            sources,
            first_node: Ghost(first),
            op_at: Ghost(Map::empty()),
            included: Ghost(Set::empty()),
        }
    }

    /// A parser for `tokens` with a new arena and no files to include.
    pub fn new(tokens: Vec<Token>) -> (p: Parser)
        requires
            tokens_ok(tokens@),
        ensures
            p.wf(),
            p.position() == 0,
            p.node_count() == 0,
            p.first_new_node() == 0,
            !p.error_flag(),
    {
        let arena = NodeArena::new();
        Self::new_with_source(tokens, arena, Vec::new(), "<input>", Vec::new())
    }

    /// The diagnostics reported so far; the parser keeps none.
    pub fn take_diagnostics(&mut self) -> (d: Diagnostics)
        ensures
            d@ == old(self).diags(),
            final(self).diags().len() == 0,
            Self::same_but_diagnostics(old(self), final(self)),
    {
        let mut d = Diagnostics::new();
        core::mem::swap(&mut d, &mut self.diagnostics);
        d
    }

    /// Whether a parse error was reported.
    pub fn had_error(&self) -> (b: bool)
        ensures
            b == self.error_flag(),
    {
        self.had_error
    }

    /// The arena, the visited files, the unused files and the diagnostics.
    pub fn into_parts(self) -> (r: (NodeArena, Vec<String>, Vec<IncludeSource>, Diagnostics))
        ensures
            r.0 == self.arena_of(),
            r.2@.len() == self.sources_left(),
            r.3@ == self.diags(),
            self.wf() ==> nodes_wf(arena_nodes(r.0)),
            arena_nodes(r.0).len() == self.node_count(),
    {
        (self.arena, self.visited_files, self.sources, self.diagnostics)
    }

    // ── Token access ──

    fn peek(&self) -> (t: &Token)
        requires
            self.current < self.tokens@.len(),
        ensures
            *t == self.tokens@[self.current as int],
    {
        &self.tokens[self.current]
    }

    fn previous(&self) -> (t: &Token)
        requires
            0 < self.current <= self.tokens@.len(),
        ensures
            *t == self.tokens@[self.current - 1],
    {
        &self.tokens[self.current - 1]
    }

    fn is_at_end(&self) -> (r: bool)
        requires
            self.current < self.tokens@.len(),
        ensures
            r == self.at_end(),
    {
        self.peek().token_type == TokenType::EofToken
    }

    fn check(&self, tt: TokenType) -> (r: bool)
        requires
            self.current < self.tokens@.len(),
        ensures
            r == (!self.at_end() && self.tokens@[self.current as int].token_type == tt),
    {
        if self.is_at_end() {
            return false;
        }
        self.peek().token_type == tt
    }

    fn advance(&mut self)
        requires
            old(self).wf(),
        ensures
            final(self).wf(),
            final(self).current == if old(self).at_end() {
                old(self).current
            } else {
                (old(self).current + 1) as usize
            },
            final(self).tokens == old(self).tokens,
            final(self).arena == old(self).arena,
            final(self).had_error == old(self).had_error,
            final(self).sources == old(self).sources,
            final(self).source_name == old(self).source_name,
            final(self).diagnostics == old(self).diagnostics,
            final(self).first_node == old(self).first_node,
            final(self).visited_files == old(self).visited_files,
            final(self).op_at == old(self).op_at,
            final(self).included == old(self).included,
    {
        if !self.is_at_end() {
            self.current = self.current + 1;
        }
    }

    fn match_types(&mut self, types: &[TokenType]) -> (r: bool)
        requires
            old(self).wf(),
        ensures
            Self::grows(old(self), final(self)),
            final(self).arena == old(self).arena,
            final(self).had_error == old(self).had_error,
            final(self).sources == old(self).sources,
            final(self).diagnostics == old(self).diagnostics,
            final(self).source_name == old(self).source_name,
            final(self).op_at == old(self).op_at,
            r ==> final(self).current == old(self).current + 1,
            !r ==> final(self).current == old(self).current,
            r ==> exists|k: int| 0 <= k < types@.len() && old(self).tokens@[old(self).current as int].token_type == types@[k],
            r == (!old(self).at_end() && exists|k: int|
                0 <= k < types@.len() && old(self).tokens@[old(self).current as int].token_type == #[trigger] types@[k]),
    {
        let mut i: usize = 0;
        while i < types.len()
            invariant
                i <= types@.len(),
                *self == *old(self),
                self.wf(),
                forall|j: int| 0 <= j < i ==> !(!self.at_end() && self.tokens@[self.current as int].token_type
                    == #[trigger] types@[j]),
            decreases types@.len() - i,
        {
            if self.check(types[i]) {
                self.advance();
                return true;
            }
            i = i + 1;
        }
        false
    }

    fn consume(&mut self, tt: TokenType, message: &str) -> (r: Option<Token>)
        requires
            old(self).wf(),
        ensures
            Self::grows(old(self), final(self)),
            final(self).arena == old(self).arena,
            final(self).sources == old(self).sources,
            r is Some ==> final(self).current == old(self).current + 1,
            r is Some ==> r->0 == old(self).tokens@[old(self).current as int],
            r is Some ==> r->0.token_type == tt,
            r is None ==> final(self).current == old(self).current,
            r is Some <==> (!old(self).at_end() && old(self).tokens@[old(self).current as int].token_type == tt),
            r is None ==> final(self).error_flag(),
            r is Some ==> final(self).diagnostics == old(self).diagnostics && final(self).had_error == old(self).had_error
                && final(self).visited_files == old(self).visited_files,
    {
        if self.check(tt) {
            self.advance();
            return Some(self.previous().duplicate());
        }
        self.error_at_peek(message);
        None
    }

    fn error_at_peek(&mut self, message: &str)
        requires
            old(self).wf(),
        ensures
            Self::grows(old(self), final(self)),
            final(self).arena == old(self).arena,
            final(self).sources == old(self).sources,
            final(self).current == old(self).current,
            final(self).had_error,
            final(self).visited_files == old(self).visited_files,
            old(self).diags().is_prefix_of(final(self).diags()),
            final(self).diags() == old(self).diags().push(
                parse_diagnostic(old(self).source_name@, old(self).tokens@[old(self).current as int], message@),
            ),
    {
        let token = self.peek().duplicate();
        self.error_at(&token, message);
    }

    fn error_at(&mut self, token: &Token, message: &str)
        requires
            old(self).wf(),
        ensures
            Self::grows(old(self), final(self)),
            final(self).arena == old(self).arena,
            final(self).sources == old(self).sources,
            final(self).current == old(self).current,
            final(self).had_error,
            final(self).diags() == old(self).diags().push(parse_diagnostic(old(self).source_name@, *token, message@)),
            final(self).visited_files == old(self).visited_files,
    {
        let mut detail = String::new();
        push_str(&mut detail, "Error at '");
        push_str(&mut detail, token.lexeme.as_str());
        push_str(&mut detail, "': ");
        push_str(&mut detail, message);
        self.diagnostics.emit_line(DiagnosticPhase::Parse, self.source_name.as_str(), token.line, detail.as_str());
        self.had_error = true;
    }

    /// Adds a node whose children are all earlier nodes; reports an error
    /// and gives `None` where the arena cannot hold one more node.
    fn node(
        &mut self,
        node_type: NodeType,
        token: Token,
        value: Value,
        children: Vec<Option<NodeId>>,
        type_annotation: Option<CiprType>,
    ) -> (r: Option<NodeId>)
        requires
            old(self).wf(),
            children_ok(children@, old(self).node_count()),
            respects_precedence(arena_nodes(old(self).arena), node_type, token.token_type, children@),
            !is_operator_node(node_type),
        ensures
            Self::grows(old(self), final(self)),
            final(self).result_ok(r),
            final(self).current == old(self).current,
            final(self).sources == old(self).sources,
            r matches Some(id) ==> {
                &&& final(self).node_at(id).node_type == node_type
                &&& final(self).node_at(id).token == token
                &&& final(self).node_at(id).value == value
                &&& final(self).node_at(id).children == children
                &&& id.0 == old(self).node_count()
                &&& final(self).node_count() == old(self).node_count() + 1
            },
            r is None <==> old(self).node_count() >= usize::MAX - 1,
            r is None ==> final(self).error_flag(),
            r is Some ==> final(self).diagnostics == old(self).diagnostics && final(self).had_error == old(self).had_error,
            final(self).visited_files == old(self).visited_files,
            old(self).diags().is_prefix_of(final(self).diags()),
    {
        if self.arena.len() >= usize::MAX - 1 {
            self.error_at_peek("Program is too large.");
            return None;
        }
        let ghost before = arena_nodes(self.arena);
        let ghost cs = children@;
        let ghost op = token.token_type;
        let id = alloc_node_typed(&mut self.arena, node_type, token, value, children, type_annotation);
        proof {
            let after = arena_nodes(self.arena);
            let n = after[id.0 as int];
            assert(after == before.push(n));
            lemma_push_wf(before, n);
            assert(extends(before, after));
            lemma_precedence_extends(before, after, node_type, op, cs);
            lemma_precedence_from_extends(before, after, self.first_node@ as int);
            assert(node_respects_precedence(after, id.0 as int));
        }
        Some(id)
    }

    /// Adds an operator node, whose token is the one at position `pos`, as
    /// [`Self::node`] does, and records that position.
    fn op_node(
        &mut self,
        node_type: NodeType,
        token: Token,
        children: Vec<Option<NodeId>>,
        Ghost(pos): Ghost<int>,
    ) -> (r: Option<NodeId>)
        requires
            old(self).wf(),
            children_ok(children@, old(self).node_count()),
            respects_precedence(arena_nodes(old(self).arena), node_type, token.token_type, children@),
            is_operator_node(node_type),
            0 <= pos < old(self).current,
            old(self).tokens@[pos] == token,
            forall|i: int| #[trigger] old(self).op_at@.contains_key(i) ==> old(self).op_at@[i] != pos,
        ensures
            Self::grows_base(old(self), final(self)),
            final(self).result_ok(r),
            final(self).current == old(self).current,
            final(self).sources == old(self).sources,
            r matches Some(id) ==> {
                &&& final(self).node_at(id).node_type == node_type
                &&& final(self).node_at(id).token == token
                &&& final(self).node_at(id).value == Value::Null
                &&& final(self).node_at(id).children == children
                &&& id.0 == old(self).node_count()
                &&& final(self).node_count() == old(self).node_count() + 1
                &&& final(self).op_at@ == old(self).op_at@.insert(id.0 as int, pos)
            },
            r is None ==> final(self).op_at == old(self).op_at,
            r is None <==> old(self).node_count() >= usize::MAX - 1,
            r is None ==> final(self).error_flag(),
            r is Some ==> final(self).diagnostics == old(self).diagnostics && final(self).had_error == old(self).had_error,
            final(self).visited_files == old(self).visited_files,
            old(self).diags().is_prefix_of(final(self).diags()),
    {
        if self.arena.len() >= usize::MAX - 1 {
            self.error_at_peek("Program is too large.");
            return None;
        }
        let ghost before = arena_nodes(self.arena);
        let ghost cs = children@;
        let ghost op = token.token_type;
        let ghost at0 = self.op_at@;
        let id = alloc_node_typed(&mut self.arena, node_type, token, Value::Null, children, None);
        self.op_at = Ghost(self.op_at@.insert(id.0 as int, pos));
        proof {
            let after = arena_nodes(self.arena);
            let n = after[id.0 as int];
            assert(after == before.push(n));
            lemma_push_wf(before, n);
            assert(extends(before, after));
            lemma_precedence_extends(before, after, node_type, op, cs);
            lemma_precedence_from_extends(before, after, self.first_node@ as int);
            assert(node_respects_precedence(after, id.0 as int));
            assert(id.0 == before.len());
            assert forall|i: int| #[trigger] self.op_at@.contains_key(i) implies self.first_node@ <= i < after.len()
                && is_operator_node(after[i].node_type) && 0 <= self.op_at@[i] < self.current && self.tokens@[self.op_at@[i]]
                == after[i].token by {
                if i != id.0 {
                    assert(at0.contains_key(i));
                    assert(after[i] == before[i]);
                }
            }
        }
        Some(id)
    }

    /// Ending with an operator node keeps a parse growing: its position was
    /// consumed after the parse began.
    proof fn lemma_grows_through_op(a: &Parser, b: &Parser, c: &Parser, pos: int, r: Option<NodeId>)
        requires
            Self::grows(a, b),
            Self::grows_base(b, c),
            a.current <= pos,
            r matches Some(id) ==> c.op_at@ == b.op_at@.insert(id.0 as int, pos) && !b.op_at@.contains_key(id.0 as int),
            r is None ==> c.op_at == b.op_at,
            c.current == b.current,
        ensures
            Self::grows(a, c),
    {
    }

    fn synchronize(&mut self)
        requires
            old(self).wf(),
            old(self).current > 0 || !old(self).at_end(),
        ensures
            Self::grows(old(self), final(self)),
            final(self).arena == old(self).arena,
            final(self).sources == old(self).sources,
            final(self).had_error == old(self).had_error,
            !old(self).at_end() ==> final(self).current > old(self).current,
            final(self).current > 0,
    {
        self.advance();
        while !self.is_at_end()
            invariant
                Self::grows(old(self), self),
                self.arena == old(self).arena,
                self.sources == old(self).sources,
                self.had_error == old(self).had_error,
                !old(self).at_end() ==> self.current > old(self).current,
                self.current > 0,
            decreases self.tokens@.len() - self.current,
        {
            if self.previous().token_type == TokenType::Semicolon {
                return;
            }
            let tt = self.peek().token_type;
            if tt == TokenType::Fn || tt == TokenType::Let || tt == TokenType::For || tt == TokenType::If
                || tt == TokenType::While || tt == TokenType::Return {
                return;
            }
            self.advance();
        }
    }
}

/// A copy of a list of children.
pub fn copy_children(cs: &Vec<Option<NodeId>>) -> (r: Vec<Option<NodeId>>)
    ensures
        r@ == cs@,
{
    let mut r: Vec<Option<NodeId>> = Vec::new();
    let mut i: usize = 0;
    while i < cs.len()
        invariant
            i <= cs@.len(),
            r@ == cs@.take(i as int),
        decreases cs@.len() - i,
    {
        r.push(cs[i]);
        assert(cs@.take(i + 1) =~= cs@.take(i as int).push(cs@[i as int]));
        i = i + 1;
    }
    assert(cs@.take(cs@.len() as int) =~= cs@);
    r
}

} // verus!

verus! {

/// The first child of a node, if it has one.
pub fn first_child(n: &Node) -> (r: Option<NodeId>)
    ensures
        r == if n.children@.len() > 0 { n.children@[0] } else { None },
{
    if n.children.len() > 0 {
        n.children[0]
    } else {
        None
    }
}

/// A child of a node of a well-formed arena names a node of the arena.
pub proof fn lemma_child_valid(nodes: Seq<Node>, i: int, k: int)
    requires
        nodes_wf(nodes),
        0 <= i < nodes.len(),
        0 <= k < nodes[i].children@.len(),
        nodes[i].children@[k] is Some,
    ensures
        child_index(nodes[i].children@[k]) < nodes.len(),
        0 <= child_index(nodes[i].children@[k]),
{
    assert(nodes[i].children@[k] is Some);
}

impl Parser {
    /// What a parsing method promises: it keeps what [`Parser::grows`] keeps,
    /// a node it returns is in the arena, and it returns a node only after
    /// reading at least one token.
    pub closed spec fn parsed(old: &Parser, new: &Parser, r: Option<NodeId>) -> bool {
        &&& Self::grows(old, new)
        &&& new.result_ok(r)
        &&& (r is Some ==> new.current > old.current)
        &&& (r matches Some(id) ==> id.0 >= old.node_count())
    }

    fn expression(&mut self) -> (r: Option<NodeId>)
        requires
            old(self).wf(),
        ensures
            Self::parsed(old(self), final(self), r),
            r is None ==> final(self).error_flag(),
            binds_at_least(arena_nodes(final(self).arena), r, 1),
        decreases old(self).tokens@.len() - old(self).current, 27nat,
    {
        self.assignment()
    }

    fn assignment(&mut self) -> (r: Option<NodeId>)
        requires
            old(self).wf(),
        ensures
            Self::parsed(old(self), final(self), r),
            r is None ==> final(self).error_flag(),
            binds_at_least(arena_nodes(final(self).arena), r, 1),
        decreases old(self).tokens@.len() - old(self).current, 26nat,
    {
        let expr = self.logical_or()?;
        if self.match_types(&[TokenType::Equal]) {
            let equals = self.previous().duplicate();
            let value = self.assignment();
            let left_type = self.arena.get(expr).node_type;
            if left_type == NodeType::VarExpr {
                let name = self.arena.get(expr).token.duplicate();
                return self.node(NodeType::Assign, name, Value::Null, vec![value], None);
            } else if left_type == NodeType::GetField {
                let name = self.arena.get(expr).token.duplicate();
                let target_expr = first_child(self.arena.get(expr));
                proof {
                    if target_expr is Some {
                        lemma_child_valid(arena_nodes(self.arena), expr.0 as int, 0);
                    }
                }
                return self.node(NodeType::AssignField, name, Value::Null, vec![target_expr, value], None);
            } else if left_type == NodeType::Dereference {
                let equals2 = self.previous().duplicate();
                let inner_expr = first_child(self.arena.get(expr));
                proof {
                    if inner_expr is Some {
                        lemma_child_valid(arena_nodes(self.arena), expr.0 as int, 0);
                    }
                }
                return self.node(NodeType::AssignDeref, equals2, Value::Null, vec![inner_expr, value], None);
            } else if left_type == NodeType::IndexGet {
                let at = Token::synthetic(TokenType::At, "@", equals.line);
                let address_of = self.node(NodeType::AddressOf, at, Value::Null, vec![Some(expr)], None)?;
                return self.node(NodeType::AssignDeref, equals, Value::Null, vec![Some(address_of), value], None);
            }
            self.error_at(&equals, "Invalid assignment target.");
        }
        Some(expr)
    }

    fn logical_or(&mut self) -> (r: Option<NodeId>)
        requires
            old(self).wf(),
        ensures
            Self::parsed(old(self), final(self), r),
            r is None ==> final(self).error_flag(),
            binds_at_least(arena_nodes(final(self).arena), r, 2),
        decreases old(self).tokens@.len() - old(self).current, 25nat,
    {
        let mut left = self.logical_and()?;
        while self.match_types(&[TokenType::Or])
            invariant
                Self::parsed(old(self), self, Some(left)),
                binds_at_least(arena_nodes(self.arena), Some(left), 2),
            decreases self.tokens@.len() - self.current,
        {
            let ghost pos = self.current - 1;
            let op = self.previous().duplicate();
            let right = self.logical_and()?;
            let ghost mid = *self;
            let made = self.op_node(NodeType::Logical, op, vec![Some(left), Some(right)], Ghost(pos));
            proof {
                Self::lemma_grows_through_op(old(self), &mid, self, pos, made);
            }
            left = made?;
        }
        Some(left)
    }

    fn logical_and(&mut self) -> (r: Option<NodeId>)
        requires
            old(self).wf(),
        ensures
            Self::parsed(old(self), final(self), r),
            r is None ==> final(self).error_flag(),
            binds_at_least(arena_nodes(final(self).arena), r, 3),
        decreases old(self).tokens@.len() - old(self).current, 24nat,
    {
        let mut left = self.equality()?;
        while self.match_types(&[TokenType::And])
            invariant
                Self::parsed(old(self), self, Some(left)),
                binds_at_least(arena_nodes(self.arena), Some(left), 3),
            decreases self.tokens@.len() - self.current,
        {
            let ghost pos = self.current - 1;
            let op = self.previous().duplicate();
            let right = self.equality()?;
            let ghost mid = *self;
            let made = self.op_node(NodeType::Logical, op, vec![Some(left), Some(right)], Ghost(pos));
            proof {
                Self::lemma_grows_through_op(old(self), &mid, self, pos, made);
            }
            left = made?;
        }
        Some(left)
    }

    fn equality(&mut self) -> (r: Option<NodeId>)
        requires
            old(self).wf(),
        ensures
            Self::parsed(old(self), final(self), r),
            r is None ==> final(self).error_flag(),
            binds_at_least(arena_nodes(final(self).arena), r, 4),
        decreases old(self).tokens@.len() - old(self).current, 23nat,
    {
        let mut left = self.comparison()?;
        while self.match_types(&[TokenType::BangEqual, TokenType::EqualEqual])
            invariant
                Self::parsed(old(self), self, Some(left)),
                binds_at_least(arena_nodes(self.arena), Some(left), 4),
            decreases self.tokens@.len() - self.current,
        {
            let ghost pos = self.current - 1;
            let op = self.previous().duplicate();
            let right = self.comparison()?;
            let ghost mid = *self;
            let made = self.op_node(NodeType::Binary, op, vec![Some(left), Some(right)], Ghost(pos));
            proof {
                Self::lemma_grows_through_op(old(self), &mid, self, pos, made);
            }
            left = made?;
        }
        Some(left)
    }

    fn comparison(&mut self) -> (r: Option<NodeId>)
        requires
            old(self).wf(),
        ensures
            Self::parsed(old(self), final(self), r),
            r is None ==> final(self).error_flag(),
            binds_at_least(arena_nodes(final(self).arena), r, 5),
        decreases old(self).tokens@.len() - old(self).current, 22nat,
    {
        let mut left = self.term()?;
        while self.match_types(
            &[TokenType::Greater, TokenType::GreaterEqual, TokenType::Less, TokenType::LessEqual],
        )
            invariant
                Self::parsed(old(self), self, Some(left)),
                binds_at_least(arena_nodes(self.arena), Some(left), 5),
            decreases self.tokens@.len() - self.current,
        {
            let ghost pos = self.current - 1;
            let op = self.previous().duplicate();
            let right = self.term()?;
            let ghost mid = *self;
            let made = self.op_node(NodeType::Binary, op, vec![Some(left), Some(right)], Ghost(pos));
            proof {
                Self::lemma_grows_through_op(old(self), &mid, self, pos, made);
            }
            left = made?;
        }
        Some(left)
    }

    fn term(&mut self) -> (r: Option<NodeId>)
        requires
            old(self).wf(),
        ensures
            Self::parsed(old(self), final(self), r),
            r is None ==> final(self).error_flag(),
            binds_at_least(arena_nodes(final(self).arena), r, 6),
        decreases old(self).tokens@.len() - old(self).current, 21nat,
    {
        let mut left = self.factor()?;
        while self.match_types(&[TokenType::Plus, TokenType::Minus])
            invariant
                Self::parsed(old(self), self, Some(left)),
                binds_at_least(arena_nodes(self.arena), Some(left), 6),
            decreases self.tokens@.len() - self.current,
        {
            let ghost pos = self.current - 1;
            let op = self.previous().duplicate();
            let right = self.factor()?;
            let ghost mid = *self;
            let made = self.op_node(NodeType::Binary, op, vec![Some(left), Some(right)], Ghost(pos));
            proof {
                Self::lemma_grows_through_op(old(self), &mid, self, pos, made);
            }
            left = made?;
        }
        Some(left)
    }

    fn factor(&mut self) -> (r: Option<NodeId>)
        requires
            old(self).wf(),
        ensures
            Self::parsed(old(self), final(self), r),
            r is None ==> final(self).error_flag(),
            binds_at_least(arena_nodes(final(self).arena), r, 7),
        decreases old(self).tokens@.len() - old(self).current, 20nat,
    {
        let mut left = self.unary()?;
        while self.match_types(&[TokenType::Slash, TokenType::Star])
            invariant
                Self::parsed(old(self), self, Some(left)),
                binds_at_least(arena_nodes(self.arena), Some(left), 7),
            decreases self.tokens@.len() - self.current,
        {
            let ghost pos = self.current - 1;
            let op = self.previous().duplicate();
            let right = self.unary()?;
            let ghost mid = *self;
            let made = self.op_node(NodeType::Binary, op, vec![Some(left), Some(right)], Ghost(pos));
            proof {
                Self::lemma_grows_through_op(old(self), &mid, self, pos, made);
            }
            left = made?;
        }
        Some(left)
    }

    fn unary(&mut self) -> (r: Option<NodeId>)
        requires
            old(self).wf(),
        ensures
            Self::parsed(old(self), final(self), r),
            r is None ==> final(self).error_flag(),
            binds_at_least(arena_nodes(final(self).arena), r, 8),
        decreases old(self).tokens@.len() - old(self).current, 19nat,
    {
        if self.match_types(&[TokenType::Bang, TokenType::Minus, TokenType::At]) {
            let ghost pos = self.current - 1;
            let op = self.previous().duplicate();
            let right = self.unary();
            if op.token_type == TokenType::At {
                return self.node(NodeType::AddressOf, op, Value::Null, vec![right], None);
            }
            let ghost mid = *self;
            let made = self.op_node(NodeType::Unary, op, vec![right], Ghost(pos));
            proof {
                Self::lemma_grows_through_op(old(self), &mid, self, pos, made);
            }
            return made;
        }
        self.call()
    }

    fn call(&mut self) -> (r: Option<NodeId>)
        requires
            old(self).wf(),
        ensures
            Self::parsed(old(self), final(self), r),
            r is None ==> final(self).error_flag(),
            binds_at_least(arena_nodes(final(self).arena), r, 9),
        decreases old(self).tokens@.len() - old(self).current, 18nat,
    {
        let mut expr = self.primary()?;
        let mut done = false;
        while !done
            invariant
                Self::parsed(old(self), self, Some(expr)),
                binds_at_least(arena_nodes(self.arena), Some(expr), 9),
            decreases self.tokens@.len() - self.current + (if done { 0int } else { 1int }),
        {
            if self.match_types(&[TokenType::LeftParen]) {
                expr = self.finish_call(expr)?;
            } else if self.match_types(&[TokenType::LeftBracket]) {
                expr = self.finish_index(expr)?;
            } else if self.match_types(&[TokenType::Dot]) {
                let name = self.consume(TokenType::Identifier, "Expect property name after '.'.")?;
                expr = self.node(NodeType::GetField, name, Value::Null, vec![Some(expr)], None)?;
            } else if self.match_types(&[TokenType::At]) {
                let op = self.previous().duplicate();
                expr = self.node(NodeType::Dereference, op, Value::Null, vec![Some(expr)], None)?;
            } else {
                done = true;
            }
        }
        Some(expr)
    }

    fn finish_call(&mut self, callee: NodeId) -> (r: Option<NodeId>)
        requires
            old(self).wf(),
            old(self).current > 0,
            callee.0 < old(self).node_count(),
            binds_at_least(arena_nodes(old(self).arena), Some(callee), 9),
        ensures
            Self::parsed(old(self), final(self), r),
            r is None ==> final(self).error_flag(),
            r matches Some(id) ==> final(self).node_at(id).node_type == NodeType::Call,
            binds_at_least(arena_nodes(final(self).arena), r, 9),
        decreases old(self).tokens@.len() - old(self).current, 28nat,
    {
        let mut arguments: Vec<Option<NodeId>> = vec![Some(callee)];
        if !self.check(TokenType::RightParen) {
            let mut more = true;
            while more
                invariant
                    Self::grows(old(self), self),
                    children_ok(arguments@, self.node_count()),
                    self.current > 0,
                    arguments@.len() > 0,
                    arguments@[0] == Some(callee),
                    binds_at_least(arena_nodes(self.arena), Some(callee), 9),
                decreases self.tokens@.len() - self.current + (if more { 1int } else { 0int }),
            {
                if arguments.len() > 255 {
                    self.error_at_peek("Can't have more than 255 arguments.");
                }
                let ghost before = self.current;
                let arg = self.expression();
                arguments.push(arg);
                more = self.match_types(&[TokenType::Comma]);
            }
        }
        let paren = self.consume(TokenType::RightParen, "Expect ')' after arguments.")?;
        self.node(NodeType::Call, paren, Value::Null, arguments, None)
    }

    fn finish_index(&mut self, callee: NodeId) -> (r: Option<NodeId>)
        requires
            old(self).wf(),
            callee.0 < old(self).node_count(),
            binds_at_least(arena_nodes(old(self).arena), Some(callee), 9),
        ensures
            Self::parsed(old(self), final(self), r),
            r is None ==> final(self).error_flag(),
            r matches Some(id) ==> final(self).node_at(id).node_type == NodeType::IndexGet,
            binds_at_least(arena_nodes(final(self).arena), r, 9),
        decreases old(self).tokens@.len() - old(self).current, 28nat,
    {
        let index = self.expression();
        let bracket = self.consume(TokenType::RightBracket, "Expect ']' after index.")?;
        self.node(NodeType::IndexGet, bracket, Value::Null, vec![Some(callee), index], None)
    }

    fn array(&mut self) -> (r: Option<NodeId>)
        requires
            old(self).wf(),
            old(self).current > 0,
        ensures
            Self::parsed(old(self), final(self), r),
            r is None ==> final(self).error_flag(),
            r matches Some(id) ==> final(self).node_at(id).node_type == NodeType::Array,
            binds_at_least(arena_nodes(final(self).arena), r, 9),
        decreases old(self).tokens@.len() - old(self).current, 28nat,
    {
        let bracket = self.previous().duplicate();
        let mut elements: Vec<Option<NodeId>> = Vec::new();
        if !self.check(TokenType::RightBracket) {
            let mut more = true;
            while more
                invariant
                    Self::grows(old(self), self),
                    children_ok(elements@, self.node_count()),
                decreases self.tokens@.len() - self.current + (if more { 1int } else { 0int }),
            {
                let e = self.expression();
                elements.push(e);
                more = self.match_types(&[TokenType::Comma]);
            }
        }
        self.consume(TokenType::RightBracket, "Expect ']' after array elements.")?;
        self.node(NodeType::Array, bracket, Value::Null, elements, None)
    }

    #[verifier::rlimit(40)]
    fn primary(&mut self) -> (r: Option<NodeId>)
        requires
            old(self).wf(),
        ensures
            Self::parsed(old(self), final(self), r),
            r is None ==> final(self).error_flag(),
            binds_at_least(arena_nodes(final(self).arena), r, 9),
            literal_token_value(old(self).tokens@[old(self).current as int]) matches Some(v) ==> {
                &&& r is Some <==> old(self).node_count() < usize::MAX - 1
                &&& r matches Some(id) ==> {
                    &&& final(self).node_at(id).node_type == NodeType::Literal
                    &&& final(self).node_at(id).token == old(self).tokens@[old(self).current as int]
                    &&& final(self).node_at(id).value == v
                    &&& final(self).node_at(id).children@.len() == 0
                    &&& final(self).current == old(self).current + 1
                }
            },
            (old(self).tokens@[old(self).current as int].token_type == TokenType::Identifier && !(old(self).current + 1
                < old(self).tokens@.len() && old(self).tokens@[old(self).current + 1].token_type == TokenType::LeftBrace))
                ==> {
                &&& r is Some <==> old(self).node_count() < usize::MAX - 1
                &&& r matches Some(id) ==> {
                    &&& final(self).node_at(id).node_type == NodeType::VarExpr
                    &&& final(self).node_at(id).token == old(self).tokens@[old(self).current as int]
                    &&& final(self).node_at(id).children@.len() == 0
                    &&& final(self).current == old(self).current + 1
                }
            },
            (old(self).tokens@[old(self).current as int].token_type == TokenType::Identifier && old(self).current + 1
                < old(self).tokens@.len() && old(self).tokens@[old(self).current + 1].token_type == TokenType::LeftBrace)
                ==> (r matches Some(id) ==> final(self).node_at(id).node_type == NodeType::StructInit
                && final(self).node_at(id).token == old(self).tokens@[old(self).current as int] && field_inits_shape(
                arena_nodes(final(self).arena),
                final(self).node_at(id).children@,
            ) && exists|ps: Seq<int>|
                #[trigger] field_inits_at(
                    arena_nodes(final(self).arena),
                    final(self).node_at(id).children@,
                    old(self).tokens@,
                    ps,
                    old(self).current + 2,
                    final(self).current as int,
                    old(self).node_count() as int,
                )),
            old(self).tokens@[old(self).current as int].token_type == TokenType::LeftParen ==> (r matches Some(id)
                ==> final(self).node_at(id).node_type == NodeType::Grouping && final(self).node_at(id).children@.len()
                == 1),
            old(self).tokens@[old(self).current as int].token_type == TokenType::LeftBracket ==> (r matches Some(id)
                ==> final(self).node_at(id).node_type == NodeType::Array),
            old(self).tokens@[old(self).current as int].token_type == TokenType::New ==> (r matches Some(id) ==> (
            final(self).node_at(id).node_type == NodeType::ExprNew || final(self).node_at(id).node_type
                == NodeType::Call || final(self).node_at(id).node_type == NodeType::Literal)),
            !starts_expression(old(self).tokens@[old(self).current as int].token_type) ==> r is None
                && final(self).error_flag() && final(self).current == old(self).current && final(self).node_count()
                == old(self).node_count() && final(self).diags() == old(self).diags().push(
                parse_diagnostic(old(self).source_name@, old(self).tokens@[old(self).current as int], "Expect expression."@),
            ),
        decreases old(self).tokens@.len() - old(self).current, 17nat,
    {
        if self.match_types(&[TokenType::New]) {
            let struct_name = self.consume(TokenType::Identifier, "Expect struct name after 'new'.")?;
            self.consume(TokenType::LeftParen, "Expect '(' after struct name.")?;
            let mut args: Vec<Option<NodeId>> = Vec::new();
            if !self.check(TokenType::RightParen) {
                let mut more = true;
                while more
                    invariant
                        Self::grows(old(self), self),
                        children_ok(args@, self.node_count()),
                        self.current > old(self).current,
                        old(self).tokens@[old(self).current as int].token_type == TokenType::New,
                    decreases self.tokens@.len() - self.current + (if more { 1int } else { 0int }),
                {
                    let a = self.expression()?;
                    args.push(Some(a));
                    more = self.match_types(&[TokenType::Comma]);
                }
            }
            self.consume(TokenType::RightParen, "Expect ')' after arguments.")?;
            if let Some(desugared) = self.try_desugar_builtin_new(&struct_name, &args) {
                return Some(desugared);
            }
            return self.node(NodeType::ExprNew, struct_name, Value::Null, args, None);
        }
        if self.match_types(&[TokenType::False]) {
            let prev = self.previous().duplicate();
            return self.node(NodeType::Literal, prev, Value::Bool(false), Vec::new(), None);
        }
        if self.match_types(&[TokenType::True]) {
            let prev = self.previous().duplicate();
            return self.node(NodeType::Literal, prev, Value::Bool(true), Vec::new(), None);
        }
        if self.match_types(&[TokenType::Null]) {
            let prev = self.previous().duplicate();
            return self.node(NodeType::Literal, prev, Value::Null, Vec::new(), None);
        }
        if self.match_types(&[TokenType::Int, TokenType::Float, TokenType::Str]) {
            let prev = self.previous().duplicate();
            let val = prev.literal.duplicate();
            return self.node(NodeType::Literal, prev, val, Vec::new(), None);
        }
        if self.match_types(&[TokenType::LeftBracket]) {
            return self.array();
        }
        if self.match_types(&[TokenType::LeftParen]) {
            let expr = self.expression();
            self.consume(TokenType::RightParen, "Expect ')' after expression.")?;
            let prev = self.previous().duplicate();
            return self.node(NodeType::Grouping, prev, Value::Null, vec![expr], None);
        }
        if self.match_types(&[TokenType::Identifier]) {
            let prev = self.previous().duplicate();
            if self.match_types(&[TokenType::LeftBrace]) {
                let mut field_inits: Vec<Option<NodeId>> = Vec::new();
                let ghost mut ps: Seq<int> = Seq::empty();
                let ghost start = self.current as int;
                let ghost first = old(self).node_count() as int;
                let mut more = true;
                while more && !self.check(TokenType::RightBrace) && !self.is_at_end()
                    invariant
                        Self::grows(old(self), self),
                        children_ok(field_inits@, self.node_count()),
                        self.current > 0,
                        old(self).tokens@[old(self).current as int].token_type == TokenType::Identifier,
                        old(self).current + 1 < old(self).tokens@.len() && old(self).tokens@[old(self).current
                            + 1].token_type == TokenType::LeftBrace,
                        field_inits_shape(arena_nodes(self.arena), field_inits@),
                        start == old(self).current + 2,
                        first == old(self).node_count(),
                        self.current >= start,
                        ps.len() == 0 ==> self.current == start,
                        self.tokens == old(self).tokens,
                        field_inits_at(arena_nodes(self.arena), field_inits@, self.tokens@, ps, start, self.current as int, first),
                    decreases self.tokens@.len() - self.current + (if more { 1int } else { 0int }),
                {
                    let ghost p = self.current as int;
                    let ghost before = arena_nodes(self.arena);
                    let ghost cs_before = field_inits@;
                    let field_name = self.consume(TokenType::Identifier, "Expect field name.")?;
                    self.consume(TokenType::Colon, "Expect ':' after field name.")?;
                    let ghost nc = self.node_count();
                    let expr = self.expression();
                    let ghost e = expr;
                    let kids = vec![expr];
                    let field_node = self.node(NodeType::Assign, field_name, Value::Null, kids, None)?;
                    proof {
                        let after = arena_nodes(self.arena);
                        assert(forall|i: int| 0 <= i < before.len() ==> after[i] == before[i]);
                        assert(after[field_node.0 as int].children@ == seq![e]);
                    }
                    field_inits.push(Some(field_node));
                    proof {
                        let ps0 = ps;
                        ps = ps.push(p);
                        let after = arena_nodes(self.arena);
                        assert(after[field_node.0 as int].token == self.tokens@[p]);
                        assert forall|k: int| 0 <= k < field_inits@.len() implies match #[trigger] field_inits@[k] {
                            Some(f) => {
                                &&& f.0 < after.len()
                                &&& after[f.0 as int].node_type == NodeType::Assign
                                &&& after[f.0 as int].token == self.tokens@[ps[k]]
                                &&& self.tokens@[ps[k]].token_type == TokenType::Identifier
                                &&& self.tokens@[ps[k] + 1].token_type == TokenType::Colon
                                &&& after[f.0 as int].children@.len() == 1
                                &&& first <= f.0
                                &&& after[f.0 as int].children@[0] matches Some(e) ==> first <= e.0 < f.0
                            },
                            None => false,
                        } by {
                            if k < ps0.len() {
                                assert(field_inits@[k] == cs_before[k]);
                            }
                        }
                    }
                    more = self.match_types(&[TokenType::Comma]);
                }
                let ghost end0 = self.current as int;
                self.consume(TokenType::RightBrace, "Expect '}' after struct initialization.")?;
                let ghost cs = field_inits@;
                let ghost before = arena_nodes(self.arena);
                let r = self.node(NodeType::StructInit, prev, Value::Null, field_inits, None);
                proof {
                    if let Some(id) = r {
                        let after = arena_nodes(self.arena);
                        assert(forall|i: int| 0 <= i < before.len() ==> after[i] == before[i]);
                        assert(field_inits_at(before, cs, self.tokens@, ps, start, end0, first));
                        assert(field_inits_at(after, cs, self.tokens@, ps, start, self.current as int, first));
                        assert(after[id.0 as int].children@ == cs);
                    }
                }
                return r;
            }
            return self.node(NodeType::VarExpr, prev, Value::Null, Vec::new(), None);
        }
        let ghost d0 = self.diags();
        self.error_at_peek("Expect expression.");
        proof {
            assert(self.diags() == d0.push(parse_diagnostic(old(self).source_name@, old(self).tokens@[old(self).current as int], "Expect expression."@)));
        }
        None
    }

    fn try_desugar_builtin_new(&mut self, struct_name: &Token, args: &Vec<Option<NodeId>>) -> (r: Option<NodeId>)
        requires
            old(self).wf(),
            children_ok(args@, old(self).node_count()),
        ensures
            Self::grows(old(self), final(self)),
            final(self).result_ok(r),
            final(self).current == old(self).current,
            final(self).sources == old(self).sources,
            binds_at_least(arena_nodes(final(self).arena), r, 9),
            builtin_arity(struct_name.lexeme@) is None ==> r is None && *final(self) == *old(self),
            r matches Some(id) ==> id.0 >= old(self).node_count(),
            builtin_arity(struct_name.lexeme@) is Some ==> r is Some || final(self).error_flag(),
            r matches Some(id) ==> (final(self).node_at(id).node_type == NodeType::Call && args@.len()
                == builtin_arity(struct_name.lexeme@)->0) || (final(self).node_at(id).node_type == NodeType::Literal
                && final(self).error_flag() && args@.len() != builtin_arity(struct_name.lexeme@)->0),
    {
        let name = struct_name.lexeme.as_str();
        let (mapped_fn, expected_arity): (&str, usize) = if str_eq(name, "String") {
            ("string_from", 1)
        } else if str_eq(name, "IntVec") {
            ("int_vec_new", 0)
        } else if str_eq(name, "StrVec") {
            ("str_vec_new", 0)
        } else if str_eq(name, "StrIntMap") {
            ("str_int_map_new", 0)
        } else if str_eq(name, "StrStrMap") {
            ("str_str_map_new", 0)
        } else {
            return None;
        };
        if args.len() != expected_arity {
            let mut msg = String::new();
            push_str(&mut msg, "'new ");
            push_str(&mut msg, name);
            push_str(&mut msg, "' expects ");
            push_decimal(&mut msg, expected_arity);
            push_str(&mut msg, " arguments but got ");
            push_decimal(&mut msg, args.len());
            push_str(&mut msg, ".");
            self.error_at(struct_name, msg.as_str());
            let null_tok = Token::synthetic(TokenType::Null, "null", struct_name.line);
            return self.node(NodeType::Literal, null_tok, Value::Null, Vec::new(), None);
        }
        let fn_tok = Token::synthetic(TokenType::Identifier, mapped_fn, struct_name.line);
        let callee = self.node(NodeType::VarExpr, fn_tok, Value::Null, Vec::new(), None)?;
        let mut call_args: Vec<Option<NodeId>> = vec![Some(callee)];
        let mut i: usize = 0;
        while i < args.len()
            invariant
                i <= args@.len(),
                children_ok(args@, self.node_count()),
                children_ok(call_args@, self.node_count()),
                call_args@.len() > 0,
                call_args@[0] == Some(callee),
                binds_at_least(arena_nodes(self.arena), Some(callee), 9),
            decreases args@.len() - i,
        {
            call_args.push(args[i]);
            i = i + 1;
        }
        self.node(NodeType::Call, struct_name.duplicate(), Value::Null, call_args, None)
    }
}

} // verus!

verus! {

impl Parser {
    /// Reads a type annotation: `@`s for pointers around either a function
    /// type `fn(T, ...): T` or a type name.
    fn parse_type_annotation(&mut self) -> (r: Option<CiprType>)
        requires
            old(self).wf(),
        ensures
            Self::grows(old(self), final(self)),
            r is None ==> final(self).error_flag(),
            final(self).arena == old(self).arena,
            final(self).sources == old(self).sources,
            r is Some ==> final(self).current > old(self).current,
        decreases old(self).tokens@.len() - old(self).current,
    {
        let mut pointer_depth: usize = 0;
        while self.match_types(&[TokenType::At])
            invariant
                Self::grows(old(self), self),
                self.arena == old(self).arena,
                self.sources == old(self).sources,
                pointer_depth <= self.current - old(self).current,
            decreases self.tokens@.len() - self.current,
        {
            pointer_depth = pointer_depth + 1;
        }
        let mut core = if self.match_types(&[TokenType::Fn]) {
            self.consume(TokenType::LeftParen, "Expect '(' after 'fn' in function type.")?;
            let mut params: Vec<CiprType> = Vec::new();
            if !self.check(TokenType::RightParen) {
                let mut more = true;
                while more
                    invariant
                        Self::grows(old(self), self),
                        self.arena == old(self).arena,
                        self.sources == old(self).sources,
                        self.current > old(self).current,
                    decreases self.tokens@.len() - self.current + (if more { 1int } else { 0int }),
                {
                    let p = self.parse_type_annotation()?;
                    params.push(p);
                    more = self.match_types(&[TokenType::Comma]);
                }
            }
            self.consume(TokenType::RightParen, "Expect ')' after function type parameters.")?;
            self.consume(TokenType::Colon, "Expect ':' before function type return.")?;
            let ret = self.parse_type_annotation()?;
            CiprType::Callable(params, Box::new(ret))
        } else {
            let type_token = self.consume(TokenType::Identifier, "Expect type name.")?;
            type_syntax::parse_named_type(type_token.lexeme.as_str())
        };
        let mut i: usize = 0;
        while i < pointer_depth
            invariant
                i <= pointer_depth,
            decreases pointer_depth - i,
        {
            core = CiprType::Pointer(Box::new(core));
            i = i + 1;
        }
        Some(core)
    }

    /// Marks `path` as included; false where it already was.
    fn visit(&mut self, path: &String) -> (r: bool)
        ensures
            *final(self) == (Parser { visited_files: final(self).visited_files, ..*old(self) }),
            r == !exists|k: int| 0 <= k < old(self).visited_files@.len() && (#[trigger] old(self).visited_files@[k])@
                == path@,
            r ==> final(self).visited_files@.len() == old(self).visited_files@.len() + 1
                && final(self).visited_files@.last()@ == path@ && final(self).visited_files@.drop_last()
                == old(self).visited_files@,
            !r ==> final(self).visited_files == old(self).visited_files,
    {
        let mut i: usize = 0;
        while i < self.visited_files.len()
            invariant
                *self == *old(self),
                i <= self.visited_files@.len(),
                forall|k: int| 0 <= k < i ==> (#[trigger] self.visited_files@[k])@ != path@,
            decreases self.visited_files@.len() - i,
        {
            if str_eq(self.visited_files[i].as_str(), path.as_str()) {
                return false;
            }
            i = i + 1;
        }
        let copy = path.clone();
        assert(copy@ == path@);
        self.visited_files.push(copy);
        assert(self.visited_files@.drop_last() =~= old(self).visited_files@);
        true
    }

    /// Takes the text of the file at `path` out of the files that `include`
    /// can read.
    fn take_source(&mut self, path: &String) -> (r: Option<String>)
        ensures
            *final(self) == (Parser { sources: final(self).sources, ..*old(self) }),
            r is Some ==> final(self).sources@.len() == old(self).sources@.len() - 1,
            r is None ==> final(self).sources == old(self).sources,
            r is None <==> forall|k: int| 0 <= k < old(self).sources@.len() ==> (#[trigger] old(self).sources@[k]).path@
                != path@,
            r matches Some(text) ==> exists|k: int| 0 <= k < old(self).sources@.len() && (#[trigger] old(self).sources@[k]).path@
                == path@ && text == old(self).sources@[k].text && final(self).sources@ == old(self).sources@.remove(k),
    {
        let mut i: usize = 0;
        while i < self.sources.len()
            invariant
                *self == *old(self),
                i <= self.sources@.len(),
                forall|k: int| 0 <= k < i ==> (#[trigger] self.sources@[k]).path@ != path@,
            decreases self.sources@.len() - i,
        {
            if str_eq(self.sources[i].path.as_str(), path.as_str()) {
                let entry = self.sources.remove(i);
                return Some(entry.text);
            }
            i = i + 1;
        }
        None
    }

    /// Concatenates three pieces of text.
    fn message3(a: &str, b: &str, c: &str) -> (s: String)
        ensures
            s@ == a@ + b@ + c@,
    {
        let mut s = String::new();
        push_str(&mut s, a);
        push_str(&mut s, b);
        push_str(&mut s, c);
        s
    }
}

} // verus!

verus! {

impl Parser {
    /// Parses the whole token list into a statement list.
    ///
    /// Nodes already in the arena stay as they were, and every node that the
    /// parse adds respects the precedence and left grouping of the operators.
    pub fn parse(&mut self) -> (r: Option<NodeId>)
        requires
            old(self).wf(),
        ensures
            Self::grows(old(self), final(self)),
            final(self).wf(),
            final(self).result_ok(r),
            final(self).at_end(),
            extends(arena_nodes(old(self).arena_of()), arena_nodes(final(self).arena_of())),
            precedence_from(arena_nodes(final(self).arena_of()), old(self).node_count() as int),
            r is None ==> final(self).error_flag(),
            r is None ==> final(self).node_count() >= usize::MAX - 1,
            r matches Some(id) ==> final(self).node_at(id).node_type == NodeType::StmtList,
            final(self).error_flag() == (old(self).error_flag() || final(self).diags().len() > old(self).diags().len()),
            no_type_phase(old(self).diags()) ==> no_type_phase(final(self).diags()),
            r matches Some(id) ==> (final(self).node_at(id).children@.len() == 0 <==> old(self).at_end()),
            r matches Some(id) ==> declarations_in_order(final(self).node_at(id).children@, old(self).node_count() as int, id.0 as int),
            final(self).tokens_view() == old(self).tokens_view(),
            forall|i: int|
                old(self).node_count() <= i < final(self).node_count() && is_operator_node(
                    #[trigger] arena_nodes(final(self).arena_of())[i].node_type,
                ) && !final(self).included_node(i) ==> (final(self).op_position(i) matches Some(p) && old(self).position()
                    <= p < final(self).position() && final(self).tokens_view()[p] == arena_nodes(
                    final(self).arena_of(),
                )[i].token),
            forall|i: int, j: int|
                i != j && #[trigger] final(self).op_position(i) is Some && #[trigger] final(self).op_position(j) is Some
                    ==> final(self).op_position(i) != final(self).op_position(j),
        decreases old(self).sources_left(), old(self).remaining(), 40nat,
    {
        let mut statements: Vec<Option<NodeId>> = Vec::new();
        while !self.is_at_end()
            invariant
                Self::grows(old(self), self),
                children_ok(statements@, self.node_count()),
                (statements@.len() == 0) == (self.current == old(self).current),
                old(self).at_end() ==> statements@.len() == 0,
                declarations_in_order(statements@, old(self).node_count() as int, self.node_count() as int),
            decreases self.tokens@.len() - self.current,
        {
            let d = self.declaration();
            statements.push(d);
        }
        let prev = if self.current > 0 {
            self.previous().duplicate()
        } else {
            self.peek().duplicate()
        };
        self.node(NodeType::StmtList, prev, Value::Null, statements, None)
    }

    fn declaration(&mut self) -> (r: Option<NodeId>)
        requires
            old(self).wf(),
            !old(self).at_end(),
        ensures
            Self::parsed(old(self), final(self), r),
            final(self).current > old(self).current,
        decreases old(self).sources_left(), old(self).remaining(), 30nat,
    {
        let result = if self.match_types(&[TokenType::Struct]) {
            self.struct_declaration()
        } else if self.match_types(&[TokenType::Fn]) {
            self.function("function")
        } else if self.match_types(&[TokenType::Let]) {
            self.var_declaration()
        } else if self.match_types(&[TokenType::Extern]) {
            self.extern_declaration()
        } else if self.match_types(&[TokenType::Include]) {
            self.include_declaration()
        } else {
            self.statement()
        };
        match result {
            Some(id) => Some(id),
            None => {
                self.synchronize();
                None
            },
        }
    }

    fn var_declaration(&mut self) -> (r: Option<NodeId>)
        requires
            old(self).wf(),
        ensures
            Self::parsed(old(self), final(self), r),
            r is None ==> final(self).error_flag(),
            r matches Some(id) ==> final(self).node_at(id).node_type == NodeType::StmtVarDecl,
            r matches Some(id) ==> final(self).node_at(id).token == old(self).tokens@[old(self).current as int]
                && final(self).current > 0 && final(self).tokens@[final(self).current - 1].token_type == TokenType::Semicolon,
    {
        let name = self.consume(TokenType::Identifier, "Expect variable name.")?;
        let mut type_annotation = None;
        if self.match_types(&[TokenType::Colon]) {
            type_annotation = self.parse_type_annotation();
        }
        let initializer = if self.match_types(&[TokenType::Equal]) {
            self.expression()
        } else {
            None
        };
        self.consume(TokenType::Semicolon, "Expected ';' after declaration")?;
        self.node(NodeType::StmtVarDecl, name, Value::Null, vec![initializer], type_annotation)
    }

    fn struct_declaration(&mut self) -> (r: Option<NodeId>)
        requires
            old(self).wf(),
        ensures
            Self::parsed(old(self), final(self), r),
            r is None ==> final(self).error_flag(),
            r matches Some(id) ==> final(self).node_at(id).node_type == NodeType::StmtStructDecl,
    {
        let name = self.consume(TokenType::Identifier, "Expect struct name.")?;
        self.consume(TokenType::LeftBrace, "Expect '{' before struct body.")?;
        let mut fields: Vec<Option<NodeId>> = Vec::new();
        let mut more = true;
        while more && !self.check(TokenType::RightBrace) && !self.is_at_end()
            invariant
                Self::grows(old(self), self),
                children_ok(fields@, self.node_count()),
                self.current > old(self).current,
            decreases self.tokens@.len() - self.current + (if more { 1int } else { 0int }),
        {
            let field_name = self.consume(TokenType::Identifier, "Expect field name.")?;
            self.consume(TokenType::Colon, "Expect ':' after field name.")?;
            let field_type = self.parse_type_annotation();
            let field_node = self.node(NodeType::VarExpr, field_name, Value::Null, Vec::new(), field_type)?;
            fields.push(Some(field_node));
            more = self.match_types(&[TokenType::Comma]);
        }
        self.consume(TokenType::RightBrace, "Expect '}' after struct body.")?;
        self.node(NodeType::StmtStructDecl, name, Value::Null, fields, None)
    }

    /// Reads a comma-separated list of parameters `name` or `name: type`,
    /// up to the closing parenthesis.
    fn parameters(&mut self, limit_arity: bool) -> (r: Option<Vec<Option<NodeId>>>)
        requires
            old(self).wf(),
        ensures
            Self::grows(old(self), final(self)),
            r is None ==> final(self).error_flag(),
            r matches Some(ps) ==> children_ok(ps@, final(self).node_count()),
    {
        let mut parameters: Vec<Option<NodeId>> = Vec::new();
        if !self.check(TokenType::RightParen) {
            let mut more = true;
            while more
                invariant
                    Self::grows(old(self), self),
                        children_ok(parameters@, self.node_count()),
                decreases self.tokens@.len() - self.current + (if more { 1int } else { 0int }),
            {
                if limit_arity && parameters.len() >= 255 {
                    self.error_at_peek("Can't have more than 255 parameters.");
                }
                let param_name = self.consume(TokenType::Identifier, "Expect parameter name.")?;
                let mut type_annotation = None;
                if self.match_types(&[TokenType::Colon]) {
                    type_annotation = self.parse_type_annotation();
                }
                let param_node = self.node(NodeType::VarExpr, param_name, Value::Null, Vec::new(), type_annotation)?;
                parameters.push(Some(param_node));
                more = self.match_types(&[TokenType::Comma]);
            }
        }
        Some(parameters)
    }

    fn function(&mut self, kind: &str) -> (r: Option<NodeId>)
        requires
            old(self).wf(),
            old(self).current > 0,
        ensures
            Self::parsed(old(self), final(self), r),
            r is None ==> final(self).error_flag(),
            r matches Some(id) ==> final(self).node_at(id).node_type == NodeType::StmtFunction,
        decreases old(self).sources_left(), old(self).remaining(), 1nat,
    {
        let m = Self::message3("Expect ", kind, " name.");
        let name = self.consume(TokenType::Identifier, m.as_str())?;
        let m = Self::message3("Expect '(' after ", kind, " name.");
        self.consume(TokenType::LeftParen, m.as_str())?;
        let mut parameters = self.parameters(true)?;
        self.consume(TokenType::RightParen, "Expect ')' after parameters.")?;
        let mut return_type = None;
        if self.match_types(&[TokenType::Colon]) {
            return_type = self.parse_type_annotation();
        }
        let m = Self::message3("Expect '{' before ", kind, " body.");
        self.consume(TokenType::LeftBrace, m.as_str())?;
        let body_stmts = self.block()?;
        let prev = self.previous().duplicate();
        let body_node = self.node(NodeType::StmtBlock, prev, Value::Null, body_stmts, None)?;
        parameters.push(Some(body_node));
        self.node(NodeType::StmtFunction, name, Value::Null, parameters, return_type)
    }

    fn extern_declaration(&mut self) -> (r: Option<NodeId>)
        requires
            old(self).wf(),
        ensures
            Self::parsed(old(self), final(self), r),
            r is None ==> final(self).error_flag(),
            r matches Some(id) ==> final(self).node_at(id).node_type == NodeType::StmtExternFn,
    {
        self.consume(TokenType::Fn, "Expect 'fn' after 'extern'.")?;
        let name = self.consume(TokenType::Identifier, "Expect extern function name.")?;
        self.consume(TokenType::LeftParen, "Expect '(' after extern function name.")?;
        let parameters = self.parameters(false)?;
        self.consume(TokenType::RightParen, "Expect ')' after parameters.")?;
        let mut return_type = None;
        if self.match_types(&[TokenType::Colon]) {
            return_type = self.parse_type_annotation();
        }
        self.consume(TokenType::Semicolon, "Expect ';' after extern declaration.")?;
        self.node(NodeType::StmtExternFn, name, Value::Null, parameters, return_type)
    }

    fn include_declaration(&mut self) -> (r: Option<NodeId>)
        requires
            old(self).wf(),
        ensures
            Self::parsed(old(self), final(self), r),
            r is None ==> final(self).error_flag() || !str_literals_ok(old(self).tokens@),
            r matches Some(id) ==> final(self).node_at(id).node_type == NodeType::StmtInclude,
            (old(self).current + 1 < old(self).tokens@.len() && old(self).tokens@[old(self).current as int].token_type
                == TokenType::Str && old(self).tokens@[old(self).current + 1].token_type == TokenType::Semicolon)
                ==> (old(self).tokens@[old(self).current as int].literal matches Value::Str(p) ==> {
                &&& visited_has(old(self).visited_files@, p@) ==> {
                    &&& r is Some <==> old(self).node_count() < usize::MAX - 1
                    &&& r matches Some(id) ==> final(self).node_at(id).children@.len() == 0 && final(self).diags()
                        == old(self).diags() && final(self).error_flag() == old(self).error_flag()
                }
                &&& (!visited_has(old(self).visited_files@, p@) && forall|k: int|
                    0 <= k < old(self).sources@.len() ==> (#[trigger] old(self).sources@[k]).path@ != p@) ==> {
                    &&& final(self).error_flag()
                    &&& final(self).diags().len() > old(self).diags().len()
                    &&& final(self).diags()[old(self).diags().len() as int] == parse_diagnostic(
                        old(self).source_name@,
                        old(self).tokens@[old(self).current as int],
                        "Could not read included file '"@ + p@ + "'."@,
                    )
                    &&& r is Some <==> old(self).node_count() < usize::MAX - 1
                    &&& r matches Some(id) ==> final(self).node_at(id).children@.len() == 0
                }
            }),
        decreases old(self).sources_left(), old(self).remaining(), 1nat,
    {
        let path = self.consume(TokenType::Str, "Expect string path after 'include'.")?;
        self.consume(TokenType::Semicolon, "Expect ';' after include statement.")?;
        let path_str = match &path.literal {
            Value::Str(s) => s.clone(),
            _ => {
                return None;
            },
        };
        let mut children: Vec<Option<NodeId>> = Vec::new();
        if self.visit(&path_str) {
            match self.take_source(&path_str) {
                Some(source) => {
                    let n = source.as_str().unicode_len();
                    if n == usize::MAX {
                        self.error_at(&path, "Included file is too large.");
                    } else {
                        let (tokens, scan_error, scan_diags) = Scanner::new_with_source(
                            source.as_str(),
                            path_str.as_str(),
                        ).scan_tokens_with_diagnostics();
                        let ghost before_scan = *self;
                        self.diagnostics.extend(scan_diags);
                        assert(Self::ops_grow(&before_scan, self));
                        proof {
                            crate::scanner::lemma_tokens_end_with_eof(tokens@, source@);
                        }
                        if scan_error {
                            self.error_at(&path, "Included file has scanner errors.");
                        } else {
                            let (root_id, sub_had_error) = self.parse_included(tokens, &path_str);
                            if sub_had_error {
                                self.error_at(&path, "Included file has parser errors.");
                            }
                            if let Some(id) = root_id {
                                children = copy_children(&self.arena.get(id).children);
                                proof {
                                    let nodes = arena_nodes(self.arena);
                                    assert forall|k: int| 0 <= k < children@.len() && (#[trigger] children@[k]) is Some implies child_index(children@[k]) < self.node_count() by {
                                        lemma_child_valid(nodes, id.0 as int, k);
                                    }
                                }
                            }
                        }
                    }
                },
                None => {
                    let m = Self::message3("Could not read included file '", path_str.as_str(), "'.");
                    assert(self.diags() == old(self).diags());
                    assert(path == old(self).tokens@[old(self).current as int]);
                    self.error_at(&path, m.as_str());
                    assert(self.diags()[old(self).diags().len() as int] == parse_diagnostic(
                        old(self).source_name@,
                        old(self).tokens@[old(self).current as int],
                        "Could not read included file '"@ + path_str@ + "'."@,
                    ));
                },
            }
        }
        assert(Self::grows_base(old(self), self));
        assert(Self::ops_grow(old(self), self));
        self.node(NodeType::StmtInclude, path.duplicate(), Value::Null, children, None)
    }

    /// Parses the tokens of an included file into this parser's arena; gives
    /// its statement list and whether the parse reported errors.
    fn parse_included(&mut self, tokens: Vec<Token>, path: &String) -> (r: (Option<NodeId>, bool))
        requires
            old(self).wf(),
            tokens_ok(tokens@),
        ensures
            Self::grows(old(self), final(self)),
            final(self).current == old(self).current,
            final(self).had_error == (old(self).had_error || r.1),
            r.0 matches Some(id) ==> id.0 < final(self).node_count(),
            r.0 matches Some(id) ==> final(self).node_at(id).node_type == NodeType::StmtList,
            r.0 is None ==> r.1,
            r.0 is None ==> final(self).node_count() >= usize::MAX - 1,
        decreases old(self).sources_left() + 1, 0int, 0nat,
    {
        let mut arena = NodeArena::new();
        core::mem::swap(&mut arena, &mut self.arena);
        let mut visited: Vec<String> = Vec::new();
        core::mem::swap(&mut visited, &mut self.visited_files);
        let mut sources: Vec<IncludeSource> = Vec::new();
        core::mem::swap(&mut sources, &mut self.sources);
        let mut sub = Parser::new_with_source(tokens, arena, visited, path.as_str(), sources);
        let root_id = sub.parse();
        proof {
            let before = arena_nodes(old(self).arena);
            let after = arena_nodes(sub.arena);
            lemma_precedence_from_extends(before, after, self.first_node@ as int);
            assert(precedence_from(after, before.len() as int));
            assert(precedence_from(after, self.first_node@ as int)) by {
                assert forall|i: int| 0 <= i && self.first_node@ <= i < after.len() implies #[trigger]
                    node_respects_precedence(after, i) by {
                    if i >= before.len() {
                        assert(node_respects_precedence(after, i));
                    }
                }
            }
        }
        let sub_had_error = sub.had_error;
        let ghost before_len = arena_nodes(old(self).arena).len() as int;
        let (arena, visited, sources, sub_diags) = sub.into_parts();
        let ghost after_len = arena_nodes(arena).len() as int;
        self.included = Ghost(self.included@.union(Set::new(|i: int| before_len <= i < after_len)));
        self.arena = arena;
        self.visited_files = visited;
        self.sources = sources;
        self.diagnostics.extend(sub_diags);
        if sub_had_error {
            self.had_error = true;
        }
        (root_id, sub_had_error)
    }

    fn statement(&mut self) -> (r: Option<NodeId>)
        requires
            old(self).wf(),
        ensures
            Self::parsed(old(self), final(self), r),
            r is None ==> final(self).error_flag(),
        decreases old(self).sources_left(), old(self).remaining(), 29nat,
    {
        if self.match_types(&[TokenType::If]) {
            return self.if_statement();
        }
        if self.match_types(&[TokenType::While]) {
            return self.while_statement();
        }
        if self.match_types(&[TokenType::For]) {
            return self.for_statement();
        }
        if self.match_types(&[TokenType::Return]) {
            return self.return_statement();
        }
        if self.match_types(&[TokenType::Delete]) {
            return self.delete_statement();
        }
        if self.match_types(&[TokenType::LeftBrace]) {
            let statements = self.block()?;
            let prev = self.previous().duplicate();
            return self.node(NodeType::StmtBlock, prev, Value::Null, statements, None);
        }
        self.expression_statement()
    }

    fn expression_statement(&mut self) -> (r: Option<NodeId>)
        requires
            old(self).wf(),
        ensures
            Self::parsed(old(self), final(self), r),
            r is None ==> final(self).error_flag(),
            r matches Some(id) ==> final(self).node_at(id).node_type == NodeType::StmtExpr,
            r is Some ==> final(self).current > 0 && final(self).tokens@[final(self).current - 1].token_type
                == TokenType::Semicolon,
    {
        let expr = self.expression();
        self.consume(TokenType::Semicolon, "Expected ';' after value")?;
        let prev = self.previous().duplicate();
        self.node(NodeType::StmtExpr, prev, Value::Null, vec![expr], None)
    }

    fn delete_statement(&mut self) -> (r: Option<NodeId>)
        requires
            old(self).wf(),
            old(self).current > 0,
        ensures
            Self::parsed(old(self), final(self), r),
            r is None ==> final(self).error_flag(),
            r matches Some(id) ==> final(self).node_at(id).node_type == NodeType::StmtDelete,
    {
        let keyword = self.previous().duplicate();
        let value = self.expression()?;
        self.consume(TokenType::Semicolon, "Expected ';' after expression to delete.")?;
        self.node(NodeType::StmtDelete, keyword, Value::Null, vec![Some(value)], None)
    }

    fn if_statement(&mut self) -> (r: Option<NodeId>)
        requires
            old(self).wf(),
            old(self).current > 0,
        ensures
            Self::parsed(old(self), final(self), r),
            r is None ==> final(self).error_flag(),
            r matches Some(id) ==> final(self).node_at(id).node_type == NodeType::StmtIf,
        decreases old(self).sources_left(), old(self).remaining(), 2nat,
    {
        let condition = self.consume_condition("if")?;
        let then_branch = self.statement();
        let else_branch = if self.match_types(&[TokenType::Else]) {
            self.statement()
        } else {
            None
        };
        let prev = self.previous().duplicate();
        self.node(NodeType::StmtIf, prev, Value::Null, vec![Some(condition), then_branch, else_branch], None)
    }

    fn while_statement(&mut self) -> (r: Option<NodeId>)
        requires
            old(self).wf(),
            old(self).current > 0,
        ensures
            Self::parsed(old(self), final(self), r),
            r is None ==> final(self).error_flag(),
            r matches Some(id) ==> final(self).node_at(id).node_type == NodeType::StmtWhile,
        decreases old(self).sources_left(), old(self).remaining(), 2nat,
    {
        let condition = self.consume_condition("while")?;
        let body = self.statement();
        let prev = self.previous().duplicate();
        self.node(NodeType::StmtWhile, prev, Value::Null, vec![Some(condition), body], None)
    }

    #[verifier::rlimit(40)]
    fn for_statement(&mut self) -> (r: Option<NodeId>)
        requires
            old(self).wf(),
            old(self).current > 0,
        ensures
            Self::parsed(old(self), final(self), r),
            r is None ==> final(self).error_flag(),
            r matches Some(id) ==> (final(self).node_at(id).node_type == NodeType::StmtWhile || final(self).node_at(id).node_type
                == NodeType::StmtBlock),
            r matches Some(id) ==> exists|init: Option<NodeId>, cond: Option<NodeId>, incr: Option<NodeId>, body: Option<NodeId>|
                #[trigger] for_shape(arena_nodes(final(self).arena), id, init, cond, incr, body) && parsed_in_order(
                seq![init, cond, incr, body],
            ) && ((old(self).current + 1 < old(self).tokens@.len() && old(self).tokens@[old(self).current + 1].token_type
                == TokenType::Semicolon) ==> init is None) && exists|s1: int, s2: int, rp: int|
                #[trigger] for_clauses(
                    old(self).tokens@,
                    arena_nodes(final(self).arena),
                    old(self).current as int,
                    init,
                    cond,
                    incr,
                    s1,
                    s2,
                    rp,
                    final(self).error_flag(),
                ),
        decreases old(self).sources_left(), old(self).remaining(), 1nat,
    {
        let ghost open = self.current as int;
        self.consume(TokenType::LeftParen, "Expect '(' after 'for'.")?;
        let initializer = if self.match_types(&[TokenType::Semicolon]) {
            None
        } else if self.match_types(&[TokenType::Let]) {
            self.var_declaration()
        } else {
            self.expression_statement()
        };
        let ghost s1 = self.current - 1;
        let ghost n1 = self.node_count();
        let ghost mid1 = arena_nodes(self.arena);
        let condition_expr = if !self.check(TokenType::Semicolon) {
            self.expression()
        } else {
            None
        };
        let ghost s2 = self.current as int;
        self.consume(TokenType::Semicolon, "Expect ';' after loop condition")?;
        let ghost n2 = self.node_count();
        let increment = if !self.check(TokenType::RightParen) {
            self.expression()
        } else {
            None
        };
        let ghost rp = self.current as int;
        self.consume(TokenType::RightParen, "Expect ')' after for clauses.")?;
        let ghost n3 = self.node_count();
        let body = self.statement();
        let ghost (gi, gc, ge, gb) = (initializer, condition_expr, increment, body);
        proof {
            assert(gi matches Some(x) ==> x.0 < n1);
            assert(gc matches Some(x) ==> n1 <= x.0 < n2);
            assert(ge matches Some(x) ==> n2 <= x.0 < n3);
            assert(gb matches Some(x) ==> n3 <= x.0);
            assert(parsed_in_order(seq![gi, gc, ge, gb]));
        }
        let r = self.desugar_for(initializer, condition_expr, increment, body);
        proof {
            if let Some(id) = r {
                let fin = arena_nodes(self.arena);
                assert(for_shape(fin, id, gi, gc, ge, gb));
                if let Some(i) = gi {
                    assert(fin[i.0 as int] == mid1[i.0 as int]);
                }
                assert(for_clauses(self.tokens@, fin, open, gi, gc, ge, s1, s2, rp, self.error_flag()));
            }
        }
        r
    }

    /// Builds the nodes of `for (init; cond; incr) body`: the `while` loop
    /// of [`for_shape`], inside a block after `init` where there is one.
    fn desugar_for(
        &mut self,
        initializer: Option<NodeId>,
        condition_expr: Option<NodeId>,
        increment: Option<NodeId>,
        body: Option<NodeId>,
    ) -> (r: Option<NodeId>)
        requires
            old(self).wf(),
            old(self).current > 0,
            children_ok(seq![initializer, condition_expr, increment, body], old(self).node_count()),
        ensures
            Self::grows(old(self), final(self)),
            final(self).result_ok(r),
            final(self).current == old(self).current,
            r is None ==> final(self).error_flag(),
            r matches Some(id) ==> for_shape(arena_nodes(final(self).arena), id, initializer, condition_expr, increment, body),
            r matches Some(id) ==> id.0 >= old(self).node_count(),
    {
        let mut body = body;
        let ghost body0 = body;
        let ghost mut st_id = NodeId(0);
        if let Some(incr) = increment {
            let prev = self.previous().duplicate();
            let kids = vec![Some(incr)];
            assert(kids@ == seq![Some(incr)]);
            let incr_stmt = self.node(NodeType::StmtExpr, prev.duplicate(), Value::Null, kids, None)?;
            let ghost mid = arena_nodes(self.arena);
            let blk = self.node(NodeType::StmtBlock, prev, Value::Null, vec![body, Some(incr_stmt)], None)?;
            proof {
                st_id = incr_stmt;
                assert(arena_nodes(self.arena)[incr_stmt.0 as int] == mid[incr_stmt.0 as int]);
            }
            body = Some(blk);
        }
        let ghost after_body = arena_nodes(self.arena);
        let ghost body1 = body;
        let condition = match condition_expr {
            Some(c) => Some(c),
            None => {
                let true_tok = Token::new(TokenType::True, "true".to_string(), Value::Bool(true), 0);
                Some(self.node(NodeType::Literal, true_tok, Value::Bool(true), Vec::new(), None)?)
            },
        };
        let ghost after_cond = arena_nodes(self.arena);
        let prev = self.previous().duplicate();
        let w = self.node(NodeType::StmtWhile, prev.duplicate(), Value::Null, vec![condition, body], None)?;
        let ghost after_while = arena_nodes(self.arena);
        proof {
            if let Some(b) = body1 {
                if increment is Some {
                    assert(after_while[b.0 as int] == after_body[b.0 as int]);
                    assert(after_while[st_id.0 as int] == after_body[st_id.0 as int]);
                }
            }
            if condition_expr is None {
                let t = condition->Some_0;
                assert(after_while[t.0 as int] == after_cond[t.0 as int]);
            }
            assert(for_while_shape(after_while, w, condition_expr, increment, body0));
        }
        if let Some(init) = initializer {
            let b = self.node(NodeType::StmtBlock, prev, Value::Null, vec![Some(init), Some(w)], None)?;
            proof {
                let fin = arena_nodes(self.arena);
                assert(fin[w.0 as int] == after_while[w.0 as int]);
            }
            return Some(b);
        }
        Some(w)
    }

    fn return_statement(&mut self) -> (r: Option<NodeId>)
        requires
            old(self).wf(),
            old(self).current > 0,
        ensures
            Self::parsed(old(self), final(self), r),
            r is None ==> final(self).error_flag(),
            r matches Some(id) ==> final(self).node_at(id).node_type == NodeType::StmtReturn,
    {
        let keyword = self.previous().duplicate();
        let value = if !self.check(TokenType::Semicolon) {
            self.expression()
        } else {
            None
        };
        self.consume(TokenType::Semicolon, "Expect ';' after return value.")?;
        self.node(NodeType::StmtReturn, keyword, Value::Null, vec![value], None)
    }

    fn block(&mut self) -> (r: Option<Vec<Option<NodeId>>>)
        requires
            old(self).wf(),
            old(self).current > 0,
        ensures
            Self::grows(old(self), final(self)),
            r is None ==> final(self).error_flag(),
            r matches Some(ss) ==> children_ok(ss@, final(self).node_count()),
            r is Some ==> final(self).current > old(self).current,
        decreases old(self).sources_left(), old(self).remaining(), 31nat,
    {
        let mut statements: Vec<Option<NodeId>> = Vec::new();
        while !self.check(TokenType::RightBrace) && !self.is_at_end()
            invariant
                Self::grows(old(self), self),
                children_ok(statements@, self.node_count()),
                self.current > 0,
            decreases self.tokens@.len() - self.current,
        {
            let d = self.declaration();
            statements.push(d);
        }
        self.consume(TokenType::RightBrace, "Expect '}' after block.")?;
        Some(statements)
    }

    fn consume_condition(&mut self, name: &str) -> (r: Option<NodeId>)
        requires
            old(self).wf(),
        ensures
            Self::parsed(old(self), final(self), r),
            r is None ==> final(self).error_flag(),
    {
        let m = Self::message3("Expect '(' after '", name, "' statement.");
        self.consume(TokenType::LeftParen, m.as_str())?;
        let condition = self.expression()?;
        let m = Self::message3("Expect ')' after ", name, " condition.");
        self.consume(TokenType::RightParen, m.as_str())?;
        Some(condition)
    }
}

} // verus!
