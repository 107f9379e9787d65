//! Prints a tree as nested, parenthesised text, for looking at what the
//! parser built.
use vstd::prelude::*;

use crate::ast::{arena_nodes, NodeArena, NodeId, NodeType, Node};
use crate::interpreter::value::{int_text, push_int};
use crate::text::{push_char, push_str};
use crate::token::Value;
use crate::ast::nodes_wf;
use crate::type_checker::growth::{lemma_child_measure, measure, opt_measure};

verus! {

/// The text of a literal; a floating-point literal prints as written.
pub open spec fn literal_text(v: Value) -> Seq<char> {
    match v {
        Value::Null => "null"@,
        Value::Int(n) => int_text(n as int),
        Value::Float(t) => t@,
        Value::Str(s) => s@,
        Value::Bool(b) => if b { "true"@ } else { "false"@ },
    }
}

/// The word that opens the printed form of a node.
pub open spec fn tag(n: Node) -> Seq<char> {
    match n.node_type {
        NodeType::Unary | NodeType::Binary | NodeType::Logical => n.token.lexeme@,
        NodeType::Grouping => "group"@,
        NodeType::StmtList => "list"@,
        NodeType::StmtExpr => "expr"@,
        NodeType::StmtBlock => "block"@,
        NodeType::StmtVarDecl => "var "@ + n.token.lexeme@,
        NodeType::Assign => "assign "@ + n.token.lexeme@,
        NodeType::StmtIf => "if"@,
        NodeType::StmtWhile => "while"@,
        NodeType::Call => "call"@,
        NodeType::Array => "array"@,
        NodeType::IndexGet => "index"@,
        NodeType::StmtReturn => "return"@,
        NodeType::StmtFunction => "fn "@ + n.token.lexeme@,
        NodeType::AddressOf => "@"@,
        NodeType::Dereference => "deref"@,
        NodeType::AssignDeref => "assign_deref"@,
        NodeType::StmtStructDecl => "struct "@ + n.token.lexeme@,
        NodeType::StructInit => "init "@ + n.token.lexeme@,
        NodeType::GetField => "get "@ + n.token.lexeme@,
        NodeType::AssignField => "set "@ + n.token.lexeme@,
        NodeType::StmtExternFn => "extern "@ + n.token.lexeme@,
        NodeType::StmtInclude => "include"@,
        NodeType::ExprNew => "new "@ + n.token.lexeme@,
        NodeType::StmtDelete => "delete"@,
        _ => Seq::empty(),
    }
}

/// How many of a node's children its printed form shows.
pub open spec fn shown(n: Node) -> nat {
    let all = n.children@.len();
    match n.node_type {
        NodeType::Unary | NodeType::Grouping | NodeType::StmtExpr | NodeType::AddressOf | NodeType::Dereference
        | NodeType::GetField => if all < 1 { all } else { 1 },
        NodeType::Binary | NodeType::Logical | NodeType::AssignDeref | NodeType::AssignField => if all < 2 {
            all
        } else {
            2
        },
        _ => all,
    }
}

/// The printed form of node `id`: a literal's text, a variable's name, or
/// the node's tag and its shown children in parentheses.
pub open spec fn print_spec(nodes: Seq<Node>, id: Option<NodeId>) -> Seq<char>
    decreases opt_measure(nodes, id), 1nat, 0nat,
{
    match id {
        None => Seq::empty(),
        Some(i) => if i.0 >= nodes.len() {
            Seq::empty()
        } else {
            let n = nodes[i.0 as int];
            match n.node_type {
                NodeType::Literal => literal_text(n.value),
                NodeType::VarExpr => n.token.lexeme@,
                _ => "("@ + tag(n) + print_children(nodes, i, shown(n)) + ")"@,
            }
        },
    }
}

/// The printed forms of the first `k` children of node `id`, each after a
/// space; missing children are skipped.
pub open spec fn print_children(nodes: Seq<Node>, id: NodeId, k: nat) -> Seq<char>
    decreases measure(nodes, id), 0nat, k,
{
    if k == 0 || id.0 >= nodes.len() || k > nodes[id.0 as int].children@.len() {
        Seq::empty()
    } else {
        let c = nodes[id.0 as int].children@[k - 1];
        let before = print_children(nodes, id, (k - 1) as nat);
        match c {
            Some(cid) => if measure(nodes, cid) < measure(nodes, id) {
                before + " "@ + print_spec(nodes, c)
            } else {
                before
            },
            None => before,
        }
    }
}

/// Prints the trees of an arena.
pub struct AstPrinter<'a> {
    arena: &'a NodeArena,
}

impl<'a> AstPrinter<'a> {
    /// The nodes of the arena that the printer reads.
    pub closed spec fn nodes(&self) -> Seq<Node> {
        arena_nodes(*self.arena)
    }

    pub fn new(arena: &'a NodeArena) -> (p: AstPrinter<'a>)
        ensures
            p.nodes() == arena_nodes(*arena),
    {
        AstPrinter { arena }
    }

    /// The printed form of node `node_id`; empty for no node.
    pub fn print(&self, node_id: Option<NodeId>) -> (s: String)
        ensures
            s@ == print_spec(self.nodes(), node_id),
        decreases opt_measure(self.nodes(), node_id), 1nat, 1nat,
    {
        let id = match node_id {
            Some(id) => id,
            None => return String::new(),
        };
        if id.0 >= self.arena.len() {
            return String::new();
        }
        let node = self.arena.get(id);
        let mut out = String::new();
        match node.node_type {
            NodeType::Literal => {
                match &node.value {
                    Value::Null => push_str(&mut out, "null"),
                    Value::Int(n) => push_int(&mut out, *n),
                    Value::Float(t) => push_str(&mut out, t.as_str()),
                    Value::Str(s) => push_str(&mut out, s.as_str()),
                    Value::Bool(b) => if *b {
                        push_str(&mut out, "true")
                    } else {
                        push_str(&mut out, "false")
                    },
                }
                assert(out@ =~= literal_text(node.value));
            },
            NodeType::VarExpr => {
                push_str(&mut out, node.token.lexeme.as_str());
                assert(out@ =~= node.token.lexeme@);
            },
            _ => {
                push_str(&mut out, "(");
                self.push_tag(&mut out, node);
                self.parenthesize_children(&mut out, id);
                push_str(&mut out, ")");
                assert(out@ =~= "("@ + tag(*node) + print_children(self.nodes(), id, shown(*node)) + ")"@);
            },
        }
        out
    }

    fn push_tag(&self, out: &mut String, n: &Node)
        ensures
            final(out)@ == old(out)@ + tag(*n),
    {
        let name = n.token.lexeme.as_str();
        match n.node_type {
            NodeType::Unary | NodeType::Binary | NodeType::Logical => push_str(out, name),
            NodeType::Grouping => push_str(out, "group"),
            NodeType::StmtList => push_str(out, "list"),
            NodeType::StmtExpr => push_str(out, "expr"),
            NodeType::StmtBlock => push_str(out, "block"),
            NodeType::StmtVarDecl => self.push_named(out, "var ", name),
            NodeType::Assign => self.push_named(out, "assign ", name),
            NodeType::StmtIf => push_str(out, "if"),
            NodeType::StmtWhile => push_str(out, "while"),
            NodeType::Call => push_str(out, "call"),
            NodeType::Array => push_str(out, "array"),
            NodeType::IndexGet => push_str(out, "index"),
            NodeType::StmtReturn => push_str(out, "return"),
            NodeType::StmtFunction => self.push_named(out, "fn ", name),
            NodeType::AddressOf => push_str(out, "@"),
            NodeType::Dereference => push_str(out, "deref"),
            NodeType::AssignDeref => push_str(out, "assign_deref"),
            NodeType::StmtStructDecl => self.push_named(out, "struct ", name),
            NodeType::StructInit => self.push_named(out, "init ", name),
            NodeType::GetField => self.push_named(out, "get ", name),
            NodeType::AssignField => self.push_named(out, "set ", name),
            NodeType::StmtExternFn => self.push_named(out, "extern ", name),
            NodeType::StmtInclude => push_str(out, "include"),
            NodeType::ExprNew => self.push_named(out, "new ", name),
            NodeType::StmtDelete => push_str(out, "delete"),
            _ => {
                assert(old(out)@ + Seq::<char>::empty() =~= old(out)@);
            },
        }
    }

    fn push_named(&self, out: &mut String, word: &str, name: &str)
        ensures
            final(out)@ == old(out)@ + (word@ + name@),
    {
        push_str(out, word);
        push_str(out, name);
        assert(old(out)@ + word@ + name@ =~= old(out)@ + (word@ + name@));
    }

    /// Appends the printed forms of the shown children of `id`, each after a
    /// space.
    fn parenthesize_children(&self, out: &mut String, id: NodeId)
        requires
            id.0 < self.nodes().len(),
        ensures
            final(out)@ == old(out)@ + print_children(self.nodes(), id, shown(self.nodes()[id.0 as int])),
        decreases opt_measure(self.nodes(), Some(id)), 1nat, 0nat,
    {
        let node = self.arena.get(id);
        let all = node.children.len();
        let count: usize = match node.node_type {
            NodeType::Unary | NodeType::Grouping | NodeType::StmtExpr | NodeType::AddressOf | NodeType::Dereference
            | NodeType::GetField => if all < 1 { all } else { 1 },
            NodeType::Binary | NodeType::Logical | NodeType::AssignDeref | NodeType::AssignField => if all < 2 {
                all
            } else {
                2
            },
            _ => all,
        };
        let ghost nodes = self.nodes();
        assert(print_children(nodes, id, 0) =~= Seq::<char>::empty());
        assert(old(out)@ + Seq::<char>::empty() =~= old(out)@);
        let mut k: usize = 0;
        while k < count
            invariant
                k <= count,
                count <= all,
                all == nodes[id.0 as int].children@.len(),
                nodes == self.nodes(),
                id.0 < nodes.len(),
                *node == nodes[id.0 as int],
                count == shown(nodes[id.0 as int]),
                out@ == old(out)@ + print_children(nodes, id, k as nat),
            decreases count - k,
        {
            let c = node.children[k];
            let ghost before = out@;
            if let Some(cid) = c {
                if self.child_ok(id, cid) {
                    push_char(out, ' ');
                    let s = self.print(Some(cid));
                    push_str(out, s.as_str());
                    proof {
                        assert(out@ =~= before + " "@ + print_spec(nodes, c)) by {
                            reveal_strlit(" ");
                        }
                    }
                }
            }
            proof {
                assert(print_children(nodes, id, (k + 1) as nat) == if c matches Some(cid) && measure(nodes, cid)
                    < measure(nodes, id) {
                    print_children(nodes, id, k as nat) + " "@ + print_spec(nodes, c)
                } else {
                    print_children(nodes, id, k as nat)
                });
                assert(before + " "@ + print_spec(nodes, c) =~= old(out)@ + (print_children(nodes, id, k as nat) + " "@ + print_spec(nodes, c)));
            }
            k = k + 1;
        }
    }

    /// Whether child `c` of `id` is printed below it: whether it is a leaf
    /// or comes before `id`, as in every tree the parser builds.
    fn child_ok(&self, id: NodeId, c: NodeId) -> (b: bool)
        requires
            id.0 < self.nodes().len(),
        ensures
            b == (measure(self.nodes(), c) < measure(self.nodes(), id)),
    {
        let id_has = self.arena.get(id).children.len() > 0;
        let c_has = c.0 < self.arena.len() && self.arena.get(c).children.len() > 0;
        if !id_has {
            false
        } else if !c_has {
            true
        } else {
            c.0 < id.0
        }
    }
}

/// Whether `t` occurs in `s` as a run of consecutive characters.
pub open spec fn occurs_in(t: Seq<char>, s: Seq<char>) -> bool {
    exists|k: int| 0 <= k && k + t.len() <= s.len() && #[trigger] s.subrange(k, k + t.len()) == t
}

/// What occurs in `s` occurs in `s` followed by anything, and in anything
/// followed by `s`.
proof fn lemma_occurs_extend(t: Seq<char>, s: Seq<char>, before: Seq<char>, after: Seq<char>)
    requires
        occurs_in(t, s),
    ensures
        occurs_in(t, before + s + after),
{
    let k = choose|k: int| 0 <= k && k + t.len() <= s.len() && #[trigger] s.subrange(k, k + t.len()) == t;
    let all = before + s + after;
    let k2: int = k + before.len() as int;
    assert(all.subrange(k2, k2 + t.len()) =~= s.subrange(k, k + t.len()));
}

/// The printed children of a node hold the printed form of each present
/// child among them.
proof fn lemma_children_printed(nodes: Seq<Node>, id: NodeId, k: nat, j: int)
    requires
        nodes_wf(nodes),
        id.0 < nodes.len(),
        0 <= j < k <= nodes[id.0 as int].children@.len(),
        nodes[id.0 as int].children@[j] is Some,
    ensures
        occurs_in(print_spec(nodes, nodes[id.0 as int].children@[j]), print_children(nodes, id, k)),
    decreases k,
{
    reveal_strlit(" ");
    let before = print_children(nodes, id, (k - 1) as nat);
    let c = nodes[id.0 as int].children@[k - 1];
    if j == k - 1 {
        lemma_child_measure(nodes, id, j);
        let t = print_spec(nodes, c);
        let all = before + " "@ + t;
        assert(print_children(nodes, id, k) == all);
        let k0: int = before.len() as int + 1;
        assert(all.subrange(k0, k0 + t.len()) =~= t);
    } else {
        lemma_children_printed(nodes, id, (k - 1) as nat, j);
        let t = print_spec(nodes, nodes[id.0 as int].children@[j]);
        match c {
            Some(cid) => if measure(nodes, cid) < measure(nodes, id) {
                lemma_occurs_extend(t, before, Seq::empty(), " "@ + print_spec(nodes, c));
                assert(Seq::<char>::empty() + before + (" "@ + print_spec(nodes, c)) =~= before + " "@ + print_spec(
                    nodes,
                    c,
                ));
            },
            None => {},
        }
    }
}

/// Whether the printed form of a node of this kind shows all its children:
/// statements, calls, assignments, array and struct literals, indexing and
/// `new`.
pub open spec fn shows_all_children(t: NodeType) -> bool {
    ||| t == NodeType::StmtList || t == NodeType::StmtBlock || t == NodeType::StmtIf || t == NodeType::StmtWhile
    ||| t == NodeType::StmtVarDecl || t == NodeType::StmtFunction || t == NodeType::StmtReturn
    ||| t == NodeType::StmtStructDecl || t == NodeType::StmtExternFn || t == NodeType::StmtInclude
    ||| t == NodeType::StmtDelete
    ||| t == NodeType::Call || t == NodeType::Assign || t == NodeType::Array || t == NodeType::IndexGet
    ||| t == NodeType::StructInit || t == NodeType::ExprNew
}

/// The printed form of a statement (an `if` with its condition, its branch
/// and its `else` branch; a block with each statement in it; ...), a call,
/// an assignment, an array or struct literal, an indexing or a `new` holds
/// the printed form of every child that the node has; that of a binary or
/// logical operator holds those of both its operands.
pub proof fn law_printed_form_holds_children(nodes: Seq<Node>, id: NodeId, j: int)
    requires
        nodes_wf(nodes),
        id.0 < nodes.len(),
        0 <= j < nodes[id.0 as int].children@.len(),
        nodes[id.0 as int].children@[j] is Some,
        shows_all_children(nodes[id.0 as int].node_type) || ((nodes[id.0 as int].node_type == NodeType::Binary
            || nodes[id.0 as int].node_type == NodeType::Logical) && j < 2),
    ensures
        occurs_in(print_spec(nodes, nodes[id.0 as int].children@[j]), print_spec(nodes, Some(id))),
{
    let n = nodes[id.0 as int];
    let k = shown(n);
    assert(j < k);
    lemma_children_printed(nodes, id, k, j);
    let t = print_spec(nodes, n.children@[j]);
    lemma_occurs_extend(t, print_children(nodes, id, k), "("@ + tag(n), ")"@);
    assert(print_spec(nodes, Some(id)) == "("@ + tag(n) + print_children(nodes, id, k) + ")"@);
}

/// A binary or logical operator with both operands prints as its operator
/// followed by its left operand and then its right one.
pub proof fn law_operator_prints_in_order(nodes: Seq<Node>, id: NodeId)
    requires
        nodes_wf(nodes),
        id.0 < nodes.len(),
        nodes[id.0 as int].node_type == NodeType::Binary || nodes[id.0 as int].node_type == NodeType::Logical,
        nodes[id.0 as int].children@.len() == 2,
        nodes[id.0 as int].children@[0] is Some,
        nodes[id.0 as int].children@[1] is Some,
    ensures
        print_spec(nodes, Some(id)) == "("@ + nodes[id.0 as int].token.lexeme@ + " "@ + print_spec(
            nodes,
            nodes[id.0 as int].children@[0],
        ) + " "@ + print_spec(nodes, nodes[id.0 as int].children@[1]) + ")"@,
{
    let n = nodes[id.0 as int];
    lemma_child_measure(nodes, id, 0);
    lemma_child_measure(nodes, id, 1);
    let l = print_spec(nodes, n.children@[0]);
    let r = print_spec(nodes, n.children@[1]);
    assert(print_children(nodes, id, 0) == Seq::<char>::empty());
    assert(print_children(nodes, id, 1) == Seq::<char>::empty() + " "@ + l);
    assert(print_children(nodes, id, 2) == Seq::<char>::empty() + " "@ + l + " "@ + r);
    assert("("@ + n.token.lexeme@ + (Seq::<char>::empty() + " "@ + l + " "@ + r) + ")"@ =~= "("@ + n.token.lexeme@
        + " "@ + l + " "@ + r + ")"@);
}

} // verus!
