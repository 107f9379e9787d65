//! The abstract syntax tree: node kinds, the types of the language, nodes,
//! and the arena that holds them.
use vstd::prelude::*;

use crate::token::{Token, Value};

verus! {

/// The kinds of node of the tree.
#[derive(Debug, Clone, Copy, PartialEq, Eq, Structural)]
pub enum NodeType {
    Binary,
    Grouping,
    Literal,
    Unary,
    Logical,
    Assign,
    VarExpr,
    Call,
    StmtList,
    StmtExpr,
    StmtVarDecl,
    StmtBlock,
    StmtIf,
    StmtWhile,
    StmtFunction,
    StmtReturn,
    Array,
    IndexGet,
    AddressOf,
    Dereference,
    AssignDeref,
    StmtStructDecl,
    StructInit,
    GetField,
    AssignField,
    StmtExternFn,
    StmtInclude,
    ExprNew,
    StmtDelete,
}

/// The types of the language.
#[derive(Debug)]
pub enum CiprType {
    Int,
    Float,
    Str,
    Bool,
    Null,
    Void,
    Array(Box<CiprType>),
    Pointer(Box<CiprType>),
    Struct(String),
    Callable(Vec<CiprType>, Box<CiprType>),
    Unknown,
}

/// The mathematical model of a [`CiprType`].
pub enum SpecType {
    Int,
    Float,
    Str,
    Bool,
    Null,
    Void,
    Array(Box<SpecType>),
    Pointer(Box<SpecType>),
    Struct(Seq<char>),
    Callable(Seq<SpecType>, Box<SpecType>),
    Unknown,
}

impl View for CiprType {
    type V = SpecType;

    open spec fn view(&self) -> SpecType
        decreases self,
    {
        match self {
            CiprType::Int => SpecType::Int,
            CiprType::Float => SpecType::Float,
            CiprType::Str => SpecType::Str,
            CiprType::Bool => SpecType::Bool,
            CiprType::Null => SpecType::Null,
            CiprType::Void => SpecType::Void,
            CiprType::Array(t) => SpecType::Array(Box::new((**t).view())),
            CiprType::Pointer(t) => SpecType::Pointer(Box::new((**t).view())),
            CiprType::Struct(n) => SpecType::Struct(n@),
            CiprType::Callable(ps, r) => SpecType::Callable(
                Seq::new(
                    ps@.len(),
                    |i: int|
                        if 0 <= i < ps@.len() {
                            ps@[i].view()
                        } else {
                            SpecType::Unknown
                        },
                ),
                Box::new((**r).view()),
            ),
            CiprType::Unknown => SpecType::Unknown,
        }
    }
}

impl Clone for CiprType {
    fn clone(&self) -> (r: CiprType)
        ensures
            r@ == self@,
    {
        self.duplicate()
    }
}

impl PartialEq for CiprType {
    fn eq(&self, other: &CiprType) -> (r: bool) {
        self.same(other)
    }
}

impl vstd::std_specs::cmp::PartialEqSpecImpl for CiprType {
    open spec fn obeys_eq_spec() -> bool {
        true
    }

    open spec fn eq_spec(&self, other: &CiprType) -> bool {
        self@ == other@
    }
}

impl CiprType {
    /// Whether two types are the same type.
    pub fn same(&self, other: &CiprType) -> (r: bool)
        ensures
            r == (self@ == other@),
        decreases self,
    {
        match self {
            CiprType::Int => match other {
                CiprType::Int => true,
                _ => false,
            },
            CiprType::Float => match other {
                CiprType::Float => true,
                _ => false,
            },
            CiprType::Str => match other {
                CiprType::Str => true,
                _ => false,
            },
            CiprType::Bool => match other {
                CiprType::Bool => true,
                _ => false,
            },
            CiprType::Null => match other {
                CiprType::Null => true,
                _ => false,
            },
            CiprType::Void => match other {
                CiprType::Void => true,
                _ => false,
            },
            CiprType::Unknown => match other {
                CiprType::Unknown => true,
                _ => false,
            },
            CiprType::Array(a) => match other {
                CiprType::Array(b) => (**a).same(&**b),
                _ => false,
            },
            CiprType::Pointer(a) => match other {
                CiprType::Pointer(b) => (**a).same(&**b),
                _ => false,
            },
            CiprType::Struct(a) => match other {
                CiprType::Struct(b) => a.eq(b),
                _ => false,
            },
            CiprType::Callable(pa, ra) => match other {
                CiprType::Callable(pb, rb) => {
                    let ghost sa = self@;
                    let ghost sb = other@;
                    if pa.len() != pb.len() {
                        proof {
                            if sa == sb {
                                assert(sa->Callable_0.len() == sb->Callable_0.len());
                            }
                        }
                        return false;
                    }
                    let mut i: usize = 0;
                    #[verifier::loop_isolation(false)]
                    while i < pa.len()
                        invariant
                            pa@.len() == pb@.len(),
                            i <= pa@.len(),
                            forall|k: int| 0 <= k < i ==> pa@[k]@ == pb@[k]@,
                        decreases pa@.len() - i,
                    {
                        if !pa[i].same(&pb[i]) {
                            proof {
                                if sa == sb {
                                    assert(sa->Callable_0[i as int] == pa@[i as int]@);
                                    assert(sb->Callable_0[i as int] == pb@[i as int]@);
                                }
                            }
                            return false;
                        }
                        i = i + 1;
                    }
                    let r = (**ra).same(&**rb);
                    proof {
                        if r {
                            assert(sa->Callable_0 =~= sb->Callable_0);
                        }
                    }
                    r
                },
                _ => false,
            },
        }
    }

    /// A copy of this type.
    pub fn duplicate(&self) -> (r: CiprType)
        ensures
            r@ == self@,
        decreases self,
    {
        match self {
            CiprType::Int => CiprType::Int,
            CiprType::Float => CiprType::Float,
            CiprType::Str => CiprType::Str,
            CiprType::Bool => CiprType::Bool,
            CiprType::Null => CiprType::Null,
            CiprType::Void => CiprType::Void,
            CiprType::Unknown => CiprType::Unknown,
            CiprType::Array(a) => CiprType::Array(Box::new((**a).duplicate())),
            CiprType::Pointer(a) => CiprType::Pointer(Box::new((**a).duplicate())),
            CiprType::Struct(n) => CiprType::Struct(n.clone()),
            CiprType::Callable(ps, r) => {
                let mut qs: Vec<CiprType> = Vec::new();
                let mut i: usize = 0;
                #[verifier::loop_isolation(false)]
                while i < ps.len()
                    invariant
                        i <= ps@.len(),
                        qs@.len() == i,
                        forall|k: int| 0 <= k < i ==> qs@[k]@ == ps@[k]@,
                    decreases ps@.len() - i,
                {
                    qs.push(ps[i].duplicate());
                    i = i + 1;
                }
                let out = CiprType::Callable(qs, Box::new((**r).duplicate()));
                proof {
                    assert(out@->Callable_0 =~= self@->Callable_0);
                }
                out
            },
        }
    }

    pub fn is_unknown(&self) -> (r: bool)
        ensures
            r == (self@ == SpecType::Unknown),
    {
        match self {
            CiprType::Unknown => true,
            _ => false,
        }
    }

    pub fn is_pointer(&self) -> (r: bool)
        ensures
            r == (self@ is Pointer),
    {
        match self {
            CiprType::Pointer(_) => true,
            _ => false,
        }
    }
}

} // verus!

verus! {

/// The index of a node in its arena.
#[derive(Debug, Clone, Copy, PartialEq, Eq, Structural)]
pub struct NodeId(pub usize);

/// A node of the tree.
///
/// `children` lists the operands, statements or parameters of the node, in
/// the order the parser put them; a child is `None` where the parser could
/// not build it.
#[derive(Debug)]
pub struct Node {
    pub node_type: NodeType,
    pub token: Token,
    pub value: Value,
    pub children: Vec<Option<NodeId>>,
    pub type_annotation: Option<CiprType>,
    pub resolved_type: CiprType,
}

impl Node {
    pub fn new(
        node_type: NodeType,
        token: Token,
        value: Value,
        children: Vec<Option<NodeId>>,
        type_annotation: Option<CiprType>,
    ) -> (n: Node)
        ensures
            n.node_type == node_type,
            n.token == token,
            n.value == value,
            n.children == children,
            n.type_annotation == type_annotation,
            n.resolved_type@ == SpecType::Unknown,
    {
        Node { node_type, token, value, children, type_annotation, resolved_type: CiprType::Unknown }
    }
}

/// The nodes of a tree, held in an arena of the `id_arena` crate.
#[verifier::external_body]
pub struct NodeArena {
    inner: id_arena::Arena<Node>,
    arena_tag: u32,
}

/// The nodes that an arena holds, in the order they were allocated.
pub uninterp spec fn arena_nodes(a: NodeArena) -> Seq<Node>;

impl NodeArena {
    /// An empty arena (`id_arena::Arena::new`).
    #[verifier::external_body]
    pub fn new() -> (a: NodeArena)
        ensures
            arena_nodes(a) == Seq::<Node>::empty(),
    {
        let inner = id_arena::Arena::<Node>::new();
        let arena_tag = <id_arena::DefaultArenaBehavior<Node> as id_arena::ArenaBehavior>::arena_id(inner.next_id());
        NodeArena { inner, arena_tag }
    }

    /// The number of nodes (`id_arena::Arena::len`).
    #[verifier::external_body]
    pub fn len(&self) -> (n: usize)
        ensures
            n == arena_nodes(*self).len(),
    {
        self.inner.len()
    }

    /// Adds a node at the end (`id_arena::Arena::alloc`); its id is its
    /// position.
    #[verifier::external_body]
    pub fn push_node(&mut self, node: Node) -> (id: NodeId)
        requires
            arena_nodes(*old(self)).len() < usize::MAX,
        ensures
            arena_nodes(*final(self)) == arena_nodes(*old(self)).push(node),
            id.0 == arena_nodes(*old(self)).len(),
    {
        NodeId(self.inner.alloc(node).index())
    }

    /// The node with id `id` (indexing an `id_arena::Arena`).
    #[verifier::external_body]
    pub fn get(&self, id: NodeId) -> (n: &Node)
        requires
            id.0 < arena_nodes(*self).len(),
        ensures
            *n == arena_nodes(*self)[id.0 as int],
    {
        &self.inner[<id_arena::DefaultArenaBehavior<Node> as id_arena::ArenaBehavior>::new_id(self.arena_tag, id.0)]
    }

    /// Records the type found for node `id` (assigning through `IndexMut` of
    /// an `id_arena::Arena`).
    #[verifier::external_body]
    pub fn set_resolved_type(&mut self, id: NodeId, t: CiprType)
        requires
            id.0 < arena_nodes(*old(self)).len(),
        ensures
            arena_nodes(*final(self)) == arena_nodes(*old(self)).update(
                id.0 as int,
                Node { resolved_type: t, ..arena_nodes(*old(self))[id.0 as int] },
            ),
    {
        self.inner[<id_arena::DefaultArenaBehavior<Node> as id_arena::ArenaBehavior>::new_id(self.arena_tag, id.0)].resolved_type = t;
    }

    /// Replaces the children of node `id` (assigning through `IndexMut` of an
    /// `id_arena::Arena`).
    #[verifier::external_body]
    pub fn set_children(&mut self, id: NodeId, children: Vec<Option<NodeId>>)
        requires
            id.0 < arena_nodes(*old(self)).len(),
        ensures
            arena_nodes(*final(self)) == arena_nodes(*old(self)).update(
                id.0 as int,
                Node { children, ..arena_nodes(*old(self))[id.0 as int] },
            ),
    {
        self.inner[<id_arena::DefaultArenaBehavior<Node> as id_arena::ArenaBehavior>::new_id(self.arena_tag, id.0)].children = children;
    }
}

/// The position of a present child.
pub open spec fn child_index(c: Option<NodeId>) -> int {
    match c {
        Some(id) => id.0 as int,
        None => -1,
    }
}

/// Every child of every node is a node of the same arena, allocated before
/// its parent unless it is a leaf.
pub open spec fn nodes_wf(nodes: Seq<Node>) -> bool {
    forall|i: int, k: int|
        0 <= i < nodes.len() && 0 <= k < nodes[i].children@.len() && (#[trigger] nodes[i].children@[k]) is Some
            ==> {
            let c = child_index(nodes[i].children@[k]);
            &&& c < nodes.len()
            &&& (c < i || nodes[c].children@.len() == 0)
        }
}

/// Allocates a node whose children are `children`.
pub fn alloc_node(
    arena: &mut NodeArena,
    node_type: NodeType,
    token: Token,
    value: Value,
    children: Vec<Option<NodeId>>,
) -> (id: NodeId)
    requires
        arena_nodes(*old(arena)).len() < usize::MAX,
    ensures
        arena_nodes(*final(arena)) == arena_nodes(*old(arena)).push(
            arena_nodes(*final(arena))[id.0 as int],
        ),
        id.0 == arena_nodes(*old(arena)).len(),
        arena_nodes(*final(arena))[id.0 as int].node_type == node_type,
        arena_nodes(*final(arena))[id.0 as int].token == token,
        arena_nodes(*final(arena))[id.0 as int].value == value,
        arena_nodes(*final(arena))[id.0 as int].children == children,
        arena_nodes(*final(arena))[id.0 as int].type_annotation is None,
{
    arena.push_node(Node::new(node_type, token, value, children, None))
}

/// Allocates a node that carries a type annotation.
pub fn alloc_node_typed(
    arena: &mut NodeArena,
    node_type: NodeType,
    token: Token,
    value: Value,
    children: Vec<Option<NodeId>>,
    type_annotation: Option<CiprType>,
) -> (id: NodeId)
    requires
        arena_nodes(*old(arena)).len() < usize::MAX,
    ensures
        arena_nodes(*final(arena)) == arena_nodes(*old(arena)).push(
            arena_nodes(*final(arena))[id.0 as int],
        ),
        id.0 == arena_nodes(*old(arena)).len(),
        arena_nodes(*final(arena))[id.0 as int].node_type == node_type,
        arena_nodes(*final(arena))[id.0 as int].token == token,
        arena_nodes(*final(arena))[id.0 as int].value == value,
        arena_nodes(*final(arena))[id.0 as int].children == children,
        arena_nodes(*final(arena))[id.0 as int].type_annotation == type_annotation,
{
    arena.push_node(Node::new(node_type, token, value, children, type_annotation))
}

} // verus!
