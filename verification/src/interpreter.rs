//! A tree-walking interpreter for checked programs.
//!
//! Every step of evaluation spends one unit of a step budget, so that a
//! program that runs forever ends with [`CiprError::StepLimit`]. What each
//! expression and statement does is given by the rules of [`semantics`],
//! and the interpreter is proved to follow them.
pub mod semantics;
pub mod value;

use vstd::prelude::*;

use crate::ast::{arena_nodes, nodes_wf, Node, NodeArena, NodeId, NodeType};
use crate::diagnostics::{decimal_text, push_decimal};
use crate::environment::{lookup_in, Environments, ScopeModel};
use crate::interpreter::semantics::{
    arity_message, bind_params, block_fuel, block_outcome, call_result, child_count, eval_args, eval_child, eval_node,
    exec_child, exec_children, exec_node, follows, lemma_eval_args_prefix, lemma_eval_args_stop,
    lemma_exec_children_prefix, lemma_exec_children_stop, lemma_output_grouping, lemma_output_nothing, native_result,
    quiet, run_fuel, run_outcome, yields, Evaluation, Outcome, Stop,
};
use crate::interpreter::value::{
    is_io_native, stringify, stringify_value, truthy, values_equal, IoReply, IoRequest, NamedFunction, NativeFn,
    RuntimeValue, SpecReply, SpecRuntime,
};
use crate::native::string::split_spec;
use crate::text::push_str;
use crate::token::{Token, TokenType, Value};
use crate::type_checker::growth::{lemma_child_measure, measure};

verus! {

broadcast use {lemma_output_grouping, lemma_output_nothing};

/// The message for operands of the wrong kinds.
pub open spec fn operand_message() -> Seq<char> {
    "Operands do not fit the operator."@
}

/// The integer of a value that holds one.
pub open spec fn as_i64(v: SpecRuntime) -> i64 {
    match v {
        SpecRuntime::Int(n) => n as i64,
        _ => 0,
    }
}

/// The quotient of an integer division that does not divide by zero,
/// truncated toward zero and wrapping where it overflows.
pub open spec fn int_quotient(l: i64, r: i64) -> i64 {
    match l.checked_div(r) {
        Some(q) => q,
        None => l,
    }
}

/// What a binary operator gives on two values, or the message of the error.
pub open spec fn binary_result(op: TokenType, l: SpecRuntime, r: SpecRuntime) -> Result<SpecRuntime, Seq<char>> {
    let ints = l is Int && r is Int;
    let a = as_i64(l);
    let b = as_i64(r);
    match op {
        TokenType::Plus => if ints {
            Ok(SpecRuntime::Int(a.wrapping_add(b) as int))
        } else if l is Str || r is Str {
            Ok(SpecRuntime::Str(stringify(l) + stringify(r)))
        } else {
            Err(operand_message())
        },
        TokenType::Minus => if ints {
            Ok(SpecRuntime::Int(a.wrapping_sub(b) as int))
        } else {
            Err(operand_message())
        },
        TokenType::Star => if ints {
            Ok(SpecRuntime::Int(a.wrapping_mul(b) as int))
        } else {
            Err(operand_message())
        },
        TokenType::Slash => if ints {
            if b == 0 {
                Err("Division by zero."@)
            } else {
                Ok(SpecRuntime::Int(int_quotient(a, b) as int))
            }
        } else {
            Err(operand_message())
        },
        TokenType::Greater => if ints { Ok(SpecRuntime::Bool(a > b)) } else { Err(operand_message()) },
        TokenType::GreaterEqual => if ints { Ok(SpecRuntime::Bool(a >= b)) } else { Err(operand_message()) },
        TokenType::Less => if ints { Ok(SpecRuntime::Bool(a < b)) } else { Err(operand_message()) },
        TokenType::LessEqual => if ints { Ok(SpecRuntime::Bool(a <= b)) } else { Err(operand_message()) },
        TokenType::EqualEqual => Ok(SpecRuntime::Bool(values_equal(l, r))),
        TokenType::BangEqual => Ok(SpecRuntime::Bool(!values_equal(l, r))),
        _ => Ok(SpecRuntime::Null),
    }
}

/// What a unary operator gives on a value, or the message of the error.
pub open spec fn unary_result(op: TokenType, v: SpecRuntime) -> Result<SpecRuntime, Seq<char>> {
    match op {
        TokenType::Minus => match v {
            SpecRuntime::Int(n) => Ok(SpecRuntime::Int(0i64.wrapping_sub(n as i64) as int)),
            _ => Err("Operand must be a number."@),
        },
        TokenType::Bang => Ok(SpecRuntime::Bool(!truthy(v))),
        _ => Ok(SpecRuntime::Null),
    }
}

/// The result of a literal: its value, or the error for a floating-point
/// literal, which this interpreter does not compute with.
pub open spec fn literal_result(v: Value) -> Result<SpecRuntime, Seq<char>> {
    match v {
        Value::Null => Ok(SpecRuntime::Null),
        Value::Bool(b) => Ok(SpecRuntime::Bool(b)),
        Value::Int(n) => Ok(SpecRuntime::Int(n as int)),
        Value::Str(s) => Ok(SpecRuntime::Str(s@)),
        Value::Float(_) => Err("Floating-point values are not supported by this interpreter."@),
    }
}

/// The `k`-th child of node `id`, if it has one.
pub open spec fn child_at(nodes: Seq<Node>, id: NodeId, k: int) -> Option<NodeId> {
    if id.0 < nodes.len() && 0 <= k < nodes[id.0 as int].children@.len() {
        nodes[id.0 as int].children@[k]
    } else {
        None
    }
}

/// What indexing gives.
pub open spec fn index_result(target: SpecRuntime, index: SpecRuntime) -> Result<SpecRuntime, Seq<char>> {
    match target {
        SpecRuntime::Items(elems) => match index {
            SpecRuntime::Int(k) => if k < 0 || k >= elems.len() {
                Err("Array index out of bounds."@)
            } else {
                Ok(elems[k])
            },
            _ => Err("Index must be an int."@),
        },
        _ => Err("Only arrays can be indexed."@),
    }
}

fn int_of(v: &RuntimeValue) -> (r: Option<i64>)
    ensures
        r == (match v@ {
            SpecRuntime::Int(n) => Some(n as i64),
            _ => None,
        }),
{
    match v {
        RuntimeValue::Int(n) => Some(*n),
        _ => None,
    }
}

/// What binary operator `op` gives on `left` and `right`.
pub fn binary_op(op: TokenType, left: &RuntimeValue, right: &RuntimeValue) -> (r: Result<RuntimeValue, String>)
    ensures
        match r {
            Ok(v) => binary_result(op, left@, right@) == Ok::<SpecRuntime, Seq<char>>(v@),
            Err(m) => binary_result(op, left@, right@) == Err::<SpecRuntime, Seq<char>>(m@),
        },
{
    let ints = match (int_of(left), int_of(right)) {
        (Some(a), Some(b)) => Some((a, b)),
        _ => None,
    };
    match op {
        TokenType::Plus => match ints {
            Some((a, b)) => Ok(RuntimeValue::Int(a.wrapping_add(b))),
            None => {
                if matches!(left, RuntimeValue::Str(_)) || matches!(right, RuntimeValue::Str(_)) {
                    let mut s = stringify_value(left);
                    let t = stringify_value(right);
                    push_str(&mut s, t.as_str());
                    Ok(RuntimeValue::Str(s))
                } else {
                    Err("Operands do not fit the operator.".to_string())
                }
            },
        },
        TokenType::Minus => match ints {
            Some((a, b)) => Ok(RuntimeValue::Int(a.wrapping_sub(b))),
            None => Err("Operands do not fit the operator.".to_string()),
        },
        TokenType::Star => match ints {
            Some((a, b)) => Ok(RuntimeValue::Int(a.wrapping_mul(b))),
            None => Err("Operands do not fit the operator.".to_string()),
        },
        TokenType::Slash => match ints {
            Some((a, b)) => {
                if b == 0 {
                    Err("Division by zero.".to_string())
                } else {
                    match a.checked_div(b) {
                        Some(q) => Ok(RuntimeValue::Int(q)),
                        None => Ok(RuntimeValue::Int(a)),
                    }
                }
            },
            None => Err("Operands do not fit the operator.".to_string()),
        },
        TokenType::Greater => match ints {
            Some((a, b)) => Ok(RuntimeValue::Bool(a > b)),
            None => Err("Operands do not fit the operator.".to_string()),
        },
        TokenType::GreaterEqual => match ints {
            Some((a, b)) => Ok(RuntimeValue::Bool(a >= b)),
            None => Err("Operands do not fit the operator.".to_string()),
        },
        TokenType::Less => match ints {
            Some((a, b)) => Ok(RuntimeValue::Bool(a < b)),
            None => Err("Operands do not fit the operator.".to_string()),
        },
        TokenType::LessEqual => match ints {
            Some((a, b)) => Ok(RuntimeValue::Bool(a <= b)),
            None => Err("Operands do not fit the operator.".to_string()),
        },
        TokenType::EqualEqual => Ok(RuntimeValue::Bool(left.equals(right))),
        TokenType::BangEqual => Ok(RuntimeValue::Bool(!left.equals(right))),
        _ => Ok(RuntimeValue::Null),
    }
}

/// What unary operator `op` gives on `v`.
pub fn unary_op(op: TokenType, v: &RuntimeValue) -> (r: Result<RuntimeValue, String>)
    ensures
        match r {
            Ok(x) => unary_result(op, v@) == Ok::<SpecRuntime, Seq<char>>(x@),
            Err(m) => unary_result(op, v@) == Err::<SpecRuntime, Seq<char>>(m@),
        },
{
    match op {
        TokenType::Minus => match v {
            RuntimeValue::Int(n) => Ok(RuntimeValue::Int(0i64.wrapping_sub(*n))),
            _ => Err("Operand must be a number.".to_string()),
        },
        TokenType::Bang => Ok(RuntimeValue::Bool(!v.is_truthy())),
        _ => Ok(RuntimeValue::Null),
    }
}

} // verus!

verus! {

/// Why evaluation stopped early.
pub enum CiprError {
    /// An error of the running program, at the token where it happened.
    RuntimeError { token: Token, message: String },
    /// A `return` unwinding to the function call it leaves.
    Return(RuntimeValue),
    /// The step budget is spent.
    StepLimit,
    /// A native function that works with the outside world was called and
    /// no answer to it is at hand: the call waits in the interpreter for the
    /// program running it.
    Suspended,
}

/// The interpreter: the tree it runs, the scopes of the running program,
/// the text the program printed and the steps it may still take.
pub struct Interpreter {
    pub arena: NodeArena,
    environment: usize,
    scopes: Environments,
    output: String,
    steps_left: u64,
    replies: Vec<IoReply>,
    replies_used: usize,
    request: Option<IoRequest>,
    draws: Vec<i64>,
    draws_used: usize,
}

impl Interpreter {
    pub closed spec fn wf(&self) -> bool {
        &&& self.scopes.wf()
        &&& self.environment < self.scopes.view_scopes().len()
        &&& nodes_wf(arena_nodes(self.arena))
    }

    /// The nodes of the tree being run.
    pub closed spec fn nodes(&self) -> Seq<Node> {
        arena_nodes(self.arena)
    }

    /// What evaluating `id` gives by [`eval_node`] with `fuel`, from where
    /// the interpreter stands.
    pub open spec fn evaluation(&self, id: NodeId, fuel: nat) -> Option<Evaluation> {
        eval_node(self.nodes(), self.scope_models(), self.current(), id, fuel)
    }

    /// What running `id` does by [`exec_node`] with `fuel`, from where the
    /// interpreter stands.
    pub open spec fn outcome(&self, id: NodeId, fuel: nat) -> Option<Outcome> {
        exec_node(self.nodes(), self.scope_models(), self.current(), id, fuel)
    }

    /// What the program has printed so far.
    pub closed spec fn printed(&self) -> Seq<char> {
        self.output@
    }

    /// How many steps the program may still take.
    pub closed spec fn steps(&self) -> nat {
        self.steps_left as nat
    }

    /// How many steps the program may still take.
    pub fn steps_left(&self) -> (n: u64)
        ensures
            n == self.steps(),
    {
        self.steps_left
    }

    /// The scopes of the running program.
    pub closed spec fn scope_models(&self) -> Seq<ScopeModel> {
        self.scopes.view_scopes()
    }

    /// The scope that the code being run sees.
    pub closed spec fn current(&self) -> int {
        self.environment as int
    }

    /// What every step of evaluation keeps: the tree, the current scope,
    /// the text printed so far; steps are only spent, scopes only added.
    pub closed spec fn kept(old: &Interpreter, new: &Interpreter) -> bool {
        &&& new.wf()
        &&& old.output@.is_prefix_of(new.output@)
        &&& new.steps_left <= old.steps_left
        &&& new.environment == old.environment
        &&& arena_nodes(new.arena) == arena_nodes(old.arena)
        &&& old.scopes.view_scopes().len() <= new.scopes.view_scopes().len()
    }

    /// An interpreter for the tree in `arena`, with only the global scope,
    /// that may take `step_limit` steps.
    pub fn new(arena: NodeArena, step_limit: u64) -> (i: Interpreter)
        requires
            nodes_wf(arena_nodes(arena)),
        ensures
            i.nodes() == arena_nodes(arena),
            i.wf(),
            i.printed().len() == 0,
            i.steps() == step_limit,
            i.scope_models() == seq![ScopeModel { vars: Map::empty(), parent: -1 }],
            i.current() == 0,
    {
        Interpreter {
            arena,
            environment: 0,
            scopes: Environments::new(),
            output: String::new(),
            steps_left: step_limit,
            replies: Vec::new(),
            replies_used: 0,
            request: None,
            draws: Vec::new(),
            draws_used: 0,
        }
    }

    /// Hands the interpreter the numbers that `rand` drew in an earlier run
    /// of the same program, to be given again, in order, where they fit.
    pub fn set_draws(&mut self, draws: Vec<i64>)
        ensures
            old(self).wf() ==> final(self).wf(),
            final(self).printed() == old(self).printed(),
            final(self).steps() == old(self).steps(),
            final(self).scope_models() == old(self).scope_models(),
            final(self).current() == old(self).current(),
            final(self).nodes() == old(self).nodes(),
            final(self).replies_view() == old(self).replies_view(),
            final(self).replies_used() == old(self).replies_used(),
            final(self).pending() == old(self).pending(),
    {
        self.draws = draws;
        self.draws_used = 0;
    }

    /// Takes the numbers that `rand` drew so far.
    pub fn take_draws(&mut self) -> (d: Vec<i64>) {
        let mut d: Vec<i64> = Vec::new();
        core::mem::swap(&mut d, &mut self.draws);
        d
    }

    /// The answers to calls of native functions that work with the outside
    /// world, in the order of the calls.
    pub closed spec fn replies_view(&self) -> Seq<SpecReply> {
        self.replies@.map_values(|x: IoReply| x@)
    }

    /// How many of the answers calls have taken.
    pub closed spec fn replies_used(&self) -> nat {
        self.replies_used as nat
    }

    /// The call that waits for an answer, if any: its function and its
    /// arguments.
    pub closed spec fn pending(&self) -> Option<(NativeFn, Seq<SpecRuntime>)> {
        match self.request {
            Some(q) => Some((q.native, arguments_view(q.args@))),
            None => None,
        }
    }

    /// Hands the interpreter the answers to the calls of native functions
    /// that work with the outside world, to be taken in order.
    pub fn set_replies(&mut self, replies: Vec<IoReply>)
        ensures
            final(self).replies_view() == replies@.map_values(|x: IoReply| x@),
            final(self).replies_used() == 0,
            final(self).pending() == old(self).pending(),
            old(self).wf() ==> final(self).wf(),
            final(self).printed() == old(self).printed(),
            final(self).steps() == old(self).steps(),
            final(self).scope_models() == old(self).scope_models(),
            final(self).current() == old(self).current(),
            final(self).nodes() == old(self).nodes(),
    {
        self.replies = replies;
        self.replies_used = 0;
    }

    /// Takes the call that waits for an answer, if any.
    pub fn take_request(&mut self) -> (q: Option<IoRequest>)
        ensures
            match q {
                Some(x) => old(self).pending() == Some((x.native, arguments_view(x.args@))),
                None => old(self).pending() is None,
            },
            final(self).pending() is None,
    {
        self.request.take()
    }

    /// Defines `name` as `value` in the global scope.
    pub fn define_global(&mut self, name: &str, value: RuntimeValue)
        requires
            old(self).wf(),
        ensures
            final(self).wf(),
            final(self).scope_models() == old(self).scope_models().update(
                0,
                ScopeModel {
                    vars: old(self).scope_models()[0].vars.insert(name@, value@),
                    parent: old(self).scope_models()[0].parent,
                },
            ),
            final(self).scope_models().len() == old(self).scope_models().len(),
            old(self).scope_models().len() > 0,
            final(self).printed() == old(self).printed(),
            final(self).current() == old(self).current(),
            final(self).steps() == old(self).steps(),
            final(self).nodes() == old(self).nodes(),
    {
        self.scopes.define(0, name, value);
    }

    /// The value of `name` seen from the current scope.
    pub fn lookup(&self, name: &str) -> (r: Option<RuntimeValue>)
        requires
            self.wf(),
        ensures
            match r {
                Some(v) => lookup_in(self.scope_models(), self.current(), name@) == Some(v@),
                None => lookup_in(self.scope_models(), self.current(), name@) is None,
            },
    {
        self.scopes.lookup(self.environment, name)
    }

    /// The text the program has printed so far.
    pub fn output(&self) -> (s: &str)
        ensures
            s@ == self.printed(),
    {
        self.output.as_str()
    }

    // ── Reading the tree ──

    fn node(&self, id: NodeId) -> (n: Option<&Node>)
        ensures
            match n {
                Some(x) => id.0 < arena_nodes(self.arena).len() && *x == arena_nodes(self.arena)[id.0 as int],
                None => id.0 >= arena_nodes(self.arena).len(),
            },
    {
        if id.0 < self.arena.len() {
            Some(self.arena.get(id))
        } else {
            None
        }
    }

    fn kid(&self, id: NodeId, k: usize) -> (r: Option<NodeId>)
        ensures
            r == child_at(self.nodes(), id, k as int),
    {
        match self.node(id) {
            Some(n) => if k < n.children.len() {
                n.children[k]
            } else {
                None
            },
            None => None,
        }
    }

    fn kids_len(&self, id: NodeId) -> (r: usize)
        ensures
            r == (if id.0 < self.nodes().len() { self.nodes()[id.0 as int].children@.len() } else { 0 }),
    {
        match self.node(id) {
            Some(n) => n.children.len(),
            None => 0,
        }
    }

    fn token_of(&self, id: NodeId) -> (t: Token)
        ensures
            id.0 < arena_nodes(self.arena).len() ==> t == arena_nodes(self.arena)[id.0 as int].token,
            id.0 >= arena_nodes(self.arena).len() ==> t.lexeme@ == ""@,
    {
        match self.node(id) {
            Some(n) => n.token.duplicate(),
            None => Token::synthetic(TokenType::EofToken, "", 0),
        }
    }

    fn runtime_error(&self, id: NodeId, message: &str) -> (e: CiprError)
        ensures
            e matches CiprError::RuntimeError { message: m, .. } && m@ == message@,
    {
        CiprError::RuntimeError { token: self.token_of(id), message: message.to_string() }
    }

    fn spend(&mut self) -> (ok: bool)
        ensures
            ok == (old(self).steps_left > 0),
            ok ==> final(self).steps_left == old(self).steps_left - 1,
            !ok ==> final(self).steps_left == old(self).steps_left,
            *final(self) == (Interpreter { steps_left: final(self).steps_left, ..*old(self) }),
    {
        if self.steps_left == 0 {
            false
        } else {
            self.steps_left = self.steps_left - 1;
            true
        }
    }

    // ── Statements ──

    /// Runs statement `id`, as [`exec_node`] says with `fuel`.
    fn execute(&mut self, id: NodeId, Ghost(fuel): Ghost<nat>) -> (r: Result<(), CiprError>)
        requires
            old(self).wf(),
        ensures
            budget_spent(r, final(self)),
            Self::kept(old(self), final(self)),
            r is Ok ==> final(self).steps() < old(self).steps(),
            old(self).outcome(id, fuel) matches Some(o) ==> follows(
                r,
                o,
                final(self).scope_models(),
                old(self).printed(),
                final(self).printed(),
            ),
        decreases old(self).steps(), 0nat,
    {
        if !self.spend() {
            return Err(CiprError::StepLimit);
        }
        let kind = match self.node(id) {
            Some(n) => n.node_type,
            None => return Ok(()),
        };
        match kind {
            NodeType::StmtList | NodeType::StmtInclude => self.visit_stmt_list(id, Ghost(fuel)),
            NodeType::StmtVarDecl => self.visit_var_declaration(id, Ghost(fuel)),
            NodeType::StmtExpr => self.visit_expression_stmt(id, Ghost(fuel)),
            NodeType::StmtBlock => self.visit_block_stmt(id, Ghost(fuel)),
            NodeType::StmtIf => self.visit_if_stmt(id, Ghost(fuel)),
            NodeType::StmtWhile => self.visit_while_stmt(id, Ghost(fuel)),
            NodeType::StmtFunction => self.visit_function_stmt(id, Ghost(fuel)),
            NodeType::StmtReturn => self.visit_return_stmt(id, Ghost(fuel)),
            _ => match self.evaluate(id, Ghost(fuel)) {
                Ok(_) => Ok(()),
                Err(e) => Err(e),
            },
        }
    }

    /// Runs the children of `id` in scope `scope`, then returns to the
    /// current scope; where they stop, by [`block_outcome`], as that says.
    pub fn execute_block(&mut self, id: NodeId, scope: usize) -> (r: Result<(), CiprError>)
        requires
            old(self).wf(),
            scope < old(self).scope_models().len(),
        ensures
            budget_spent(r, final(self)),
            Self::kept(old(self), final(self)),
            block_outcome(old(self).nodes(), old(self).scope_models(), scope as int, id) matches Some(o) ==> follows(
                r,
                o,
                final(self).scope_models(),
                old(self).printed(),
                final(self).printed(),
            ),
    {
        let ghost fuel = block_fuel(self.nodes(), self.scope_models(), scope as int, id);
        self.run_block(id, scope, Ghost(fuel))
    }

    /// Runs the children of `id` in scope `scope`, as [`exec_children`]
    /// says with `fuel`, then returns to the current scope.
    fn run_block(&mut self, id: NodeId, scope: usize, Ghost(fuel): Ghost<nat>) -> (r: Result<(), CiprError>)
        requires
            old(self).wf(),
            scope < old(self).scope_models().len(),
        ensures
            budget_spent(r, final(self)),
            Self::kept(old(self), final(self)),
            exec_children(old(self).nodes(), old(self).scope_models(), scope as int, id, child_count(old(self).nodes(), id), fuel)
                matches Some(o) ==> follows(r, o, final(self).scope_models(), old(self).printed(), final(self).printed()),
        decreases old(self).steps(), 1nat,
    {
        let previous = self.environment;
        self.environment = scope;
        let n = self.kids_len(id);
        let ghost nodes = old(self).nodes();
        let ghost s0 = old(self).scope_models();
        let ghost env = scope as int;
        let ghost p0 = old(self).printed();
        let ghost total = exec_children(nodes, s0, env, id, n as nat, fuel);
        let mut i: usize = 0;
        let mut result: Result<(), CiprError> = Ok(());
        while i < n && result.is_ok()
            invariant
                self.wf(),
                old(self).output@.is_prefix_of(self.output@),
                self.steps_left <= old(self).steps_left,
                self.environment == scope,
                arena_nodes(self.arena) == arena_nodes(old(self).arena),
                old(self).scopes.view_scopes().len() <= self.scopes.view_scopes().len(),
                previous == old(self).environment,
                i <= n,
                n == child_count(nodes, id),
                nodes == old(self).nodes(),
                s0 == old(self).scope_models(),
                env == scope as int,
                p0 == old(self).printed(),
                total == exec_children(nodes, s0, env, id, n as nat, fuel),
                budget_spent(result, self),
                total is Some ==> (exec_children(nodes, s0, env, id, i as nat, fuel) matches Some(o) && follows(
                    result,
                    o,
                    self.scope_models(),
                    p0,
                    self.printed(),
                )),
            decreases n - i,
        {
            proof {
                if total is Some {
                    lemma_exec_children_prefix(nodes, s0, env, id, (i + 1) as nat, n as nat, fuel);
                }
            }
            let c = self.kid(id, i);
            if let Some(c) = c {
                proof {
                    lemma_child_measure(nodes, id, i as int);
                }
                result = self.execute(c, Ghost(fuel));
            }
            i = i + 1;
        }
        proof {
            if total is Some && i < n && result is Err && !(result matches Err(CiprError::StepLimit)) {
                lemma_exec_children_stop(nodes, s0, env, id, i as nat, n as nat, fuel);
            }
        }
        self.environment = previous;
        result
    }

    fn visit_stmt_list(&mut self, id: NodeId, Ghost(fuel): Ghost<nat>) -> (r: Result<(), CiprError>)
        requires
            old(self).wf(),
            id.0 < old(self).nodes().len(),
            old(self).nodes()[id.0 as int].node_type == NodeType::StmtList || old(self).nodes()[id.0 as int].node_type
                == NodeType::StmtInclude,
        ensures
            budget_spent(r, final(self)),
            Self::kept(old(self), final(self)),
            old(self).outcome(id, fuel) matches Some(o) ==> follows(
                r,
                o,
                final(self).scope_models(),
                old(self).printed(),
                final(self).printed(),
            ),
        decreases old(self).steps(), 2nat,
    {
        let env = self.environment;
        self.run_block(id, env, Ghost(fuel))
    }

    fn visit_var_declaration(&mut self, id: NodeId, Ghost(fuel): Ghost<nat>) -> (r: Result<(), CiprError>)
        requires
            old(self).wf(),
            id.0 < old(self).nodes().len(),
            old(self).nodes()[id.0 as int].node_type == NodeType::StmtVarDecl,
        ensures
            budget_spent(r, final(self)),
            Self::kept(old(self), final(self)),
            old(self).outcome(id, fuel) matches Some(o) ==> follows(
                r,
                o,
                final(self).scope_models(),
                old(self).printed(),
                final(self).printed(),
            ),
        decreases old(self).steps(), 2nat,
    {
        let name = self.token_of(id).lexeme;
        let value = match self.evaluate_kid(id, 0, Ghost(fuel)) {
            Ok(v) => v,
            Err(e) => return Err(e),
        };
        self.scopes.define(self.environment, name.as_str(), value);
        Ok(())
    }

    fn visit_expression_stmt(&mut self, id: NodeId, Ghost(fuel): Ghost<nat>) -> (r: Result<(), CiprError>)
        requires
            old(self).wf(),
            id.0 < old(self).nodes().len(),
            old(self).nodes()[id.0 as int].node_type == NodeType::StmtExpr,
        ensures
            budget_spent(r, final(self)),
            Self::kept(old(self), final(self)),
            old(self).outcome(id, fuel) matches Some(o) ==> follows(
                r,
                o,
                final(self).scope_models(),
                old(self).printed(),
                final(self).printed(),
            ),
        decreases old(self).steps(), 2nat,
    {
        match self.evaluate_kid(id, 0, Ghost(fuel)) {
            Ok(_) => Ok(()),
            Err(e) => Err(e),
        }
    }

    fn visit_block_stmt(&mut self, id: NodeId, Ghost(fuel): Ghost<nat>) -> (r: Result<(), CiprError>)
        requires
            old(self).wf(),
            id.0 < old(self).nodes().len(),
            old(self).nodes()[id.0 as int].node_type == NodeType::StmtBlock,
        ensures
            budget_spent(r, final(self)),
            Self::kept(old(self), final(self)),
            old(self).outcome(id, fuel) matches Some(o) ==> follows(
                r,
                o,
                final(self).scope_models(),
                old(self).printed(),
                final(self).printed(),
            ),
        decreases old(self).steps(), 2nat,
    {
        if self.scopes.len() == usize::MAX {
            return Err(self.runtime_error(id, "Too many scopes."));
        }
        let block = self.scopes.with_enclosing(self.environment);
        self.run_block(id, block, Ghost(fuel))
    }

    fn visit_if_stmt(&mut self, id: NodeId, Ghost(fuel): Ghost<nat>) -> (r: Result<(), CiprError>)
        requires
            old(self).wf(),
            id.0 < old(self).nodes().len(),
            old(self).nodes()[id.0 as int].node_type == NodeType::StmtIf,
        ensures
            budget_spent(r, final(self)),
            Self::kept(old(self), final(self)),
            old(self).outcome(id, fuel) matches Some(o) ==> follows(
                r,
                o,
                final(self).scope_models(),
                old(self).printed(),
                final(self).printed(),
            ),
        decreases old(self).steps(), 2nat,
    {
        let condition = self.kid(id, 0);
        let then_branch = self.kid(id, 1);
        let else_branch = self.kid(id, 2);
        if condition.is_some() {
            let val = match self.evaluate_kid(id, 0, Ghost(fuel)) {
                Ok(v) => v,
                Err(e) => return Err(e),
            };
            let ghost s1 = self.scope_models();
            proof {
                let nodes = self.nodes();
                let env = self.current();
                if then_branch is Some {
                    lemma_child_measure(nodes, id, 1);
                }
                if else_branch is Some {
                    lemma_child_measure(nodes, id, 2);
                }
                assert(exec_child(nodes, s1, env, id, 1, fuel) == match then_branch {
                    Some(t) => exec_node(nodes, s1, env, t, fuel),
                    None => Some(quiet(s1)),
                });
                assert(exec_child(nodes, s1, env, id, 2, fuel) == match else_branch {
                    Some(t) => exec_node(nodes, s1, env, t, fuel),
                    None => Some(quiet(s1)),
                });
            }
            if val.is_truthy() {
                if let Some(then_id) = then_branch {
                    return self.execute(then_id, Ghost(fuel));
                }
            } else if let Some(else_id) = else_branch {
                return self.execute(else_id, Ghost(fuel));
            }
        }
        Ok(())
    }

    fn visit_while_stmt(&mut self, id: NodeId, Ghost(fuel): Ghost<nat>) -> (r: Result<(), CiprError>)
        requires
            old(self).wf(),
            id.0 < old(self).nodes().len(),
            old(self).nodes()[id.0 as int].node_type == NodeType::StmtWhile,
        ensures
            budget_spent(r, final(self)),
            Self::kept(old(self), final(self)),
            old(self).outcome(id, fuel) matches Some(o) ==> follows(
                r,
                o,
                final(self).scope_models(),
                old(self).printed(),
                final(self).printed(),
            ),
        decreases old(self).steps(), 2nat,
    {
        let condition = self.kid(id, 0);
        let body = self.kid(id, 1);
        let ghost nodes = old(self).nodes();
        let ghost env = old(self).current();
        let ghost p0 = old(self).printed();
        let ghost total = old(self).outcome(id, fuel);
        if let (Some(cond_id), Some(body_id)) = (condition, body) {
            let ghost mut f: nat = fuel;
            let ghost mut done: Seq<char> = Seq::empty();
            proof {
                lemma_child_measure(nodes, id, 0);
                lemma_child_measure(nodes, id, 1);
            }
            let mut going = true;
            let mut result: Result<(), CiprError> = Ok(());
            while going
                invariant
                    Self::kept(old(self), self),
                    !going || result is Ok,
                    budget_spent(result, self),
                    nodes == self.nodes(),
                    env == self.current(),
                    p0 == old(self).printed(),
                    self.printed() == p0 + done,
                    id.0 < nodes.len(),
                    nodes[id.0 as int].node_type == NodeType::StmtWhile,
                    child_at(nodes, id, 0) == Some(cond_id),
                    child_at(nodes, id, 1) == Some(body_id),
                    measure(nodes, cond_id) < measure(nodes, id),
                    measure(nodes, body_id) < measure(nodes, id),
                    total == old(self).outcome(id, fuel),
                    total is Some ==> going ==> (exec_node(nodes, self.scope_models(), env, id, f) matches Some(rest)
                        && total->0.result == rest.result && total->0.scopes == rest.scopes && total->0.out == done
                        + rest.out),
                    total is Some ==> !going ==> follows(result, total->0, self.scope_models(), p0, self.printed()),
                decreases self.steps_left as int + (if going { 1int } else { 0int }),
            {
                let ghost d = done;
                let ghost g = f;
                let ghost s = self.scope_models();
                match self.evaluate_kid(id, 0, Ghost(g)) {
                    Ok(v) => {
                        let ghost s1 = self.scope_models();
                        proof {
                            assert(exec_child(nodes, s1, env, id, 1, g) == exec_node(nodes, s1, env, body_id, g));
                        }
                        if v.is_truthy() {
                            match self.execute(body_id, Ghost(g)) {
                                Ok(()) => {
                                    proof {
                                        if total is Some {
                                            let e = eval_child(nodes, s, env, id, 0, g)->0;
                                            let b = exec_node(nodes, s1, env, body_id, g)->0;
                                            done = d + e.out + b.out;
                                            f = (g - 1) as nat;
                                        }
                                    }
                                },
                                Err(e) => {
                                    result = Err(e);
                                    going = false;
                                },
                            }
                        } else {
                            going = false;
                        }
                    },
                    Err(e) => {
                        result = Err(e);
                        going = false;
                    },
                }
                proof {
                    if !(total is Some && going) {
                        done = self.printed().subrange(p0.len() as int, self.printed().len() as int);
                        assert(self.printed() =~= p0 + done);
                    }
                }
            }
            result
        } else {
            Ok(())
        }
    }

    fn visit_function_stmt(&mut self, id: NodeId, Ghost(fuel): Ghost<nat>) -> (r: Result<(), CiprError>)
        requires
            old(self).wf(),
            id.0 < old(self).nodes().len(),
            old(self).nodes()[id.0 as int].node_type == NodeType::StmtFunction,
        ensures
            budget_spent(r, final(self)),
            Self::kept(old(self), final(self)),
            old(self).outcome(id, fuel) matches Some(o) ==> follows(
                r,
                o,
                final(self).scope_models(),
                old(self).printed(),
                final(self).printed(),
            ),
        decreases old(self).steps(), 2nat,
    {
        let name = self.token_of(id).lexeme;
        let n = self.kids_len(id);
        let param_count: usize = if n > 0 { n - 1 } else { 0 };
        let func = NamedFunction::new(name.clone(), param_count, id, self.environment);
        self.scopes.define(self.environment, name.as_str(), RuntimeValue::Function(func));
        Ok(())
    }

    fn visit_return_stmt(&mut self, id: NodeId, Ghost(fuel): Ghost<nat>) -> (r: Result<(), CiprError>)
        requires
            old(self).wf(),
            id.0 < old(self).nodes().len(),
            old(self).nodes()[id.0 as int].node_type == NodeType::StmtReturn,
        ensures
            budget_spent(r, final(self)),
            Self::kept(old(self), final(self)),
            old(self).outcome(id, fuel) matches Some(o) ==> follows(
                r,
                o,
                final(self).scope_models(),
                old(self).printed(),
                final(self).printed(),
            ),
        decreases old(self).steps(), 2nat,
    {
        let value = match self.evaluate_kid(id, 0, Ghost(fuel)) {
            Ok(x) => x,
            Err(e) => return Err(e),
        };
        Err(CiprError::Return(value))
    }
}

} // verus!

verus! {

impl Interpreter {
    // ── Expressions ──

    /// Evaluates the expression `id`, as [`eval_node`] says with `fuel`.
    fn evaluate(&mut self, id: NodeId, Ghost(fuel): Ghost<nat>) -> (r: Result<RuntimeValue, CiprError>)
        requires
            old(self).wf(),
        ensures
            budget_spent(r, final(self)),
            Self::kept(old(self), final(self)),
            r is Ok ==> final(self).steps() < old(self).steps(),
            old(self).evaluation(id, fuel) matches Some(e) ==> yields(
                r,
                e,
                final(self).scope_models(),
                old(self).printed(),
                final(self).printed(),
            ),
        decreases old(self).steps(), 0nat,
    {
        if !self.spend() {
            return Err(CiprError::StepLimit);
        }
        let kind = match self.node(id) {
            Some(n) => n.node_type,
            None => return Ok(RuntimeValue::Null),
        };
        match kind {
            NodeType::Literal => self.visit_literal(id, Ghost(fuel)),
            NodeType::Grouping => self.evaluate_kid(id, 0, Ghost(fuel)),
            NodeType::Unary => self.visit_unary(id, Ghost(fuel)),
            NodeType::Binary => self.visit_binary(id, Ghost(fuel)),
            NodeType::VarExpr => self.visit_var_expr(id, Ghost(fuel)),
            NodeType::Assign => self.visit_assignment_expr(id, Ghost(fuel)),
            NodeType::Logical => self.visit_logical_expr(id, Ghost(fuel)),
            NodeType::Call => self.visit_call_expr(id, Ghost(fuel)),
            NodeType::Array => self.visit_array_expr(id, Ghost(fuel)),
            NodeType::IndexGet => self.visit_index_get(id, Ghost(fuel)),
            _ => Ok(RuntimeValue::Null),
        }
    }

    /// Evaluates the `k`-th child of `id`, or gives null where there is none.
    fn evaluate_kid(&mut self, id: NodeId, k: usize, Ghost(fuel): Ghost<nat>) -> (r: Result<RuntimeValue, CiprError>)
        requires
            old(self).wf(),
        ensures
            budget_spent(r, final(self)),
            Self::kept(old(self), final(self)),
            eval_child(old(self).nodes(), old(self).scope_models(), old(self).current(), id, k as int, fuel) matches Some(
                e,
            ) ==> yields(r, e, final(self).scope_models(), old(self).printed(), final(self).printed()),
        decreases old(self).steps(), 1nat,
    {
        match self.kid(id, k) {
            Some(c) => self.evaluate(c, Ghost(fuel)),
            None => Ok(RuntimeValue::Null),
        }
    }

    fn visit_literal(&mut self, id: NodeId, Ghost(fuel): Ghost<nat>) -> (r: Result<RuntimeValue, CiprError>)
        requires
            old(self).wf(),
            id.0 < old(self).nodes().len(),
            old(self).nodes()[id.0 as int].node_type == NodeType::Literal,
        ensures
            budget_spent(r, final(self)),
            Self::kept(old(self), final(self)),
            old(self).evaluation(id, fuel) matches Some(e) ==> yields(
                r,
                e,
                final(self).scope_models(),
                old(self).printed(),
                final(self).printed(),
            ),
        decreases old(self).steps(), 2nat,
    {
        match self.node(id) {
            Some(n) => match RuntimeValue::from_parse_value(&n.value) {
                Some(v) => Ok(v),
                None => Err(self.runtime_error(id, "Floating-point values are not supported by this interpreter.")),
            },
            None => Ok(RuntimeValue::Null),
        }
    }

    fn visit_unary(&mut self, id: NodeId, Ghost(fuel): Ghost<nat>) -> (r: Result<RuntimeValue, CiprError>)
        requires
            old(self).wf(),
            id.0 < old(self).nodes().len(),
            old(self).nodes()[id.0 as int].node_type == NodeType::Unary,
        ensures
            budget_spent(r, final(self)),
            Self::kept(old(self), final(self)),
            old(self).evaluation(id, fuel) matches Some(e) ==> yields(
                r,
                e,
                final(self).scope_models(),
                old(self).printed(),
                final(self).printed(),
            ),
        decreases old(self).steps(), 2nat,
    {
        let op = self.token_of(id).token_type;
        let right = match self.evaluate_kid(id, 0, Ghost(fuel)) {
            Ok(v) => v,
            Err(e) => return Err(e),
        };
        match unary_op(op, &right) {
            Ok(v) => Ok(v),
            Err(m) => Err(self.runtime_error(id, m.as_str())),
        }
    }

    fn visit_binary(&mut self, id: NodeId, Ghost(fuel): Ghost<nat>) -> (r: Result<RuntimeValue, CiprError>)
        requires
            old(self).wf(),
            id.0 < old(self).nodes().len(),
            old(self).nodes()[id.0 as int].node_type == NodeType::Binary,
        ensures
            budget_spent(r, final(self)),
            Self::kept(old(self), final(self)),
            old(self).evaluation(id, fuel) matches Some(e) ==> yields(
                r,
                e,
                final(self).scope_models(),
                old(self).printed(),
                final(self).printed(),
            ),
        decreases old(self).steps(), 2nat,
    {
        let op = self.token_of(id).token_type;
        let left = match self.evaluate_kid(id, 0, Ghost(fuel)) {
            Ok(v) => v,
            Err(e) => return Err(e),
        };
        let right = match self.evaluate_kid(id, 1, Ghost(fuel)) {
            Ok(v) => v,
            Err(e) => return Err(e),
        };
        match binary_op(op, &left, &right) {
            Ok(v) => Ok(v),
            Err(m) => Err(self.runtime_error(id, m.as_str())),
        }
    }

    fn visit_var_expr(&mut self, id: NodeId, Ghost(fuel): Ghost<nat>) -> (r: Result<RuntimeValue, CiprError>)
        requires
            old(self).wf(),
            id.0 < old(self).nodes().len(),
            old(self).nodes()[id.0 as int].node_type == NodeType::VarExpr,
        ensures
            budget_spent(r, final(self)),
            Self::kept(old(self), final(self)),
            old(self).evaluation(id, fuel) matches Some(e) ==> yields(
                r,
                e,
                final(self).scope_models(),
                old(self).printed(),
                final(self).printed(),
            ),
        decreases old(self).steps(), 2nat,
    {
        let token = self.token_of(id);
        match self.scopes.get(self.environment, token.lexeme.as_str()) {
            Ok(v) => Ok(v),
            Err(m) => Err(CiprError::RuntimeError { token, message: m }),
        }
    }

    fn visit_assignment_expr(&mut self, id: NodeId, Ghost(fuel): Ghost<nat>) -> (r: Result<RuntimeValue, CiprError>)
        requires
            old(self).wf(),
            id.0 < old(self).nodes().len(),
            old(self).nodes()[id.0 as int].node_type == NodeType::Assign,
        ensures
            budget_spent(r, final(self)),
            Self::kept(old(self), final(self)),
            old(self).evaluation(id, fuel) matches Some(e) ==> yields(
                r,
                e,
                final(self).scope_models(),
                old(self).printed(),
                final(self).printed(),
            ),
        decreases old(self).steps(), 2nat,
    {
        let token = self.token_of(id);
        let value = match self.evaluate_kid(id, 0, Ghost(fuel)) {
            Ok(v) => v,
            Err(e) => return Err(e),
        };
        match self.scopes.assign(self.environment, token.lexeme.as_str(), value.duplicate()) {
            Ok(()) => Ok(value),
            Err(m) => Err(CiprError::RuntimeError { token, message: m }),
        }
    }

    fn visit_logical_expr(&mut self, id: NodeId, Ghost(fuel): Ghost<nat>) -> (r: Result<RuntimeValue, CiprError>)
        requires
            old(self).wf(),
            id.0 < old(self).nodes().len(),
            old(self).nodes()[id.0 as int].node_type == NodeType::Logical,
        ensures
            budget_spent(r, final(self)),
            Self::kept(old(self), final(self)),
            old(self).evaluation(id, fuel) matches Some(e) ==> yields(
                r,
                e,
                final(self).scope_models(),
                old(self).printed(),
                final(self).printed(),
            ),
        decreases old(self).steps(), 2nat,
    {
        let op = self.token_of(id).token_type;
        let left = match self.evaluate_kid(id, 0, Ghost(fuel)) {
            Ok(v) => v,
            Err(e) => return Err(e),
        };
        if op == TokenType::Or && left.is_truthy() {
            return Ok(left);
        }
        if op == TokenType::And && !left.is_truthy() {
            return Ok(left);
        }
        self.evaluate_kid(id, 1, Ghost(fuel))
    }

    fn visit_array_expr(&mut self, id: NodeId, Ghost(fuel): Ghost<nat>) -> (r: Result<RuntimeValue, CiprError>)
        requires
            old(self).wf(),
            id.0 < old(self).nodes().len(),
            old(self).nodes()[id.0 as int].node_type == NodeType::Array,
        ensures
            budget_spent(r, final(self)),
            Self::kept(old(self), final(self)),
            old(self).evaluation(id, fuel) matches Some(e) ==> yields(
                r,
                e,
                final(self).scope_models(),
                old(self).printed(),
                final(self).printed(),
            ),
        decreases old(self).steps(), 2nat,
    {
        let n = self.kids_len(id);
        let ghost nodes = old(self).nodes();
        let ghost s0 = old(self).scope_models();
        let ghost env = old(self).current();
        let ghost p0 = old(self).printed();
        let ghost total = eval_args(nodes, s0, env, id, 0, n as nat, fuel);
        proof {
            assert(old(self).evaluation(id, fuel) == match total {
                Some(items) => Some(
                    Evaluation {
                        result: match items.result {
                            Ok(values) => Ok(SpecRuntime::Items(values)),
                            Err(m) => Err(m),
                        },
                        scopes: items.scopes,
                        out: items.out,
                    },
                ),
                None => None,
            });
        }
        let mut elements: Vec<RuntimeValue> = Vec::new();
        let mut i: usize = 0;
        while i < n
            invariant
                Self::kept(old(self), self),
                nodes == self.nodes(),
                nodes == old(self).nodes(),
                s0 == old(self).scope_models(),
                env == old(self).current(),
                p0 == old(self).printed(),
                id.0 < nodes.len(),
                n == nodes[id.0 as int].children@.len(),
                i <= n,
                total == eval_args(nodes, s0, env, id, 0, n as nat, fuel),
                old(self).evaluation(id, fuel) == match total {
                    Some(items) => Some(
                        Evaluation {
                            result: match items.result {
                                Ok(values) => Ok(SpecRuntime::Items(values)),
                                Err(m) => Err(m),
                            },
                            scopes: items.scopes,
                            out: items.out,
                        },
                    ),
                    None => None,
                },
                total is Some ==> (eval_args(nodes, s0, env, id, 0, i as nat, fuel) matches Some(it) && it.result
                    matches Ok(values) && values.len() == elements@.len() && (forall|j: int|
                    0 <= j < values.len() ==> values[j] == (#[trigger] elements@[j])@) && self.scope_models()
                    == it.scopes && self.printed() == p0 + it.out),
            decreases n - i,
        {
            proof {
                if total is Some {
                    lemma_eval_args_prefix(nodes, s0, env, id, 0, (i + 1) as nat, n as nat, fuel);
                }
            }
            let c = self.kid(id, i);
            if let Some(c) = c {
                proof {
                    lemma_child_measure(nodes, id, i as int);
                }
                match self.evaluate(c, Ghost(fuel)) {
                    Ok(v) => elements.push(v),
                    Err(e) => {
                        proof {
                            if total is Some && e is RuntimeError {
                                let it = eval_args(nodes, s0, env, id, 0, i as nat, fuel)->0;
                                let ec = eval_node(nodes, it.scopes, env, c, fuel);
                                lemma_eval_args_stop(nodes, s0, env, id, 0, (i + 1) as nat, n as nat, fuel);
                                lemma_output_grouping(p0, it.out, ec->0.out);
                            }
                        }
                        return Err(e);
                    },
                }
            }
            i = i + 1;
        }
        let ghost ev = elements@;
        let r = RuntimeValue::Array(elements);
        proof {
            if total is Some {
                let values = total->0.result->Ok_0;
                assert(r@->Items_0 =~= values) by {
                    assert forall|j: int| 0 <= j < values.len() implies (r@->Items_0)[j] == values[j] by {
                        assert(values[j] == ev[j]@);
                    }
                }
            }
        }
        Ok(r)
    }

    fn visit_index_get(&mut self, id: NodeId, Ghost(fuel): Ghost<nat>) -> (r: Result<RuntimeValue, CiprError>)
        requires
            old(self).wf(),
            id.0 < old(self).nodes().len(),
            old(self).nodes()[id.0 as int].node_type == NodeType::IndexGet,
        ensures
            budget_spent(r, final(self)),
            Self::kept(old(self), final(self)),
            old(self).evaluation(id, fuel) matches Some(e) ==> yields(
                r,
                e,
                final(self).scope_models(),
                old(self).printed(),
                final(self).printed(),
            ),
        decreases old(self).steps(), 2nat,
    {
        let target = match self.evaluate_kid(id, 0, Ghost(fuel)) {
            Ok(v) => v,
            Err(e) => return Err(e),
        };
        let index = match self.evaluate_kid(id, 1, Ghost(fuel)) {
            Ok(v) => v,
            Err(e) => return Err(e),
        };
        match target {
            RuntimeValue::Array(elems) => match index {
                RuntimeValue::Int(k) => {
                    if k < 0 || k as u64 >= elems.len() as u64 {
                        Err(self.runtime_error(id, "Array index out of bounds."))
                    } else {
                        Ok(elems[k as usize].duplicate())
                    }
                },
                _ => Err(self.runtime_error(id, "Index must be an int.")),
            },
            _ => Err(self.runtime_error(id, "Only arrays can be indexed.")),
        }
    }

    // ── Calls ──

    fn visit_call_expr(&mut self, id: NodeId, Ghost(fuel): Ghost<nat>) -> (r: Result<RuntimeValue, CiprError>)
        requires
            old(self).wf(),
            id.0 < old(self).nodes().len(),
            old(self).nodes()[id.0 as int].node_type == NodeType::Call,
        ensures
            budget_spent(r, final(self)),
            Self::kept(old(self), final(self)),
            old(self).evaluation(id, fuel) matches Some(e) ==> yields(
                r,
                e,
                final(self).scope_models(),
                old(self).printed(),
                final(self).printed(),
            ),
        decreases old(self).steps(), 4nat,
    {
        let ghost nodes = old(self).nodes();
        let ghost s0 = old(self).scope_models();
        let ghost env = old(self).current();
        let ghost p0 = old(self).printed();
        let ghost total = old(self).evaluation(id, fuel);
        let callee = match self.evaluate_kid(id, 0, Ghost(fuel)) {
            Ok(v) => v,
            Err(e) => return Err(e),
        };
        let ghost first = eval_child(nodes, s0, env, id, 0, fuel);
        let ghost s1 = self.scope_models();
        let ghost p1 = self.printed();
        let n = self.kids_len(id);
        let ghost items = eval_args(nodes, s1, env, id, 1, n as nat, fuel);
        proof {
            if total is Some {
                assert(first is Some && first->0.result == Ok::<SpecRuntime, Seq<char>>(callee@));
                assert(s1 == first->0.scopes && p1 == p0 + first->0.out);
            }
        }
        let mut arguments: Vec<RuntimeValue> = Vec::new();
        let mut i: usize = 1;
        while i < n
            invariant
                Self::kept(old(self), self),
                nodes == self.nodes(),
                nodes == old(self).nodes(),
                env == old(self).current(),
                id.0 < nodes.len(),
                n == nodes[id.0 as int].children@.len(),
                1 <= i,
                i <= n || i == 1,
                p0 == old(self).printed(),
                total == old(self).evaluation(id, fuel),
                items == eval_args(nodes, s1, env, id, 1, n as nat, fuel),
                total is Some ==> first is Some && p1 == p0 + first->0.out,
                total is Some ==> total == match items {
                    Some(it) => match it.result {
                        Ok(args) => match call_result(nodes, it.scopes, callee@, args, fuel) {
                            Some(c) => Some(
                                Evaluation { result: c.result, scopes: c.scopes, out: first->0.out + it.out + c.out },
                            ),
                            None => None,
                        },
                        Err(m) => Some(Evaluation { result: Err(m), scopes: it.scopes, out: first->0.out + it.out }),
                    },
                    None => None,
                },
                total is Some ==> items is Some,
                items is Some ==> (eval_args(nodes, s1, env, id, 1, i as nat, fuel) matches Some(it) && it.result
                    matches Ok(values) && values.len() == arguments@.len() && (forall|j: int|
                    0 <= j < values.len() ==> values[j] == (#[trigger] arguments@[j])@) && self.scope_models()
                    == it.scopes && self.printed() == p1 + it.out),
            decreases n - i,
        {
            proof {
                if items is Some {
                    lemma_eval_args_prefix(nodes, s1, env, id, 1, (i + 1) as nat, n as nat, fuel);
                }
            }
            let c = self.kid(id, i);
            if let Some(c) = c {
                proof {
                    lemma_child_measure(nodes, id, i as int);
                }
                match self.evaluate(c, Ghost(fuel)) {
                    Ok(v) => arguments.push(v),
                    Err(e) => {
                        proof {
                            assert(total is Some ==> yields(Err(e), total->0, self.scope_models(), p0, self.printed()))
                                by {
                                if total is Some {
                                    let it = eval_args(nodes, s1, env, id, 1, i as nat, fuel)->0;
                                    let ec = eval_node(nodes, it.scopes, env, c, fuel);
                                    assert(ec is Some);
                                    if e is RuntimeError {
                                        lemma_eval_args_stop(nodes, s1, env, id, 1, (i + 1) as nat, n as nat, fuel);
                                        assert(self.printed() =~= p0 + (first->0.out + (it.out + ec->0.out)));
                                    }
                                }
                            }
                        }
                        return Err(e);
                    },
                }
            }
            i = i + 1;
        }
        let ghost args = arguments_view(arguments@);
        let ghost it = items->0;
        let ghost s2 = self.scope_models();
        let ghost p2 = self.printed();
        proof {
            if items is Some {
                assert(eval_args(nodes, s1, env, id, 1, i as nat, fuel) == items);
                assert(it.result->Ok_0 =~= args);
                assert(p2 == p1 + it.out);
            }
        }
        let arity = match &callee {
            RuntimeValue::Function(f) => f.arity(),
            RuntimeValue::Native(f) => f.arity(),
            _ => {
                proof {
                    if total is Some {
                        assert(self.printed() =~= p0 + (first->0.out + it.out + Seq::<char>::empty()));
                    }
                }
                return Err(self.runtime_error(id, "Can only call functions and classes."));
            },
        };
        if arguments.len() != arity {
            let mut m = String::new();
            push_str(&mut m, "Expected ");
            push_decimal(&mut m, arity);
            push_str(&mut m, " arguments but got ");
            push_decimal(&mut m, arguments.len());
            push_str(&mut m, ".");
            proof {
                assert(m@ =~= arity_message(arity as nat, arguments@.len()));
                if total is Some {
                    assert(self.printed() =~= p0 + (first->0.out + it.out + Seq::<char>::empty()));
                }
            }
            return Err(self.runtime_error(id, m.as_str()));
        }
        match callee {
            RuntimeValue::Function(f) => {
                let r = self.call_function(&f, arguments, id, Ghost(fuel));
                proof {
                    if total is Some && !(r matches Err(CiprError::StepLimit)) {
                        let c = call_result(nodes, s2, callee@, args, fuel)->0;
                        assert(self.printed() =~= p0 + (first->0.out + it.out + c.out));
                    }
                }
                r
            },
            RuntimeValue::Native(f) => {
                let r = self.call_native(f, arguments, id);
                proof {
                    if total is Some {
                        let c = call_result(nodes, s2, callee@, args, fuel)->0;
                        assert(self.printed() =~= p0 + (first->0.out + it.out + c.out));
                    }
                }
                r
            },
            _ => Ok(RuntimeValue::Null),
        }
    }

    /// Calls a declared function, as [`call_result`] says with `fuel`: binds
    /// its parameters in a new scope inside the one it was declared in and
    /// runs its body there.
    fn call_function(&mut self, f: &NamedFunction, args: Vec<RuntimeValue>, call_id: NodeId, Ghost(fuel): Ghost<nat>) -> (r:
        Result<RuntimeValue, CiprError>)
        requires
            old(self).wf(),
            args@.len() == f.params(),
        ensures
            budget_spent(r, final(self)),
            Self::kept(old(self), final(self)),
            call_result(
                old(self).nodes(),
                old(self).scope_models(),
                function_value(f),
                arguments_view(args@),
                fuel,
            ) matches Some(e) ==> yields(r, e, final(self).scope_models(), old(self).printed(), final(self).printed()),
        decreases old(self).steps(), 3nat,
    {
        if self.scopes.len() == usize::MAX {
            return Err(self.runtime_error(call_id, "Too many scopes."));
        }
        let decl = f.declaration();
        let closure = if f.scope() < self.scopes.len() { f.scope() } else { 0 };
        let env = self.scopes.with_enclosing(closure);
        let n = self.kids_len(decl);
        let ghost nodes = old(self).nodes();
        let ghost pushed = self.scope_models();
        let ghost av = arguments_view(args@);
        let mut i: usize = 0;
        while i < f.arity() && i < args.len()
            invariant
                self.wf(),
                env < self.scopes.view_scopes().len(),
                env == pushed.len() - 1,
                old(self).output@ == self.output@,
                self.steps_left == old(self).steps_left,
                self.environment == old(self).environment,
                arena_nodes(self.arena) == arena_nodes(old(self).arena),
                nodes == old(self).nodes(),
                av == arguments_view(args@),
                args@.len() == f.params(),
                i <= args@.len(),
                self.scope_models() == bind_params(nodes, pushed, env as int, decl, av, i as nat),
                old(self).scopes.view_scopes().len() <= self.scopes.view_scopes().len(),
            decreases args@.len() - i,
        {
            if let Some(p) = self.kid(decl, i) {
                let p_name = self.token_of(p).lexeme;
                self.scopes.define(env, p_name.as_str(), args[i].duplicate());
            }
            i = i + 1;
        }
        let body = if n > 0 { self.kid(decl, n - 1) } else { None };
        let ghost inner: nat = if fuel > 0 { (fuel - 1) as nat } else { 0 };
        match body {
            Some(b) => match self.run_block(b, env, Ghost(inner)) {
                Ok(()) => Ok(RuntimeValue::Null),
                Err(CiprError::Return(v)) => Ok(v),
                Err(e) => Err(e),
            },
            None => Ok(RuntimeValue::Null),
        }
    }

    /// Calls a function that the interpreter provides. A function that
    /// works with the outside world takes the next answer at hand, or, where
    /// none is left, leaves its call waiting and stops the run.
    fn call_native(&mut self, f: NativeFn, args: Vec<RuntimeValue>, call_id: NodeId) -> (r: Result<
        RuntimeValue,
        CiprError,
    >)
        requires
            old(self).wf(),
            args@.len() == value::native_arity(f),
        ensures
            is_io_native(f) ==> if old(self).replies_used() < old(self).replies_view().len() {
                &&& final(self).replies_used() == old(self).replies_used() + 1
                &&& match old(self).replies_view()[old(self).replies_used() as int] {
                    SpecReply::Value(v) => r matches Ok(x) && x@ == v,
                    SpecReply::Failure(m) => r matches Err(CiprError::RuntimeError { message, .. }) && message@ == m,
                }
            } else {
                &&& r matches Err(CiprError::Suspended)
                &&& final(self).pending() == Some((f, arguments_view(args@)))
            },
            r matches Err(CiprError::Suspended) ==> is_io_native(f),
            final(self).replies_view() == old(self).replies_view(),
            f == NativeFn::Rand ==> match args@[0]@ {
                SpecRuntime::Int(max) => if max > 0 {
                    r matches Ok(x) && x@ matches SpecRuntime::Int(n) && 0 <= n < max
                } else {
                    r matches Ok(x) && x@ == SpecRuntime::Int(0)
                },
                _ => r matches Ok(x) && x@ == SpecRuntime::Int(0),
            },
            budget_spent(r, final(self)),
            Self::kept(old(self), final(self)),
            f == NativeFn::Print ==> final(self).printed() == old(self).printed() + stringify(args@[0]@) + "\n"@,
            f == NativeFn::Print ==> (r matches Ok(x) && x@ == SpecRuntime::Null),
            f != NativeFn::Print ==> final(self).printed() == old(self).printed(),
            final(self).scope_models() == old(self).scope_models(),
            native_result(f, arguments_view(args@)) matches Some(v) ==> (r matches Ok(x) && x@ == v),
    {
        let ghost av = arguments_view(args@);
        match f {
            NativeFn::Print => {
                crate::native::NativePrint.call(&mut self.output, &args[0]);
                Ok(RuntimeValue::Null)
            },
            NativeFn::Size => Ok(crate::native::NativeSize.call(&args[0])),
            NativeFn::Trim => Ok(crate::native::NativeTrim.call(&args[0])),
            NativeFn::Split => {
                let r = crate::native::NativeSplit.call(&args[0], &args[1]);
                proof {
                    if let (SpecRuntime::Str(s), SpecRuntime::Str(d)) = (av[0], av[1]) {
                        assert(r@->Items_0 =~= split_spec(s, d).map_values(|piece: Seq<char>| SpecRuntime::Str(piece)));
                    }
                }
                Ok(r)
            },
            NativeFn::Extract => Ok(crate::native::NativeExtract.call(&args[0], &args[1], &args[2])),
            NativeFn::Hex => Ok(crate::native::NativeHex.call(&args[0])),
            NativeFn::Base64Encode => Ok(crate::native::NativeBase64Encode.call(&args[0])),
            NativeFn::Base64Decode => Ok(crate::native::NativeBase64Decode.call(&args[0])),
            NativeFn::Rand => {
                let mut recorded: Option<i64> = None;
                if self.draws_used < self.draws.len() {
                    recorded = Some(self.draws[self.draws_used]);
                }
                let v = match (recorded, &args[0]) {
                    (Some(d), RuntimeValue::Int(max)) => if 0 < *max && 0 <= d && d < *max {
                        RuntimeValue::Int(d)
                    } else {
                        crate::native::NativeRand.call(&args[0])
                    },
                    _ => crate::native::NativeRand.call(&args[0]),
                };
                if recorded.is_none() {
                    if let RuntimeValue::Int(n) = &v {
                        self.draws.push(*n);
                    }
                }
                if self.draws_used < self.draws.len() {
                    self.draws_used = self.draws_used + 1;
                }
                Ok(v)
            },
            _ => {
                if self.replies_used < self.replies.len() {
                    let k = self.replies_used;
                    self.replies_used = k + 1;
                    proof {
                        assert(self.replies_view()[k as int] == self.replies@[k as int]@);
                    }
                    match &self.replies[k] {
                        IoReply::Value(v) => Ok(v.duplicate()),
                        IoReply::Failure(m) => Err(self.runtime_error(call_id, m.as_str())),
                    }
                } else {
                    self.request = Some(IoRequest { native: f, args });
                    Err(CiprError::Suspended)
                }
            },
        }
    }

    /// Runs the program whose root is `root`; gives the report of a runtime
    /// error where the program fails, by [`report`]. Where the program
    /// stops, by [`run_outcome`], it does what that says.
    pub fn interpret(&mut self, root: NodeId) -> (r: Result<(), String>)
        requires
            old(self).wf(),
        ensures
            Self::kept(old(self), final(self)),
            r matches Err(m) ==> m@ == step_limit_report() || m@ == io_wait_report() || exists|message: Seq<char>|
                reports_error(m@, message),
            run_outcome(old(self).nodes(), old(self).scope_models(), old(self).current(), root) matches Some(o)
                ==> runs_as(r, o, old(self).printed(), final(self).printed(), final(self).steps() == 0),
    {
        let ghost fuel = run_fuel(self.nodes(), self.scope_models(), self.current(), root);
        let outcome = self.execute(root, Ghost(fuel));
        let r = report(&outcome);
        proof {
            match outcome {
                Err(CiprError::RuntimeError { token, message }) => {
                    let line = token.line as nat;
                    assert(r->Err_0@ == error_report(message@, line));
                    assert(reports_error(r->Err_0@, message@));
                },
                _ => {},
            }
        }
        r
    }
}

/// A run stopped for want of steps only once all of them were spent.
pub open spec fn budget_spent<T>(r: Result<T, CiprError>, i: &Interpreter) -> bool {
    r matches Err(CiprError::StepLimit) ==> i.steps() == 0
}

/// The value of a declared function.
pub open spec fn function_value(f: &NamedFunction) -> SpecRuntime {
    SpecRuntime::Function(f.name_view(), f.params() as int, f.decl().0 as int, f.closure_scope() as int)
}

/// The values of a list of run-time values.
pub open spec fn arguments_view(args: Seq<RuntimeValue>) -> Seq<SpecRuntime> {
    Seq::new(args.len(), |i: int| args[i]@)
}

/// Whether a run that reported `r` and printed `printed` after `before`
/// did what `o` says: printed `o.out` and reported nothing where `o` ends
/// normally, or the message of the error `o` stops with; or, where `spent`
/// says that every step of its budget was taken, reported that.
pub open spec fn runs_as(r: Result<(), String>, o: Outcome, before: Seq<char>, printed: Seq<char>, spent: bool) -> bool {
    ||| (r matches Err(t) && t@ == step_limit_report() && spent)
    ||| (r is Ok && (o.result is Ok || o.result matches Err(Stop::Return(_))) && printed == before + o.out)
    ||| (r matches Err(t) && o.result matches Err(Stop::Fail(m)) && printed == before + o.out && reports_error(t@, m))
}

/// Whether `text` reports a runtime error with `message`, at some line.
pub open spec fn reports_error(text: Seq<char>, message: Seq<char>) -> bool {
    exists|line: nat| text == error_report(message, line)
}

/// The report of a runtime error with `message` at line `line`.
pub open spec fn error_report(message: Seq<char>, line: nat) -> Seq<char> {
    "Runtime Error: "@ + message + "\n[line "@ + decimal_text(line) + "]"@
}

/// The report of a run that stopped at a call that waits for an answer
/// from the outside world.
pub open spec fn io_wait_report() -> Seq<char> {
    "Runtime Error: Waiting for an answer from the outside world."@
}

/// The report of a run that spent its step budget.
pub open spec fn step_limit_report() -> Seq<char> {
    "Runtime Error: Step limit reached."@
}

/// What a run that ended with `outcome` reports: nothing where it ran to
/// the end or returned from the top level, the message and line of a
/// runtime error, or that the step budget was spent.
pub fn report(outcome: &Result<(), CiprError>) -> (r: Result<(), String>)
    ensures
        match outcome {
            Ok(()) => r is Ok,
            Err(CiprError::Return(_)) => r is Ok,
            Err(CiprError::RuntimeError { token, message }) => r matches Err(m) && m@ == error_report(
                message@,
                token.line as nat,
            ),
            Err(CiprError::StepLimit) => r matches Err(m) && m@ == step_limit_report(),
            Err(CiprError::Suspended) => r matches Err(m) && m@ == io_wait_report(),
        },
{
    match outcome {
        Ok(()) => Ok(()),
        Err(CiprError::Return(_)) => Ok(()),
        Err(CiprError::RuntimeError { token, message }) => {
            let mut m = String::new();
            push_str(&mut m, "Runtime Error: ");
            push_str(&mut m, message.as_str());
            push_str(&mut m, "\n[line ");
            push_decimal(&mut m, token.line);
            push_str(&mut m, "]");
            Err(m)
        },
        Err(CiprError::StepLimit) => Err("Runtime Error: Step limit reached.".to_string()),
        Err(CiprError::Suspended) => Err("Runtime Error: Waiting for an answer from the outside world.".to_string()),
    }
}

} // verus!

verus! {

/// The binary operators at run time: `!=` is the negation of `==`; the
/// comparisons and arithmetic other than `+` succeed exactly on two
/// integers, and comparisons then give a boolean; `+` also joins anything
/// with a string; division by zero is the only other failure.
pub proof fn law_binary_operators(op: TokenType, l: SpecRuntime, r: SpecRuntime)
    ensures
        binary_result(TokenType::BangEqual, l, r) matches Ok(SpecRuntime::Bool(ne)) && binary_result(
            TokenType::EqualEqual,
            l,
            r,
        ) matches Ok(SpecRuntime::Bool(eq)) && ne == !eq,
        (op == TokenType::Greater || op == TokenType::GreaterEqual || op == TokenType::Less || op == TokenType::LessEqual)
            ==> ((binary_result(op, l, r) is Ok <==> (l is Int && r is Int)) && (binary_result(op, l, r) matches Ok(v)
            ==> v is Bool)),
        (op == TokenType::Minus || op == TokenType::Star) ==> (binary_result(op, l, r) is Ok <==> (l is Int && r is Int)),
        binary_result(TokenType::Plus, l, r) is Ok <==> ((l is Int && r is Int) || l is Str || r is Str),
        binary_result(TokenType::Slash, l, r) is Ok <==> (l is Int && r is Int && as_i64(r) != 0),
{
}

/// On two integers the binary operators compute what they mean in
/// arithmetic: each comparison gives whether that relation holds of the two
/// numbers, `==` and `!=` whether they are equal, and `+`, `-`, `*` and `/`
/// (of non-negative numbers, by a positive one) the sum, difference, product
/// and quotient wherever it is a 64-bit integer; dividing by zero fails.
pub proof fn law_integer_operators(a: i64, b: i64)
    ensures
        binary_result(TokenType::Greater, SpecRuntime::Int(a as int), SpecRuntime::Int(b as int)) == Ok::<
            SpecRuntime,
            Seq<char>,
        >(SpecRuntime::Bool(a > b)),
        binary_result(TokenType::GreaterEqual, SpecRuntime::Int(a as int), SpecRuntime::Int(b as int)) == Ok::<
            SpecRuntime,
            Seq<char>,
        >(SpecRuntime::Bool(a >= b)),
        binary_result(TokenType::Less, SpecRuntime::Int(a as int), SpecRuntime::Int(b as int)) == Ok::<
            SpecRuntime,
            Seq<char>,
        >(SpecRuntime::Bool(a < b)),
        binary_result(TokenType::LessEqual, SpecRuntime::Int(a as int), SpecRuntime::Int(b as int)) == Ok::<
            SpecRuntime,
            Seq<char>,
        >(SpecRuntime::Bool(a <= b)),
        binary_result(TokenType::EqualEqual, SpecRuntime::Int(a as int), SpecRuntime::Int(b as int)) == Ok::<
            SpecRuntime,
            Seq<char>,
        >(SpecRuntime::Bool(a == b)),
        binary_result(TokenType::BangEqual, SpecRuntime::Int(a as int), SpecRuntime::Int(b as int)) == Ok::<
            SpecRuntime,
            Seq<char>,
        >(SpecRuntime::Bool(a != b)),
        i64::MIN <= a + b <= i64::MAX ==> binary_result(
            TokenType::Plus,
            SpecRuntime::Int(a as int),
            SpecRuntime::Int(b as int),
        ) == Ok::<SpecRuntime, Seq<char>>(SpecRuntime::Int(a + b)),
        i64::MIN <= a - b <= i64::MAX ==> binary_result(
            TokenType::Minus,
            SpecRuntime::Int(a as int),
            SpecRuntime::Int(b as int),
        ) == Ok::<SpecRuntime, Seq<char>>(SpecRuntime::Int(a - b)),
        i64::MIN <= a * b <= i64::MAX ==> binary_result(
            TokenType::Star,
            SpecRuntime::Int(a as int),
            SpecRuntime::Int(b as int),
        ) == Ok::<SpecRuntime, Seq<char>>(SpecRuntime::Int(a * b)),
        a >= 0 && b > 0 ==> binary_result(TokenType::Slash, SpecRuntime::Int(a as int), SpecRuntime::Int(b as int))
            == Ok::<SpecRuntime, Seq<char>>(SpecRuntime::Int(a / b)),
        binary_result(TokenType::Slash, SpecRuntime::Int(a as int), SpecRuntime::Int(0)) is Err,
{
    if i64::MIN <= a * b <= i64::MAX {
        assert(a.wrapping_mul(b) == a * b) by (nonlinear_arith)
            requires
                i64::MIN <= a * b <= i64::MAX,
        {
        }
    }
}

/// The other operators on values: `+` joins two strings; `==` holds of two
/// equal strings and of two equal booleans; `-` negates an integer other
/// than the least; `!` negates a boolean.
pub proof fn law_other_operators(s: Seq<char>, t: Seq<char>, p: bool, q: bool, n: i64)
    ensures
        binary_result(TokenType::Plus, SpecRuntime::Str(s), SpecRuntime::Str(t)) == Ok::<SpecRuntime, Seq<char>>(
            SpecRuntime::Str(s + t),
        ),
        binary_result(TokenType::EqualEqual, SpecRuntime::Str(s), SpecRuntime::Str(t)) == Ok::<SpecRuntime, Seq<char>>(
            SpecRuntime::Bool(s == t),
        ),
        binary_result(TokenType::EqualEqual, SpecRuntime::Bool(p), SpecRuntime::Bool(q)) == Ok::<
            SpecRuntime,
            Seq<char>,
        >(SpecRuntime::Bool(p == q)),
        n != i64::MIN ==> unary_result(TokenType::Minus, SpecRuntime::Int(n as int)) == Ok::<SpecRuntime, Seq<char>>(
            SpecRuntime::Int(-n),
        ),
        unary_result(TokenType::Bang, SpecRuntime::Bool(p)) == Ok::<SpecRuntime, Seq<char>>(SpecRuntime::Bool(!p)),
        binary_result(TokenType::EqualEqual, SpecRuntime::Null, SpecRuntime::Null) == Ok::<SpecRuntime, Seq<char>>(
            SpecRuntime::Bool(true),
        ),
        binary_result(TokenType::EqualEqual, SpecRuntime::Int(n as int), SpecRuntime::Str(s)) == Ok::<
            SpecRuntime,
            Seq<char>,
        >(SpecRuntime::Bool(false)),
        binary_result(TokenType::Minus, SpecRuntime::Str(s), SpecRuntime::Int(n as int)) is Err,
{
}

} // verus!
