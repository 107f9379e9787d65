//! The pipeline from source text to a finished run: scanning, parsing,
//! type checking and interpreting.
use vstd::prelude::*;

use crate::ast::{arena_nodes, nodes_wf, Node, NodeArena, NodeId};
use crate::diagnostics::{DiagnosticPhase, Diagnostics, SpecDiagnostic};
use crate::environment::ScopeModel;
use crate::interpreter::semantics::run_outcome;
use crate::interpreter::value::{IoReply, IoRequest};
use crate::interpreter::{runs_as, Interpreter};
use crate::native::{register_all, register_types, with_natives};
use crate::parser::{IncludeSource, Parser};
use crate::scanner::{lemma_tokens_end_with_eof, scan_diagnostics, spec_scan_errors, spec_tokens, tokens_view, Scanner};
use crate::token::{SpecToken, SpecValue, Token, TokenType, Value};
use crate::text::chars_of;
use crate::type_checker::{all_type_phase, TypeChecker};
use crate::parser::no_type_phase;

verus! {

/// The message for a source with scan errors.
pub open spec fn scan_failure() -> Seq<char> {
    "Scanner errors occurred."@
}

/// The message for a source with parse errors.
pub open spec fn parse_failure() -> Seq<char> {
    "Parser errors occurred."@
}

/// The message for a program with type errors.
pub open spec fn type_failure() -> Seq<char> {
    "Type Error occurred."@
}

/// The diagnostics reported after `before`, up to `after`.
pub open spec fn added(before: Seq<SpecDiagnostic>, after: Seq<SpecDiagnostic>) -> Seq<SpecDiagnostic> {
    after.subrange(before.len() as int, after.len() as int)
}

/// What the parse and type check of a source without scan errors gave,
/// read from the diagnostics that were `before` and are `after`: these
/// only grow; the check succeeds exactly when nothing was reported; it fails
/// with the parse failure exactly when something other than a type error
/// was reported (by the parser), and with the type failure exactly when
/// only type errors were.
pub open spec fn front_end_reported(
    r: Result<Checked, String>,
    before: Seq<SpecDiagnostic>,
    after: Seq<SpecDiagnostic>,
) -> bool {
    let a = added(before, after);
    &&& after.len() >= before.len()
    &&& after.subrange(0, before.len() as int) == before
    &&& (r is Ok <==> a.len() == 0)
    &&& ((r matches Err(m) && m@ == parse_failure()) <==> exists|i: int|
        0 <= i < a.len() && (#[trigger] a[i]).phase != DiagnosticPhase::Type)
    &&& ((r matches Err(m) && m@ == type_failure()) <==> (a.len() > 0 && all_type_phase(a)))
}

/// The paths that the `include` statements of a token list name: the
/// string of each string token that directly follows an `include` keyword.
pub open spec fn include_paths_spec(ts: Seq<SpecToken>) -> Seq<Seq<char>>
    decreases ts.len(),
{
    if ts.len() < 2 {
        Seq::empty()
    } else {
        let rest = include_paths_spec(ts.drop_last());
        let a = ts[ts.len() - 2];
        let b = ts.last();
        match b.literal {
            SpecValue::Str(p) => if a.token_type == TokenType::Include && b.token_type == TokenType::Str {
                rest.push(p)
            } else {
                rest
            },
            _ => rest,
        }
    }
}

/// The files that the `include` statements of `source` name, so that they
/// can be read before the source is parsed; none where the source is too
/// large to scan.
pub fn include_paths(source: &str) -> (r: Vec<String>)
    ensures
        source@.len() < usize::MAX ==> r@.len() == include_paths_spec(spec_tokens(source@)).len() && forall|i: int|
            0 <= i < r@.len() ==> #[trigger] r@[i]@ == include_paths_spec(spec_tokens(source@))[i],
{
    let len = chars_of(source).len();
    if len == usize::MAX {
        return Vec::new();
    }
    let (tokens, _) = Scanner::new(source).scan_tokens();
    let ghost tv = tokens_view(tokens@);
    let mut out: Vec<String> = Vec::new();
    let mut k: usize = 1;
    assert(tv.take(1) =~= seq![tv[0]]) by {
        lemma_tokens_end_with_eof(tokens@, source@);
    }
    while k < tokens.len()
        invariant
            1 <= k <= tokens@.len(),
            tv == tokens_view(tokens@),
            tv == spec_tokens(source@),
            out@.len() == include_paths_spec(tv.take(k as int)).len(),
            forall|i: int| 0 <= i < out@.len() ==> #[trigger] out@[i]@ == include_paths_spec(tv.take(k as int))[i],
        decreases tokens@.len() - k,
    {
        let a = &tokens[k - 1];
        let b = &tokens[k];
        proof {
            let t = tv.take(k + 1);
            assert(t.drop_last() =~= tv.take(k as int));
            assert(t[t.len() - 2] == a@);
            assert(t.last() == b@);
        }
        if a.token_type == TokenType::Include && b.token_type == TokenType::Str {
            if let Value::Str(p) = &b.literal {
                out.push(p.clone());
            }
        }
        k = k + 1;
    }
    proof {
        assert(tv.take(tokens@.len() as int) =~= tv);
    }
    out
}

/// A program that was scanned, parsed and type checked.
pub struct Checked {
    pub arena: NodeArena,
    pub root: Option<NodeId>,
}

impl Checked {
    /// The tree is well formed and its root is one of its nodes.
    pub open spec fn wf(&self) -> bool {
        &&& nodes_wf(arena_nodes(self.arena))
        &&& (self.root matches Some(r) ==> r.0 < arena_nodes(self.arena).len())
    }
}

/// What running a program gave.
pub struct RunOutput {
    /// What the program printed.
    pub stdout: String,
    /// Why the run failed, where it did.
    pub result: Result<(), String>,
    /// The diagnostics of scanning, parsing and type checking.
    pub diagnostics: Diagnostics,
    /// The steps of the budget that the run did not take.
    pub steps_left: u64,
    /// The checked tree and its root, where the front end succeeded.
    pub program: Ghost<Option<(Seq<Node>, Option<NodeId>)>>,
    /// The call of a native function that works with the outside world at
    /// which the run stopped, waiting for its answer, if any.
    pub request: Option<IoRequest>,
    /// The numbers that `rand` drew in the run, in order.
    pub draws: Vec<i64>,
}

/// The compiler's front end and runner.
pub struct Core {
    /// The files that `include` may read, by path.
    pub sources: Vec<IncludeSource>,
    /// The answers to the calls of native functions that work with the
    /// outside world, which the next run takes in order.
    pub replies: Vec<IoReply>,
    /// The numbers that `rand` drew in an earlier run of the same program,
    /// which the next run gives again, in order, where they fit.
    pub draws: Vec<i64>,
}

impl Core {
    pub fn new() -> (c: Core)
        ensures
            c.sources@.len() == 0,
    {
        Core { sources: Vec::new(), replies: Vec::new(), draws: Vec::new() }
    }

    /// Scans, parses and type checks `source`, reported as `source_name`.
    /// Fails, as the compiler does, with one message per phase that found
    /// errors; the diagnostics say what the errors were.
    pub fn check(&mut self, source: &str, source_name: &str, diagnostics: &mut Diagnostics) -> (r: Result<
        Checked,
        String,
    >)
        ensures
            source@.len() >= usize::MAX ==> (r matches Err(m) && m@ == "Source is too large."@) && final(diagnostics)@
                == old(diagnostics)@,
            source@.len() < usize::MAX ==> ((spec_scan_errors(source@).len() > 0) <==> (r matches Err(m) && m@
                == scan_failure())),
            source@.len() < usize::MAX && spec_scan_errors(source@).len() > 0 ==> final(diagnostics)@ == old(
                diagnostics,
            )@ + scan_diagnostics(source_name@, spec_scan_errors(source@)),
            source@.len() < usize::MAX && spec_scan_errors(source@).len() == 0 ==> front_end_reported(
                r,
                old(diagnostics)@,
                final(diagnostics)@,
            ),
            r matches Err(m) ==> m@ == scan_failure() || m@ == parse_failure() || m@ == type_failure()
                || m@ == "Source is too large."@,
            r matches Ok(c) ==> c.wf() && spec_scan_errors(source@).len() == 0,
    {
        self.front_end(source, source_name, diagnostics, false)
    }

    /// The front end; where `natives` holds, the native functions are known
    /// to the type checker.
    fn front_end(&mut self, source: &str, source_name: &str, diagnostics: &mut Diagnostics, natives: bool) -> (r: Result<
        Checked,
        String,
    >)
        ensures
            source@.len() >= usize::MAX ==> (r matches Err(m) && m@ == "Source is too large."@) && final(diagnostics)@
                == old(diagnostics)@,
            source@.len() < usize::MAX ==> ((spec_scan_errors(source@).len() > 0) <==> (r matches Err(m) && m@
                == scan_failure())),
            source@.len() < usize::MAX && spec_scan_errors(source@).len() > 0 ==> final(diagnostics)@ == old(
                diagnostics,
            )@ + scan_diagnostics(source_name@, spec_scan_errors(source@)),
            source@.len() < usize::MAX && spec_scan_errors(source@).len() == 0 ==> front_end_reported(
                r,
                old(diagnostics)@,
                final(diagnostics)@,
            ),
            r matches Err(m) ==> m@ == scan_failure() || m@ == parse_failure() || m@ == type_failure()
                || m@ == "Source is too large."@,
            r matches Ok(c) ==> c.wf() && spec_scan_errors(source@).len() == 0,
    {
        let len = chars_of(source).len();
        if len == usize::MAX {
            return Err("Source is too large.".to_string());
        }
        proof {
            reveal_strlit("Scanner errors occurred.");
            reveal_strlit("Parser errors occurred.");
            reveal_strlit("Type Error occurred.");
            assert(scan_failure()[0] != parse_failure()[0]);
            assert(scan_failure()[0] != type_failure()[0]);
            assert(parse_failure()[0] != type_failure()[0]);
        }
        let ghost before = diagnostics@;
        let (tokens, scan_error, scan_diags) = Scanner::new_with_source(source, source_name).scan_tokens_with_diagnostics();
        diagnostics.extend(scan_diags);
        if scan_error {
            return Err("Scanner errors occurred.".to_string());
        }
        proof {
            assert(scan_diags@.len() == 0);
            assert(diagnostics@ =~= before);
        }
        proof {
            lemma_tokens_end_with_eof(tokens@, source@);
        }
        let mut sources: Vec<IncludeSource> = Vec::new();
        core::mem::swap(&mut sources, &mut self.sources);
        let mut parser = Parser::new_with_source(tokens, NodeArena::new(), Vec::new(), source_name, sources);
        let root = parser.parse();
        let parse_error = parser.had_error();
        let (arena, _visited, unused, parse_diags) = parser.into_parts();
        self.sources = unused;
        let ghost pd = parse_diags@;
        diagnostics.extend(parse_diags);
        proof {
            assert(added(before, diagnostics@) =~= pd);
            assert(diagnostics@.subrange(0, before.len() as int) =~= before);
            assert(no_type_phase(pd));
        }
        if parse_error {
            proof {
                assert(pd.len() > 0);
                assert(pd[0].phase != DiagnosticPhase::Type);
                assert(!all_type_phase(pd));
            }
            return Err("Parser errors occurred.".to_string());
        }
        proof {
            assert(pd.len() == 0);
        }
        match root {
            Some(root_id) => {
                let mut checker = TypeChecker::new(arena, source_name);
                if natives {
                    register_types(&mut checker);
                }
                checker.check(root_id);
                let type_error = checker.had_error();
                let td = checker.take_diagnostics();
                let ghost tdv = td@;
                proof {
                    assert(all_type_phase(Seq::<SpecDiagnostic>::empty()));
                }
                diagnostics.extend(td);
                proof {
                    assert(added(before, diagnostics@) =~= tdv);
                    assert(diagnostics@.subrange(0, before.len() as int) =~= before);
                }
                let arena = checker.into_arena();
                if type_error {
                    return Err("Type Error occurred.".to_string());
                }
                Ok(Checked { arena, root: Some(root_id) })
            },
            None => Ok(Checked { arena, root: None }),
        }
    }

    /// Checks `source` and, where it has no errors, runs it with the native
    /// functions defined, for at most `step_limit` steps, by [`run_checked`].
    pub fn run(&mut self, source: &str, source_name: &str, step_limit: u64) -> (out: RunOutput)
        ensures
            source@.len() >= usize::MAX ==> (out.result matches Err(m) && m@ == "Source is too large."@)
                && out.stdout@.len() == 0 && out.program@ is None,
            source@.len() < usize::MAX && spec_scan_errors(source@).len() > 0 ==> (out.result matches Err(m) && m@ == scan_failure()
                && out.stdout@.len() == 0 && out.program@ is None && out.diagnostics@ == scan_diagnostics(
                source_name@,
                spec_scan_errors(source@),
            )),
            source@.len() < usize::MAX && spec_scan_errors(source@).len() == 0 ==> {
                &&& (out.program@ is Some <==> out.diagnostics@.len() == 0)
                &&& out.program@ is None ==> out.stdout@.len() == 0 && ((out.result matches Err(m) && m@ == parse_failure())
                    <==> exists|i: int| 0 <= i < out.diagnostics@.len() && (#[trigger] out.diagnostics@[i]).phase
                    != DiagnosticPhase::Type) && ((out.result matches Err(m) && m@ == type_failure()) <==> (
                out.diagnostics@.len() > 0 && all_type_phase(out.diagnostics@)))
            },
            out.program@ matches Some((nodes, root)) ==> nodes_wf(nodes) && match root {
                Some(rt) => rt.0 < nodes.len() && (run_outcome(nodes, program_scopes(), 0, rt) matches Some(o) ==> runs_as(
                    out.result,
                    o,
                    Seq::empty(),
                    out.stdout@,
                    out.steps_left == 0,
                )),
                None => out.stdout@.len() == 0 && out.result is Ok,
            },
    {
        let mut diagnostics = Diagnostics::new();
        let fe = self.front_end(source, source_name, &mut diagnostics, true);
        proof {
            assert(added(Seq::<SpecDiagnostic>::empty(), diagnostics@) =~= diagnostics@);
        }
        match fe {
            Err(m) => RunOutput {
                stdout: String::new(),
                result: Err(m),
                diagnostics,
                steps_left: step_limit,
                program: Ghost(None),
                request: None,
                draws: Vec::new(),
            },
            Ok(checked) => {
                let ghost program = Some((arena_nodes(checked.arena), checked.root));
                let mut replies: Vec<IoReply> = Vec::new();
                core::mem::swap(&mut replies, &mut self.replies);
                let mut draws: Vec<i64> = Vec::new();
                core::mem::swap(&mut draws, &mut self.draws);
                let (stdout, result, steps_left, request, draws) = run_with_replies(checked, step_limit, replies, draws);
                RunOutput { stdout, result, diagnostics, steps_left, program: Ghost(program), request, draws }
            },
        }
    }
}

/// The scopes a program starts in: the global scope, where every native
/// function is bound to its name.
pub open spec fn program_scopes() -> Seq<ScopeModel> {
    seq![ScopeModel { vars: with_natives(Map::empty()), parent: -1 }]
}

/// Runs a checked program with the native functions defined, for at most
/// `step_limit` steps: gives what it printed and the report of the error it
/// stopped with, if any. Where the program stops, by [`run_outcome`] from
/// [`program_scopes`], it prints what that says and reports its error,
/// unless it spends its step budget first.
pub fn run_checked(checked: Checked, step_limit: u64) -> (r: (String, Result<(), String>, u64))
    requires
        checked.wf(),
    ensures
        checked.root is None ==> r.0@.len() == 0 && r.1 is Ok && r.2 == step_limit,
        checked.root matches Some(root) ==> (run_outcome(arena_nodes(checked.arena), program_scopes(), 0, root) matches Some(
            o,
        ) ==> runs_as(r.1, o, Seq::empty(), r.0@, r.2 == 0)),
{
    let (stdout, result, left, _, _) = run_with_replies(checked, step_limit, Vec::new(), Vec::new());
    (stdout, result, left)
}

/// Runs a checked program as [`run_checked`] does, where the calls of native
/// functions that work with the outside world take their answers from
/// `replies`, in order, and `rand` gives the numbers of `draws` again where
/// they fit; gives, besides, the call the run stopped at where no answer was
/// left for it, and the numbers `rand` drew.
pub fn run_with_replies(checked: Checked, step_limit: u64, replies: Vec<IoReply>, draws: Vec<i64>) -> (r: (
    String,
    Result<(), String>,
    u64,
    Option<IoRequest>,
    Vec<i64>,
))
    requires
        checked.wf(),
    ensures
        checked.root is None ==> r.0@.len() == 0 && r.1 is Ok && r.2 == step_limit && r.3 is None && r.4@ == draws@,
        checked.root matches Some(root) ==> (run_outcome(arena_nodes(checked.arena), program_scopes(), 0, root) matches Some(
            o,
        ) ==> runs_as(r.1, o, Seq::empty(), r.0@, r.2 == 0)),
{
    match checked.root {
        Some(root) => {
            let ghost nodes = arena_nodes(checked.arena);
            let mut interp = Interpreter::new(checked.arena, step_limit);
            register_all(&mut interp);
            interp.set_replies(replies);
            interp.set_draws(draws);
            proof {
                assert(interp.scope_models() =~= program_scopes());
            }
            let result = interp.interpret(root);
            let stdout = interp.output().to_string();
            let left = interp.steps_left();
            let request = interp.take_request();
            let drawn = interp.take_draws();
            (stdout, result, left, request, drawn)
        },
        None => (String::new(), Ok(()), step_limit, None, draws),
    }
}

} // verus!
