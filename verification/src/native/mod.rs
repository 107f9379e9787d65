//! The functions that the interpreter provides to programs.
pub mod core_fns;
pub mod crypto;
pub mod string;

pub use core_fns::{NativePrint, NativeRand};
pub use crypto::{NativeBase64Decode, NativeBase64Encode, NativeHex};
pub use string::{NativeExtract, NativeSize, NativeSplit, NativeTrim};

use vstd::prelude::*;

use crate::ast::{CiprType, SpecType};
use crate::environment::ScopeModel;
use crate::type_checker::TypeChecker;
use crate::interpreter::value::{native_arity, native_name, NativeFn, RuntimeValue, SpecRuntime};
use crate::interpreter::Interpreter;

verus! {

/// No two native functions share a name.
pub proof fn lemma_native_names_distinct()
    ensures
        forall|a: NativeFn, b: NativeFn| a != b ==> native_name(a) != native_name(b),
{
    reveal_strlit("print");
    reveal_strlit("size");
    reveal_strlit("trim");
    reveal_strlit("split");
    reveal_strlit("extract");
    reveal_strlit("hex");
    reveal_strlit("base64_encode");
    reveal_strlit("base64_decode");
    reveal_strlit("rand");
    reveal_strlit("time");
    reveal_strlit("run");
    reveal_strlit("env");
    reveal_strlit("cwd");
    reveal_strlit("cd");
    reveal_strlit("include");
    reveal_strlit("sleep");
    reveal_strlit("exit");
    reveal_strlit("read_file");
    reveal_strlit("write_file");
    reveal_strlit("ls");
    reveal_strlit("connect");
    reveal_strlit("send");
    reveal_strlit("recv");
    reveal_strlit("close");
    reveal_strlit("http_get");
    reveal_strlit("http_post");
    reveal_strlit("listen");
    reveal_strlit("accept");
    reveal_strlit("ps");
    reveal_strlit("kill");
    assert forall|a: NativeFn, b: NativeFn| a != b implies native_name(a) != native_name(b) by {
        let x = native_name(a);
        let y = native_name(b);
        if x.len() == y.len() {
            if x.len() == 13 {
                assert(x[7] != y[7]);
            } else if x[0] == y[0] {
                assert(x[1] != y[1]);
            } else {
                assert(x[0] != y[0]);
            }
        }
    }
}

/// The bindings of `m` with every native function bound to its name.
pub open spec fn with_natives(m: Map<Seq<char>, SpecRuntime>) -> Map<Seq<char>, SpecRuntime> {
    m
        .insert(native_name(NativeFn::Print), SpecRuntime::Native(NativeFn::Print))
        .insert(native_name(NativeFn::Size), SpecRuntime::Native(NativeFn::Size))
        .insert(native_name(NativeFn::Trim), SpecRuntime::Native(NativeFn::Trim))
        .insert(native_name(NativeFn::Split), SpecRuntime::Native(NativeFn::Split))
        .insert(native_name(NativeFn::Extract), SpecRuntime::Native(NativeFn::Extract))
        .insert(native_name(NativeFn::Hex), SpecRuntime::Native(NativeFn::Hex))
        .insert(native_name(NativeFn::Base64Encode), SpecRuntime::Native(NativeFn::Base64Encode))
        .insert(native_name(NativeFn::Base64Decode), SpecRuntime::Native(NativeFn::Base64Decode))
        .insert(native_name(NativeFn::Rand), SpecRuntime::Native(NativeFn::Rand))
        .insert(native_name(NativeFn::Time), SpecRuntime::Native(NativeFn::Time))
        .insert(native_name(NativeFn::Run), SpecRuntime::Native(NativeFn::Run))
        .insert(native_name(NativeFn::Env), SpecRuntime::Native(NativeFn::Env))
        .insert(native_name(NativeFn::Cwd), SpecRuntime::Native(NativeFn::Cwd))
        .insert(native_name(NativeFn::Cd), SpecRuntime::Native(NativeFn::Cd))
        .insert(native_name(NativeFn::Include), SpecRuntime::Native(NativeFn::Include))
        .insert(native_name(NativeFn::Sleep), SpecRuntime::Native(NativeFn::Sleep))
        .insert(native_name(NativeFn::Exit), SpecRuntime::Native(NativeFn::Exit))
        .insert(native_name(NativeFn::ReadFile), SpecRuntime::Native(NativeFn::ReadFile))
        .insert(native_name(NativeFn::WriteFile), SpecRuntime::Native(NativeFn::WriteFile))
        .insert(native_name(NativeFn::Ls), SpecRuntime::Native(NativeFn::Ls))
        .insert(native_name(NativeFn::Connect), SpecRuntime::Native(NativeFn::Connect))
        .insert(native_name(NativeFn::Send), SpecRuntime::Native(NativeFn::Send))
        .insert(native_name(NativeFn::Recv), SpecRuntime::Native(NativeFn::Recv))
        .insert(native_name(NativeFn::Close), SpecRuntime::Native(NativeFn::Close))
        .insert(native_name(NativeFn::HttpGet), SpecRuntime::Native(NativeFn::HttpGet))
        .insert(native_name(NativeFn::HttpPost), SpecRuntime::Native(NativeFn::HttpPost))
        .insert(native_name(NativeFn::Listen), SpecRuntime::Native(NativeFn::Listen))
        .insert(native_name(NativeFn::Accept), SpecRuntime::Native(NativeFn::Accept))
        .insert(native_name(NativeFn::Ps), SpecRuntime::Native(NativeFn::Ps))
        .insert(native_name(NativeFn::Kill), SpecRuntime::Native(NativeFn::Kill))
}

/// Defines every native function in the interpreter's global scope, by
/// [`with_natives`]: every name that [`native_types`] declares to the type
/// checker is bound to the native function of that name, which takes as
/// many arguments as the declared type has parameters.
pub fn register_all(interp: &mut Interpreter)
    requires
        old(interp).wf(),
    ensures
        final(interp).wf(),
        final(interp).printed() == old(interp).printed(),
        final(interp).current() == old(interp).current(),
        final(interp).steps() == old(interp).steps(),
        final(interp).nodes() == old(interp).nodes(),
        old(interp).scope_models().len() > 0,
        final(interp).scope_models() == old(interp).scope_models().update(
            0,
            ScopeModel {
                vars: with_natives(old(interp).scope_models()[0].vars),
                parent: old(interp).scope_models()[0].parent,
            },
        ),
        forall|f: NativeFn|
            #![trigger native_name(f)]
            final(interp).scope_models()[0].vars.contains_key(native_name(f))
                && final(interp).scope_models()[0].vars[native_name(f)] == SpecRuntime::Native(f),
        forall|name: Seq<char>|
            #[trigger] native_types(Map::empty()).contains_key(name) ==> final(interp).scope_models()[0].vars.contains_key(
                name,
            ) && (final(interp).scope_models()[0].vars[name] matches SpecRuntime::Native(f) && native_name(f) == name
                && (native_types(Map::empty())[name] matches SpecType::Callable(ps, _) && ps.len() == native_arity(f))),
{
    interp.define_global(NativeFn::Print.name(), RuntimeValue::Native(NativeFn::Print));
    interp.define_global(NativeFn::Size.name(), RuntimeValue::Native(NativeFn::Size));
    interp.define_global(NativeFn::Trim.name(), RuntimeValue::Native(NativeFn::Trim));
    interp.define_global(NativeFn::Split.name(), RuntimeValue::Native(NativeFn::Split));
    interp.define_global(NativeFn::Extract.name(), RuntimeValue::Native(NativeFn::Extract));
    interp.define_global(NativeFn::Hex.name(), RuntimeValue::Native(NativeFn::Hex));
    interp.define_global(NativeFn::Base64Encode.name(), RuntimeValue::Native(NativeFn::Base64Encode));
    interp.define_global(NativeFn::Base64Decode.name(), RuntimeValue::Native(NativeFn::Base64Decode));
    interp.define_global(NativeFn::Rand.name(), RuntimeValue::Native(NativeFn::Rand));
    interp.define_global(NativeFn::Time.name(), RuntimeValue::Native(NativeFn::Time));
    interp.define_global(NativeFn::Run.name(), RuntimeValue::Native(NativeFn::Run));
    interp.define_global(NativeFn::Env.name(), RuntimeValue::Native(NativeFn::Env));
    interp.define_global(NativeFn::Cwd.name(), RuntimeValue::Native(NativeFn::Cwd));
    interp.define_global(NativeFn::Cd.name(), RuntimeValue::Native(NativeFn::Cd));
    interp.define_global(NativeFn::Include.name(), RuntimeValue::Native(NativeFn::Include));
    interp.define_global(NativeFn::Sleep.name(), RuntimeValue::Native(NativeFn::Sleep));
    interp.define_global(NativeFn::Exit.name(), RuntimeValue::Native(NativeFn::Exit));
    interp.define_global(NativeFn::ReadFile.name(), RuntimeValue::Native(NativeFn::ReadFile));
    interp.define_global(NativeFn::WriteFile.name(), RuntimeValue::Native(NativeFn::WriteFile));
    interp.define_global(NativeFn::Ls.name(), RuntimeValue::Native(NativeFn::Ls));
    interp.define_global(NativeFn::Connect.name(), RuntimeValue::Native(NativeFn::Connect));
    interp.define_global(NativeFn::Send.name(), RuntimeValue::Native(NativeFn::Send));
    interp.define_global(NativeFn::Recv.name(), RuntimeValue::Native(NativeFn::Recv));
    interp.define_global(NativeFn::Close.name(), RuntimeValue::Native(NativeFn::Close));
    interp.define_global(NativeFn::HttpGet.name(), RuntimeValue::Native(NativeFn::HttpGet));
    interp.define_global(NativeFn::HttpPost.name(), RuntimeValue::Native(NativeFn::HttpPost));
    interp.define_global(NativeFn::Listen.name(), RuntimeValue::Native(NativeFn::Listen));
    interp.define_global(NativeFn::Accept.name(), RuntimeValue::Native(NativeFn::Accept));
    interp.define_global(NativeFn::Ps.name(), RuntimeValue::Native(NativeFn::Ps));
    interp.define_global(NativeFn::Kill.name(), RuntimeValue::Native(NativeFn::Kill));
    proof {
        lemma_native_names_distinct();
        law_natives_declared_are_bound();
    }
}

/// The natives the type checker declares are those the interpreter binds:
/// a name is declared exactly where it is bound, and a bound name is bound
/// to the native function of that name, whose arity is the number of
/// parameters of its declared type.
pub proof fn law_natives_declared_are_bound()
    ensures
        forall|name: Seq<char>|
            #[trigger] native_types(Map::empty()).contains_key(name) <==> with_natives(Map::empty()).contains_key(name),
        forall|name: Seq<char>|
            #[trigger] with_natives(Map::empty()).contains_key(name) ==> (with_natives(Map::empty())[name] matches SpecRuntime::Native(f)
                && native_name(f) == name && (native_types(Map::empty())[name] matches SpecType::Callable(ps, _) && ps.len()
                == native_arity(f))),
{
    lemma_native_names_distinct();
}

/// The type of a function with parameters of types `params` and result
/// of type `ret`.
pub open spec fn fn_type(params: Seq<SpecType>, ret: SpecType) -> SpecType {
    SpecType::Callable(params, Box::new(ret))
}

/// The types of the native functions, added to the names of `m`.
pub open spec fn native_types(m: Map<Seq<char>, SpecType>) -> Map<Seq<char>, SpecType> {
    m
        .insert(native_name(NativeFn::Print), fn_type(seq![SpecType::Unknown], SpecType::Void))
        .insert(native_name(NativeFn::Time), fn_type(seq![], SpecType::Float))
        .insert(native_name(NativeFn::Run), fn_type(seq![SpecType::Str], SpecType::Str))
        .insert(native_name(NativeFn::Env), fn_type(seq![SpecType::Str], SpecType::Str))
        .insert(native_name(NativeFn::Cwd), fn_type(seq![], SpecType::Str))
        .insert(native_name(NativeFn::Cd), fn_type(seq![SpecType::Str], SpecType::Bool))
        .insert(native_name(NativeFn::Include), fn_type(seq![SpecType::Str], SpecType::Bool))
        .insert(native_name(NativeFn::Rand), fn_type(seq![SpecType::Int], SpecType::Int))
        .insert(native_name(NativeFn::Sleep), fn_type(seq![SpecType::Int], SpecType::Void))
        .insert(native_name(NativeFn::Exit), fn_type(seq![SpecType::Int], SpecType::Void))
        .insert(native_name(NativeFn::ReadFile), fn_type(seq![SpecType::Str], SpecType::Str))
        .insert(native_name(NativeFn::WriteFile), fn_type(seq![SpecType::Str, SpecType::Str], SpecType::Bool))
        .insert(native_name(NativeFn::Ls), fn_type(seq![SpecType::Str], SpecType::Array(Box::new(SpecType::Str))))
        .insert(native_name(NativeFn::Size), fn_type(seq![SpecType::Unknown], SpecType::Int))
        .insert(native_name(NativeFn::Trim), fn_type(seq![SpecType::Str], SpecType::Str))
        .insert(native_name(NativeFn::Split), fn_type(seq![SpecType::Str, SpecType::Str], SpecType::Array(Box::new(SpecType::Str))))
        .insert(native_name(NativeFn::Extract), fn_type(seq![SpecType::Str, SpecType::Str, SpecType::Str], SpecType::Str))
        .insert(native_name(NativeFn::Connect), fn_type(seq![SpecType::Str, SpecType::Int], SpecType::Int))
        .insert(native_name(NativeFn::Send), fn_type(seq![SpecType::Int, SpecType::Str], SpecType::Int))
        .insert(native_name(NativeFn::Recv), fn_type(seq![SpecType::Int, SpecType::Int], SpecType::Str))
        .insert(native_name(NativeFn::Close), fn_type(seq![SpecType::Int], SpecType::Bool))
        .insert(native_name(NativeFn::HttpGet), fn_type(seq![SpecType::Str], SpecType::Str))
        .insert(native_name(NativeFn::HttpPost), fn_type(seq![SpecType::Str, SpecType::Str], SpecType::Str))
        .insert(native_name(NativeFn::Listen), fn_type(seq![SpecType::Int], SpecType::Int))
        .insert(native_name(NativeFn::Accept), fn_type(seq![SpecType::Int], SpecType::Int))
        .insert(native_name(NativeFn::Hex), fn_type(seq![SpecType::Str], SpecType::Str))
        .insert(native_name(NativeFn::Base64Encode), fn_type(seq![SpecType::Str], SpecType::Str))
        .insert(native_name(NativeFn::Base64Decode), fn_type(seq![SpecType::Str], SpecType::Str))
        .insert(native_name(NativeFn::Ps), fn_type(seq![], SpecType::Array(Box::new(SpecType::Str))))
        .insert(native_name(NativeFn::Kill), fn_type(seq![SpecType::Int], SpecType::Bool))
}

/// The type of a function of no parameters.
fn sig0(ret: CiprType) -> (t: CiprType)
    ensures
        t@ == fn_type(seq![], ret@),
{
    let t = CiprType::Callable(Vec::new(), Box::new(ret));
    proof {
        if let SpecType::Callable(ps, _) = t@ {
            assert(ps =~= seq![]);
        }
    }
    t
}

/// The type of a function of one parameter.
fn sig1(a: CiprType, ret: CiprType) -> (t: CiprType)
    ensures
        t@ == fn_type(seq![a@], ret@),
{
    let ghost av = a@;
    let t = CiprType::Callable(vec![a], Box::new(ret));
    proof {
        if let SpecType::Callable(ps, _) = t@ {
            assert(ps =~= seq![av]);
        }
    }
    t
}

/// The type of a function of two parameters.
fn sig2(a: CiprType, b: CiprType, ret: CiprType) -> (t: CiprType)
    ensures
        t@ == fn_type(seq![a@, b@], ret@),
{
    let ghost av = a@;
    let ghost bv = b@;
    let t = CiprType::Callable(vec![a, b], Box::new(ret));
    proof {
        if let SpecType::Callable(ps, _) = t@ {
            assert(ps =~= seq![av, bv]);
        }
    }
    t
}

/// The type of a function of three parameters.
fn sig3(a: CiprType, b: CiprType, c: CiprType, ret: CiprType) -> (t: CiprType)
    ensures
        t@ == fn_type(seq![a@, b@, c@], ret@),
{
    let ghost av = a@;
    let ghost bv = b@;
    let ghost cv = c@;
    let t = CiprType::Callable(vec![a, b, c], Box::new(ret));
    proof {
        if let SpecType::Callable(ps, _) = t@ {
            assert(ps =~= seq![av, bv, cv]);
        }
    }
    t
}

/// An array of strings.
fn str_array() -> (t: CiprType)
    ensures
        t@ == SpecType::Array(Box::new(SpecType::Str)),
{
    let inner = CiprType::Str;
    assert(inner@ == SpecType::Str);
    CiprType::Array(Box::new(inner))
}

/// Declares the types of the native functions to the type checker, by
/// [`native_types`], in its innermost scope.
pub fn register_types(checker: &mut TypeChecker)
    requires
        old(checker).wf(),
    ensures
        final(checker).wf(),
        final(checker).nodes() == old(checker).nodes(),
        final(checker).error_flag() == old(checker).error_flag(),
        final(checker).diags() == old(checker).diags(),
        old(checker).scopes_view().len() > 0,
        final(checker).scopes_view() == old(checker).scopes_view().update(
            old(checker).scopes_view().len() - 1,
            native_types(old(checker).scopes_view().last()),
        ),
{
    checker.define_global("print", sig1(CiprType::Unknown, CiprType::Void));
    checker.define_global("time", sig0(CiprType::Float));
    checker.define_global("run", sig1(CiprType::Str, CiprType::Str));
    checker.define_global("env", sig1(CiprType::Str, CiprType::Str));
    checker.define_global("cwd", sig0(CiprType::Str));
    checker.define_global("cd", sig1(CiprType::Str, CiprType::Bool));
    checker.define_global("include", sig1(CiprType::Str, CiprType::Bool));
    checker.define_global("rand", sig1(CiprType::Int, CiprType::Int));
    checker.define_global("sleep", sig1(CiprType::Int, CiprType::Void));
    checker.define_global("exit", sig1(CiprType::Int, CiprType::Void));
    checker.define_global("read_file", sig1(CiprType::Str, CiprType::Str));
    checker.define_global("write_file", sig2(CiprType::Str, CiprType::Str, CiprType::Bool));
    checker.define_global("ls", sig1(CiprType::Str, str_array()));
    checker.define_global("size", sig1(CiprType::Unknown, CiprType::Int));
    checker.define_global("trim", sig1(CiprType::Str, CiprType::Str));
    checker.define_global("split", sig2(CiprType::Str, CiprType::Str, str_array()));
    checker.define_global("extract", sig3(CiprType::Str, CiprType::Str, CiprType::Str, CiprType::Str));
    checker.define_global("connect", sig2(CiprType::Str, CiprType::Int, CiprType::Int));
    checker.define_global("send", sig2(CiprType::Int, CiprType::Str, CiprType::Int));
    checker.define_global("recv", sig2(CiprType::Int, CiprType::Int, CiprType::Str));
    checker.define_global("close", sig1(CiprType::Int, CiprType::Bool));
    checker.define_global("http_get", sig1(CiprType::Str, CiprType::Str));
    checker.define_global("http_post", sig2(CiprType::Str, CiprType::Str, CiprType::Str));
    checker.define_global("listen", sig1(CiprType::Int, CiprType::Int));
    checker.define_global("accept", sig1(CiprType::Int, CiprType::Int));
    checker.define_global("hex", sig1(CiprType::Str, CiprType::Str));
    checker.define_global("base64_encode", sig1(CiprType::Str, CiprType::Str));
    checker.define_global("base64_decode", sig1(CiprType::Str, CiprType::Str));
    checker.define_global("ps", sig0(str_array()));
    checker.define_global("kill", sig1(CiprType::Int, CiprType::Bool));
}

} // verus!
