//! The values that programs compute while they run, and how they print.
use vstd::prelude::*;

use crate::ast::NodeId;
use crate::diagnostics::{decimal_text, push_u64_decimal};
use crate::text::{push_char, push_str};
use crate::token::Value;

verus! {

/// The functions that the interpreter provides itself.
#[derive(Debug, Clone, Copy, PartialEq, Eq, Structural)]
pub enum NativeFn {
    Print,
    Size,
    Trim,
    Split,
    Extract,
    Hex,
    Base64Encode,
    Base64Decode,
    Rand,
    Time,
    Run,
    Env,
    Cwd,
    Cd,
    Include,
    Sleep,
    Exit,
    ReadFile,
    WriteFile,
    Ls,
    Connect,
    Send,
    Recv,
    Close,
    HttpGet,
    HttpPost,
    Listen,
    Accept,
    Ps,
    Kill,
}

/// Whether the function works with the world outside the program (files,
/// processes, the network, the clock), so that the library hands it to
/// the program that runs the interpreter.
pub open spec fn is_io_native(f: NativeFn) -> bool {
    !(f == NativeFn::Print || f == NativeFn::Size || f == NativeFn::Trim || f == NativeFn::Split || f == NativeFn::Extract
        || f == NativeFn::Hex || f == NativeFn::Base64Encode || f == NativeFn::Base64Decode || f == NativeFn::Rand)
}

/// The name under which a native function is known to programs.
pub open spec fn native_name(f: NativeFn) -> Seq<char> {
    match f {
        NativeFn::Print => "print"@,
        NativeFn::Size => "size"@,
        NativeFn::Trim => "trim"@,
        NativeFn::Split => "split"@,
        NativeFn::Extract => "extract"@,
        NativeFn::Hex => "hex"@,
        NativeFn::Base64Encode => "base64_encode"@,
        NativeFn::Base64Decode => "base64_decode"@,
        NativeFn::Rand => "rand"@,
        NativeFn::Time => "time"@,
        NativeFn::Run => "run"@,
        NativeFn::Env => "env"@,
        NativeFn::Cwd => "cwd"@,
        NativeFn::Cd => "cd"@,
        NativeFn::Include => "include"@,
        NativeFn::Sleep => "sleep"@,
        NativeFn::Exit => "exit"@,
        NativeFn::ReadFile => "read_file"@,
        NativeFn::WriteFile => "write_file"@,
        NativeFn::Ls => "ls"@,
        NativeFn::Connect => "connect"@,
        NativeFn::Send => "send"@,
        NativeFn::Recv => "recv"@,
        NativeFn::Close => "close"@,
        NativeFn::HttpGet => "http_get"@,
        NativeFn::HttpPost => "http_post"@,
        NativeFn::Listen => "listen"@,
        NativeFn::Accept => "accept"@,
        NativeFn::Ps => "ps"@,
        NativeFn::Kill => "kill"@,
    }
}

/// How many arguments a native function takes.
pub open spec fn native_arity(f: NativeFn) -> nat {
    match f {
        NativeFn::Split => 2,
        NativeFn::Extract => 3,
        NativeFn::Time | NativeFn::Cwd | NativeFn::Ps => 0,
        NativeFn::WriteFile | NativeFn::Connect | NativeFn::Send | NativeFn::Recv | NativeFn::HttpPost => 2,
        _ => 1,
    }
}

impl NativeFn {
    /// The name under which the function is known to programs.
    pub fn name(&self) -> (s: &'static str)
        ensures
            s@ == native_name(*self),
    {
        match self {
            NativeFn::Print => "print",
            NativeFn::Size => "size",
            NativeFn::Trim => "trim",
            NativeFn::Split => "split",
            NativeFn::Extract => "extract",
            NativeFn::Hex => "hex",
            NativeFn::Base64Encode => "base64_encode",
            NativeFn::Base64Decode => "base64_decode",
            NativeFn::Rand => "rand",
            NativeFn::Time => "time",
            NativeFn::Run => "run",
            NativeFn::Env => "env",
            NativeFn::Cwd => "cwd",
            NativeFn::Cd => "cd",
            NativeFn::Include => "include",
            NativeFn::Sleep => "sleep",
            NativeFn::Exit => "exit",
            NativeFn::ReadFile => "read_file",
            NativeFn::WriteFile => "write_file",
            NativeFn::Ls => "ls",
            NativeFn::Connect => "connect",
            NativeFn::Send => "send",
            NativeFn::Recv => "recv",
            NativeFn::Close => "close",
            NativeFn::HttpGet => "http_get",
            NativeFn::HttpPost => "http_post",
            NativeFn::Listen => "listen",
            NativeFn::Accept => "accept",
            NativeFn::Ps => "ps",
            NativeFn::Kill => "kill",
        }
    }

    /// How many arguments the function takes.
    pub fn arity(&self) -> (n: usize)
        ensures
            n == native_arity(*self),
    {
        match self {
            NativeFn::Split => 2,
            NativeFn::Extract => 3,
            NativeFn::Time | NativeFn::Cwd | NativeFn::Ps => 0,
            NativeFn::WriteFile | NativeFn::Connect | NativeFn::Send | NativeFn::Recv | NativeFn::HttpPost => 2,
            _ => 1,
        }
    }
}

/// A function declared by the program, with the scope it was declared in.
#[derive(Debug)]
pub struct NamedFunction {
    pub name: String,
    pub param_count: usize,
    declaration_id: NodeId,
    closure: usize,
}

impl NamedFunction {
    /// The function's name.
    pub closed spec fn name_view(&self) -> Seq<char> {
        self.name@
    }

    /// How many parameters the function takes.
    pub closed spec fn params(&self) -> usize {
        self.param_count
    }

    /// The node that declares the function.
    pub closed spec fn decl(&self) -> NodeId {
        self.declaration_id
    }

    /// The scope that the function's body sees.
    pub closed spec fn closure_scope(&self) -> usize {
        self.closure
    }

    pub fn new(name: String, param_count: usize, declaration_id: NodeId, closure: usize) -> (f: NamedFunction)
        ensures
            f.name_view() == name@,
            f.params() == param_count,
            f.decl() == declaration_id,
            f.closure_scope() == closure,
    {
        NamedFunction { name, param_count, declaration_id, closure }
    }

    /// How many parameters the function takes.
    pub fn arity(&self) -> (n: usize)
        ensures
            n == self.params(),
    {
        self.param_count
    }

    pub fn declaration(&self) -> (id: NodeId)
        ensures
            id == self.decl(),
    {
        self.declaration_id
    }

    pub fn scope(&self) -> (s: usize)
        ensures
            s == self.closure_scope(),
    {
        self.closure
    }

    pub fn duplicate(&self) -> (f: NamedFunction)
        ensures
            f.name_view() == self.name_view(),
            f.params() == self.params(),
            f.decl() == self.decl(),
            f.closure_scope() == self.closure_scope(),
    {
        NamedFunction {
            name: self.name.clone(),
            param_count: self.param_count,
            declaration_id: self.declaration_id,
            closure: self.closure,
        }
    }
}

/// A value at run time.
#[derive(Debug)]
pub enum RuntimeValue {
    Null,
    Bool(bool),
    Int(i64),
    Str(String),
    Function(NamedFunction),
    Native(NativeFn),
    Array(Vec<RuntimeValue>),
}

/// The mathematical model of a [`RuntimeValue`].
pub enum SpecRuntime {
    Null,
    Bool(bool),
    Int(int),
    Str(Seq<char>),
    /// A declared function: its name, how many parameters it takes, the
    /// node that declares it and the scope its body sees.
    Function(Seq<char>, int, int, int),
    Native(NativeFn),
    Items(Seq<SpecRuntime>),
}

impl View for RuntimeValue {
    type V = SpecRuntime;

    open spec fn view(&self) -> SpecRuntime
        decreases self,
    {
        match self {
            RuntimeValue::Null => SpecRuntime::Null,
            RuntimeValue::Bool(b) => SpecRuntime::Bool(*b),
            RuntimeValue::Int(n) => SpecRuntime::Int(*n as int),
            RuntimeValue::Str(s) => SpecRuntime::Str(s@),
            RuntimeValue::Function(f) => SpecRuntime::Function(f.name_view(), f.params() as int, f.decl().0 as int, f.closure_scope() as int),
            RuntimeValue::Native(n) => SpecRuntime::Native(*n),
            RuntimeValue::Array(elems) => SpecRuntime::Items(
                Seq::new(elems@.len(), |i: int| if 0 <= i < elems@.len() { elems@[i].view() } else { SpecRuntime::Null }),
            ),
        }
    }
}

/// The decimal text of an integer, with a minus sign where it is negative.
pub open spec fn int_text(n: int) -> Seq<char> {
    if n < 0 {
        seq!['-'] + decimal_text((-n) as nat)
    } else {
        decimal_text(n as nat)
    }
}

/// How a value prints.
pub open spec fn stringify(v: SpecRuntime) -> Seq<char>
    decreases v,
{
    match v {
        SpecRuntime::Null => "null"@,
        SpecRuntime::Bool(b) => if b { "true"@ } else { "false"@ },
        SpecRuntime::Int(n) => int_text(n),
        SpecRuntime::Str(s) => s,
        SpecRuntime::Function(f, _, _, _) => "<fn "@ + f + ">"@,
        SpecRuntime::Native(f) => "<native fn "@ + native_name(f) + ">"@,
        SpecRuntime::Items(elems) => "["@ + join_values(elems) + "]"@,
    }
}

/// The printed elements of an array, separated by ", ".
pub open spec fn join_values(elems: Seq<SpecRuntime>) -> Seq<char>
    decreases elems,
{
    if elems.len() == 0 {
        Seq::empty()
    } else if elems.len() == 1 {
        stringify(elems[0])
    } else {
        join_values(elems.drop_last()) + ", "@ + stringify(elems.last())
    }
}

/// Whether a value counts as true in a condition.
pub open spec fn truthy(v: SpecRuntime) -> bool {
    match v {
        SpecRuntime::Null => false,
        SpecRuntime::Bool(b) => b,
        SpecRuntime::Int(n) => n != 0,
        _ => true,
    }
}

/// Whether `==` holds of two values: scalars of one kind that are equal.
pub open spec fn values_equal(a: SpecRuntime, b: SpecRuntime) -> bool {
    match (a, b) {
        (SpecRuntime::Null, SpecRuntime::Null) => true,
        (SpecRuntime::Bool(x), SpecRuntime::Bool(y)) => x == y,
        (SpecRuntime::Int(x), SpecRuntime::Int(y)) => x == y,
        (SpecRuntime::Str(x), SpecRuntime::Str(y)) => x == y,
        _ => false,
    }
}

/// Appends the decimal text of `n` to `out`.
pub fn push_int(out: &mut String, n: i64)
    ensures
        final(out)@ == old(out)@ + int_text(n as int),
{
    if n < 0 {
        push_char(out, '-');
        let m: u64 = if n == i64::MIN { 9223372036854775808u64 } else { (0 - n) as u64 };
        push_u64_decimal(out, m);
        assert(old(out)@.push('-') + decimal_text(m as nat) =~= old(out)@ + (seq!['-'] + decimal_text(m as nat)));
    } else {
        push_u64_decimal(out, n as u64);
    }
}

impl RuntimeValue {
    /// The run-time value of a literal; `None` for a floating-point literal,
    /// which this interpreter does not compute with.
    pub fn from_parse_value(v: &Value) -> (r: Option<RuntimeValue>)
        ensures
            match v {
                Value::Null => r == Some(RuntimeValue::Null),
                Value::Bool(b) => r == Some(RuntimeValue::Bool(*b)),
                Value::Int(n) => r == Some(RuntimeValue::Int(*n)),
                Value::Str(s) => r matches Some(x) && x@ == SpecRuntime::Str(s@),
                Value::Float(_) => r is None,
            },
    {
        match v {
            Value::Null => Some(RuntimeValue::Null),
            Value::Bool(b) => Some(RuntimeValue::Bool(*b)),
            Value::Int(n) => Some(RuntimeValue::Int(*n)),
            Value::Str(s) => Some(RuntimeValue::Str(s.clone())),
            Value::Float(_) => None,
        }
    }

    /// Whether the value counts as true in a condition.
    pub fn is_truthy(&self) -> (b: bool)
        ensures
            b == truthy(self@),
    {
        match self {
            RuntimeValue::Null => false,
            RuntimeValue::Bool(b) => *b,
            RuntimeValue::Int(n) => *n != 0,
            _ => true,
        }
    }

    /// Whether `==` holds between two values.
    pub fn equals(&self, other: &RuntimeValue) -> (b: bool)
        ensures
            b == values_equal(self@, other@),
    {
        match self {
            RuntimeValue::Null => matches!(other, RuntimeValue::Null),
            RuntimeValue::Bool(x) => match other {
                RuntimeValue::Bool(y) => *x == *y,
                _ => false,
            },
            RuntimeValue::Int(x) => match other {
                RuntimeValue::Int(y) => *x == *y,
                _ => false,
            },
            RuntimeValue::Str(x) => match other {
                RuntimeValue::Str(y) => x.eq(y),
                _ => false,
            },
            _ => false,
        }
    }

    /// A copy of the value.
    pub fn duplicate(&self) -> (r: RuntimeValue)
        ensures
            r@ == self@,
        decreases self,
    {
        match self {
            RuntimeValue::Null => RuntimeValue::Null,
            RuntimeValue::Bool(b) => RuntimeValue::Bool(*b),
            RuntimeValue::Int(n) => RuntimeValue::Int(*n),
            RuntimeValue::Str(s) => RuntimeValue::Str(s.clone()),
            RuntimeValue::Function(f) => RuntimeValue::Function(f.duplicate()),
            RuntimeValue::Native(n) => RuntimeValue::Native(*n),
            RuntimeValue::Array(elems) => {
                let mut out: Vec<RuntimeValue> = Vec::new();
                let mut i: usize = 0;
                #[verifier::loop_isolation(false)]
                while i < elems.len()
                    invariant
                        i <= elems@.len(),
                        out@.len() == i,
                        forall|j: int| 0 <= j < i ==> (#[trigger] out@[j])@ == elems@[j]@,
                    decreases elems@.len() - i,
                {
                    out.push(elems[i].duplicate());
                    i = i + 1;
                }
                let ghost ov = out@;
                let r = RuntimeValue::Array(out);
                proof {
                    let a = r@->Items_0;
                    let b = self@->Items_0;
                    assert(ov.len() == elems@.len());
                    assert(a.len() == ov.len());
                    assert(b.len() == elems@.len());
                    assert(a.len() == b.len());
                    assert forall|j: int| 0 <= j < a.len() implies a[j] == b[j] by {
                        assert(a[j] == ov[j]@);
                        assert(b[j] == elems@[j]@);
                    }
                    assert(a =~= b);
                }
                r
            },
        }
    }
}

/// Appends how `v` prints to `out`.
pub fn push_value(out: &mut String, v: &RuntimeValue)
    ensures
        final(out)@ == old(out)@ + stringify(v@),
    decreases v,
{
    match v {
        RuntimeValue::Null => push_str(out, "null"),
        RuntimeValue::Bool(b) => {
            if *b {
                push_str(out, "true");
            } else {
                push_str(out, "false");
            }
        },
        RuntimeValue::Int(n) => push_int(out, *n),
        RuntimeValue::Str(s) => push_str(out, s.as_str()),
        RuntimeValue::Function(f) => {
            push_str(out, "<fn ");
            push_str(out, f.name.as_str());
            push_str(out, ">");
            assert(old(out)@ + "<fn "@ + f.name@ + ">"@ =~= old(out)@ + ("<fn "@ + f.name@ + ">"@));
        },
        RuntimeValue::Native(n) => {
            push_str(out, "<native fn ");
            push_str(out, n.name());
            push_str(out, ">");
            assert(old(out)@ + "<native fn "@ + native_name(*n) + ">"@ =~= old(out)@ + ("<native fn "@ + native_name(
                *n,
            ) + ">"@));
        },
        RuntimeValue::Array(elems) => {
            push_str(out, "[");
            let ghost start = out@;
            let ghost ev = v@->Items_0;
            let mut i: usize = 0;
            #[verifier::loop_isolation(false)]
            while i < elems.len()
                invariant
                    i <= elems@.len(),
                    out@ == start + join_values(ev.subrange(0, i as int)),
                decreases elems@.len() - i,
            {
                let ghost before = out@;
                if i > 0 {
                    push_str(out, ", ");
                }
                push_value(out, &elems[i]);
                proof {
                    assert(ev.len() == elems@.len());
                    assert(ev[i as int] == elems@[i as int]@);
                    let s = ev.subrange(0, i + 1);
                    assert(s.drop_last() =~= ev.subrange(0, i as int));
                    assert(s.last() == elems@[i as int]@);
                    if i == 0 {
                        assert(s.len() == 1);
                        assert(s[0] == elems@[0]@);
                        assert(ev.subrange(0, 0) =~= Seq::<SpecRuntime>::empty());
                    }
                }
                i = i + 1;
            }
            push_str(out, "]");
            proof {
                assert(ev.len() == elems@.len());
                assert(ev.subrange(0, elems@.len() as int) =~= ev);
                assert(old(out)@ + "["@ + join_values(ev) + "]"@ =~= old(out)@ + ("["@ + join_values(ev) + "]"@));
            }
        },
    }
}

/// How a value prints.
pub fn stringify_value(v: &RuntimeValue) -> (s: String)
    ensures
        s@ == stringify(v@),
{
    let mut s = String::new();
    push_value(&mut s, v);
    assert(Seq::<char>::empty() + stringify(v@) =~= stringify(v@));
    s
}

/// What the program running the interpreter answers to a call of a native
/// function that works with the outside world: the value the call gives,
/// or the message of the runtime error it fails with.
#[derive(Debug)]
pub enum IoReply {
    Value(RuntimeValue),
    Failure(String),
}

/// The model of an [`IoReply`].
pub enum SpecReply {
    Value(SpecRuntime),
    Failure(Seq<char>),
}

impl View for IoReply {
    type V = SpecReply;

    open spec fn view(&self) -> SpecReply {
        match self {
            IoReply::Value(v) => SpecReply::Value(v@),
            IoReply::Failure(m) => SpecReply::Failure(m@),
        }
    }
}

/// A call of a native function that works with the outside world, which
/// the interpreter hands to the program running it: the function and the
/// arguments of the call.
#[derive(Debug)]
pub struct IoRequest {
    pub native: NativeFn,
    pub args: Vec<RuntimeValue>,
}

} // verus!
