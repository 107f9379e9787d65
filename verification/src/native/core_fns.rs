//! `print` and `rand`.
use vstd::prelude::*;

use crate::interpreter::value::{push_value, stringify, RuntimeValue, SpecRuntime};
use crate::text::push_char;

verus! {

/// `print(value)`: writes the value and a newline.
pub struct NativePrint;

impl NativePrint {
    pub fn arity(&self) -> (n: usize)
        ensures
            n == 1,
    {
        1
    }

    /// Appends the printed value and a newline to `out`.
    pub fn call(&self, out: &mut String, value: &RuntimeValue)
        ensures
            final(out)@ == old(out)@ + stringify(value@) + "\n"@,
    {
        push_value(out, value);
        push_char(out, '\n');
        proof {
            reveal_strlit("\n");
            assert(old(out)@ + stringify(value@) + "\n"@ =~= (old(out)@ + stringify(value@)).push('\n'));
        }
    }

    pub fn to_string(&self) -> (s: String)
        ensures
            s@ == "<native fn print>"@,
    {
        "<native fn print>".to_string()
    }
}

/// A number drawn by `rand::Rng::random_range` from `rand::rng()` in
/// `0..max`; the rand crate's documentation promises a value of the range
/// and panics only on an empty range, which `requires` rules out. Which
/// value comes is left open.
#[verifier::external_body]
fn random_below(max: i64) -> (r: i64)
    requires
        max > 0,
    ensures
        0 <= r < max,
{
    rand::Rng::random_range(&mut rand::rng(), 0..max)
}

/// `rand(max)`: a random integer from 0 up to, not including, `max`.
pub struct NativeRand;

impl NativeRand {
    pub fn arity(&self) -> (n: usize)
        ensures
            n == 1,
    {
        1
    }

    /// A random integer in `0..max` where the argument is a positive
    /// integer `max`, and 0 otherwise.
    pub fn call(&self, arg: &RuntimeValue) -> (r: RuntimeValue)
        ensures
            match arg@ {
                SpecRuntime::Int(max) => if max > 0 {
                    r@ matches SpecRuntime::Int(n) && 0 <= n < max
                } else {
                    r@ == SpecRuntime::Int(0)
                },
                _ => r@ == SpecRuntime::Int(0),
            },
    {
        match arg {
            RuntimeValue::Int(max) => {
                if *max <= 0 {
                    RuntimeValue::Int(0)
                } else {
                    RuntimeValue::Int(random_below(*max))
                }
            },
            _ => RuntimeValue::Int(0),
        }
    }

    pub fn to_string(&self) -> (s: String)
        ensures
            s@ == "<native fn rand>"@,
    {
        "<native fn rand>".to_string()
    }
}

} // verus!
