//! `hex`, `base64_encode` and `base64_decode`.
use vstd::prelude::*;
use vstd::utf8::{decode_utf8, encode_utf8, valid_utf8};

use crate::interpreter::value::{RuntimeValue, SpecRuntime};
use crate::text::{chars_of, push_char};

verus! {

/// The lowercase hexadecimal digit of `v`.
pub open spec fn hex_digit(v: int) -> char {
    if v < 10 {
        (48 + v) as char
    } else {
        (87 + v) as char
    }
}

/// Two lowercase hexadecimal digits for each byte.
pub open spec fn hex_text(b: Seq<u8>) -> Seq<char>
    decreases b.len(),
{
    if b.len() == 0 {
        Seq::empty()
    } else {
        hex_text(b.drop_last()) + seq![hex_digit(b.last() as int / 16), hex_digit(b.last() as int % 16)]
    }
}

/// The base64 digit of `v`, for `v` below 64.
pub open spec fn b64_char(v: int) -> char {
    if v < 26 {
        (65 + v) as char
    } else if v < 52 {
        (71 + v) as char
    } else if v < 62 {
        (v - 4) as char
    } else if v == 62 {
        '+'
    } else {
        '/'
    }
}

/// The base64 text of `b`: four digits for each three bytes, with `=` for
/// the bytes that a last group lacks.
pub open spec fn b64_encode_spec(b: Seq<u8>) -> Seq<char>
    decreases b.len(),
{
    if b.len() == 0 {
        Seq::empty()
    } else {
        let b0 = b[0] as int;
        let b1 = if b.len() > 1 { b[1] as int } else { 0 };
        let b2 = if b.len() > 2 { b[2] as int } else { 0 };
        let group = seq![
            b64_char(b0 / 4),
            b64_char((b0 % 4) * 16 + b1 / 16),
            if b.len() > 1 { b64_char((b1 % 16) * 4 + b2 / 64) } else { '=' },
            if b.len() > 2 { b64_char(b2 % 64) } else { '=' },
        ];
        if b.len() > 3 {
            group + b64_encode_spec(b.skip(3))
        } else {
            group
        }
    }
}

/// Whether `c` is a base64 digit.
pub open spec fn is_b64_digit(c: char) -> bool {
    ('A' <= c && c <= 'Z') || ('a' <= c && c <= 'z') || ('0' <= c && c <= '9') || c == '+' || c == '/'
}

/// The value of a base64 digit.
pub open spec fn b64_value(c: char) -> int {
    if 'A' <= c && c <= 'Z' {
        c as int - 65
    } else if 'a' <= c && c <= 'z' {
        c as int - 71
    } else if '0' <= c && c <= '9' {
        c as int + 4
    } else if c == '+' {
        62
    } else {
        63
    }
}

/// The values of the base64 digits of `s`, in order; other characters are
/// skipped.
pub open spec fn b64_values(s: Seq<char>) -> Seq<int>
    decreases s.len(),
{
    if s.len() == 0 {
        Seq::empty()
    } else if is_b64_digit(s.last()) {
        b64_values(s.drop_last()).push(b64_value(s.last()))
    } else {
        b64_values(s.drop_last())
    }
}

/// The bytes that groups of four base64 values stand for; a last group of
/// two or three values gives one or two bytes.
pub open spec fn b64_bytes(v: Seq<int>) -> Seq<u8>
    decreases v.len(),
{
    if v.len() < 2 {
        Seq::empty()
    } else {
        let first = seq![(v[0] * 4 + v[1] / 16) as u8];
        let second = if v.len() >= 3 { seq![((v[1] % 16) * 16 + v[2] / 4) as u8] } else { Seq::empty() };
        let third = if v.len() >= 4 { seq![((v[2] % 4) * 64 + v[3]) as u8] } else { Seq::empty() };
        if v.len() > 4 {
            first + second + third + b64_bytes(v.skip(4))
        } else {
            first + second + third
        }
    }
}

/// The bytes that the base64 text `s` stands for.
pub open spec fn b64_decode_spec(s: Seq<char>) -> Seq<u8> {
    b64_bytes(b64_values(s))
}

/// The text that `String::from_utf8_lossy` makes of a byte sequence.
pub uninterp spec fn utf8_lossy(bytes: Seq<u8>) -> Seq<char>;

/// Calls `String::from_utf8_lossy` and takes the text it gives. Its
/// documentation says that valid UTF-8 comes back as the text it encodes;
/// what invalid bytes become is only named here.
#[verifier::external_body]
fn string_from_utf8_lossy(bytes: &Vec<u8>) -> (s: String)
    ensures
        s@ == utf8_lossy(bytes@),
        valid_utf8(bytes@) ==> s@ == decode_utf8(bytes@),
{
    String::from_utf8_lossy(bytes.as_slice()).into_owned()
}

fn hex_char(v: u8) -> (c: char)
    requires
        v < 16,
    ensures
        c == hex_digit(v as int),
{
    if v < 10 {
        (48 + v) as char
    } else {
        (87 + v) as char
    }
}

fn b64_digit(v: u8) -> (c: char)
    requires
        v < 64,
    ensures
        c == b64_char(v as int),
{
    if v < 26 {
        (65 + v) as char
    } else if v < 52 {
        (71 + v) as char
    } else if v < 62 {
        (v - 4) as char
    } else if v == 62 {
        '+'
    } else {
        '/'
    }
}

/// Two lowercase hexadecimal digits for each byte of `b`.
pub fn hex_of(b: &[u8]) -> (s: String)
    ensures
        s@ == hex_text(b@),
{
    let mut s = String::new();
    let mut i: usize = 0;
    while i < b.len()
        invariant
            i <= b@.len(),
            s@ == hex_text(b@.take(i as int)),
        decreases b@.len() - i,
    {
        let x = b[i];
        push_char(&mut s, hex_char(x / 16));
        push_char(&mut s, hex_char(x % 16));
        proof {
            let t = b@.take(i + 1);
            assert(t.drop_last() =~= b@.take(i as int));
            assert(t.last() == x);
        }
        i = i + 1;
    }
    assert(b@.take(b@.len() as int) =~= b@);
    s
}

/// The base64 text of `input`.
pub fn b64_encode(input: &[u8]) -> (s: String)
    ensures
        s@ == b64_encode_spec(input@),
{
    let mut s = String::new();
    let mut i: usize = 0;
    let n = input.len();
    assert(input@.skip(0) =~= input@);
    assert(s@ + b64_encode_spec(input@) =~= b64_encode_spec(input@));
    while i < n
        invariant
            i <= n,
            n == input@.len(),
            s@ + b64_encode_spec(input@.skip(i as int)) == b64_encode_spec(input@),
        decreases n - i,
    {
        let ghost rest = input@.skip(i as int);
        let b0 = input[i];
        let b1: u8 = if n - i > 1 { input[i + 1] } else { 0 };
        let b2: u8 = if n - i > 2 { input[i + 2] } else { 0 };
        let ghost before = s@;
        push_char(&mut s, b64_digit(b0 / 4));
        push_char(&mut s, b64_digit((b0 % 4) * 16 + b1 / 16));
        if n - i > 1 {
            push_char(&mut s, b64_digit((b1 % 16) * 4 + b2 / 64));
        } else {
            push_char(&mut s, '=');
        }
        if n - i > 2 {
            push_char(&mut s, b64_digit(b2 % 64));
        } else {
            push_char(&mut s, '=');
        }
        proof {
            assert(rest[0] == b0);
            if rest.len() > 1 {
                assert(rest[1] == b1);
            }
            if rest.len() > 2 {
                assert(rest[2] == b2);
            }
            let group = seq![
                b64_char(b0 as int / 4),
                b64_char((b0 as int % 4) * 16 + b1 as int / 16),
                if rest.len() > 1 { b64_char((b1 as int % 16) * 4 + b2 as int / 64) } else { '=' },
                if rest.len() > 2 { b64_char(b2 as int % 64) } else { '=' },
            ];
            assert(s@ =~= before + group);
            if n - i > 3 {
                assert(rest.skip(3) =~= input@.skip(i + 3));
                assert(b64_encode_spec(rest) == group + b64_encode_spec(input@.skip(i + 3)));
                assert(before + group + b64_encode_spec(input@.skip(i + 3)) =~= before + (group + b64_encode_spec(
                    input@.skip(i + 3),
                )));
            } else {
                assert(input@.skip(n as int) =~= Seq::<u8>::empty());
                assert(b64_encode_spec(rest) == group);
            }
        }
        i = if n - i > 3 { i + 3 } else { n };
    }
    assert(input@.skip(n as int) =~= Seq::<u8>::empty());
    assert(s@ + Seq::<char>::empty() =~= s@);
    s
}

fn is_b64(c: char) -> (b: bool)
    ensures
        b == is_b64_digit(c),
{
    ('A' <= c && c <= 'Z') || ('a' <= c && c <= 'z') || ('0' <= c && c <= '9') || c == '+' || c == '/'
}

fn b64_val(c: char) -> (v: u8)
    requires
        is_b64_digit(c),
    ensures
        v == b64_value(c),
        v < 64,
{
    if 'A' <= c && c <= 'Z' {
        (c as u8) - 65
    } else if 'a' <= c && c <= 'z' {
        (c as u8) - 71
    } else if '0' <= c && c <= '9' {
        (c as u8) + 4
    } else if c == '+' {
        62
    } else {
        63
    }
}

/// The bytes that the base64 text `input` stands for; characters that are
/// not base64 digits, `=` among them, are skipped.
pub fn b64_decode_bytes(input: &str) -> (out: Vec<u8>)
    ensures
        out@ == b64_decode_spec(input@),
{
    let cs = chars_of(input);
    let mut vals: Vec<u8> = Vec::new();
    let mut i: usize = 0;
    while i < cs.len()
        invariant
            i <= cs@.len(),
            cs@ == input@,
            vals@.len() == b64_values(cs@.take(i as int)).len(),
            forall|k: int| 0 <= k < vals@.len() ==> #[trigger] vals@[k] as int == b64_values(cs@.take(i as int))[k]
                && vals@[k] < 64,
        decreases cs@.len() - i,
    {
        proof {
            let t = cs@.take(i + 1);
            assert(t.drop_last() =~= cs@.take(i as int));
            assert(t.last() == cs@[i as int]);
        }
        if is_b64(cs[i]) {
            vals.push(b64_val(cs[i]));
        }
        i = i + 1;
    }
    assert(cs@.take(cs@.len() as int) =~= cs@);
    let ghost vs = b64_values(input@);
    let mut out: Vec<u8> = Vec::new();
    let mut j: usize = 0;
    let n = vals.len();
    assert(vs.skip(0) =~= vs);
    assert(out@ + b64_bytes(vs) =~= b64_bytes(vs));
    while j < n
        invariant
            j <= n,
            n == vals@.len(),
            n == vs.len(),
            forall|k: int| 0 <= k < n ==> #[trigger] vals@[k] as int == vs[k] && vals@[k] < 64,
            out@ + b64_bytes(vs.skip(j as int)) == b64_bytes(vs),
        decreases n - j,
    {
        let ghost rest = vs.skip(j as int);
        let ghost before = out@;
        let len = n - j;
        if len >= 2 {
            let v0 = vals[j];
            let v1 = vals[j + 1];
            out.push(v0 * 4 + v1 / 16);
            if len >= 3 {
                let v2 = vals[j + 2];
                out.push((v1 % 16) * 16 + v2 / 4);
                if len >= 4 {
                    let v3 = vals[j + 3];
                    out.push((v2 % 4) * 64 + v3);
                }
            }
            proof {
                assert(rest[0] == v0 as int);
                assert(rest[1] == v1 as int);
                let first = seq![(rest[0] * 4 + rest[1] / 16) as u8];
                let second = if rest.len() >= 3 { seq![((rest[1] % 16) * 16 + rest[2] / 4) as u8] } else { Seq::empty() };
                let third = if rest.len() >= 4 { seq![((rest[2] % 4) * 64 + rest[3]) as u8] } else { Seq::empty() };
                assert(out@ =~= before + (first + second + third));
                if rest.len() > 4 {
                    assert(rest.skip(4) =~= vs.skip(j + 4));
                } else {
                    assert(vs.skip(n as int) =~= Seq::<int>::empty());
                }
            }
        } else {
            proof {
                assert(b64_bytes(rest) =~= Seq::<u8>::empty());
                assert(vs.skip(n as int) =~= Seq::<int>::empty());
            }
        }
        j = if len > 4 { j + 4 } else { n };
    }
    proof {
        assert(vs.skip(n as int) =~= Seq::<int>::empty());
        assert(out@ + Seq::<u8>::empty() =~= out@);
    }
    out
}

/// `hex(text)`: two lowercase hexadecimal digits for each UTF-8 byte.
pub struct NativeHex;

impl NativeHex {
    pub fn arity(&self) -> (n: usize)
        ensures
            n == 1,
    {
        1
    }

    pub fn call(&self, arg: &RuntimeValue) -> (r: RuntimeValue)
        ensures
            r@ == match arg@ {
                SpecRuntime::Str(s) => SpecRuntime::Str(hex_text(encode_utf8(s))),
                _ => SpecRuntime::Null,
            },
    {
        match arg {
            RuntimeValue::Str(s) => RuntimeValue::Str(hex_of(s.as_str().as_bytes())),
            _ => RuntimeValue::Null,
        }
    }

    pub fn to_string(&self) -> (s: String)
        ensures
            s@ == "<native fn hex>"@,
    {
        "<native fn hex>".to_string()
    }
}

/// `base64_encode(text)`: the base64 text of the UTF-8 bytes of the text.
pub struct NativeBase64Encode;

impl NativeBase64Encode {
    pub fn arity(&self) -> (n: usize)
        ensures
            n == 1,
    {
        1
    }

    pub fn call(&self, arg: &RuntimeValue) -> (r: RuntimeValue)
        ensures
            r@ == match arg@ {
                SpecRuntime::Str(s) => SpecRuntime::Str(b64_encode_spec(encode_utf8(s))),
                _ => SpecRuntime::Null,
            },
    {
        match arg {
            RuntimeValue::Str(s) => RuntimeValue::Str(b64_encode(s.as_str().as_bytes())),
            _ => RuntimeValue::Null,
        }
    }

    pub fn to_string(&self) -> (s: String)
        ensures
            s@ == "<native fn base64_encode>"@,
    {
        "<native fn base64_encode>".to_string()
    }
}

/// `base64_decode(text)`: the text whose UTF-8 bytes the base64 text
/// stands for, with invalid UTF-8 replaced.
pub struct NativeBase64Decode;

impl NativeBase64Decode {
    pub fn arity(&self) -> (n: usize)
        ensures
            n == 1,
    {
        1
    }

    pub fn call(&self, arg: &RuntimeValue) -> (r: RuntimeValue)
        ensures
            r@ == match arg@ {
                SpecRuntime::Str(s) => SpecRuntime::Str(utf8_lossy(b64_decode_spec(s))),
                _ => SpecRuntime::Null,
            },
            arg@ matches SpecRuntime::Str(s) ==> (valid_utf8(b64_decode_spec(s)) ==> r@ == SpecRuntime::Str(
                decode_utf8(b64_decode_spec(s)),
            )),
    {
        match arg {
            RuntimeValue::Str(s) => {
                let bytes = b64_decode_bytes(s.as_str());
                RuntimeValue::Str(string_from_utf8_lossy(&bytes))
            },
            _ => RuntimeValue::Null,
        }
    }

    pub fn to_string(&self) -> (s: String)
        ensures
            s@ == "<native fn base64_decode>"@,
    {
        "<native fn base64_decode>".to_string()
    }
}


/// A base64 digit is read back as the value it was written for.
proof fn lemma_b64_digit_value(v: int)
    requires
        0 <= v < 64,
    ensures
        is_b64_digit(b64_char(v)),
        b64_value(b64_char(v)) == v,
{
    let c = b64_char(v);
    if v < 26 {
        assert(c as int == 65 + v);
    } else if v < 52 {
        assert(c as int == 71 + v);
    } else if v < 62 {
        assert(c as int == v - 4);
    }
}

/// Reading digits from two texts one after the other reads them from the
/// joined text.
proof fn lemma_b64_values_concat(x: Seq<char>, y: Seq<char>)
    ensures
        b64_values(x + y) == b64_values(x) + b64_values(y),
    decreases y.len(),
{
    if y.len() == 0 {
        assert(x + y =~= x);
        assert(b64_values(x) + b64_values(y) =~= b64_values(x));
    } else {
        let xy = x + y;
        assert(xy.drop_last() =~= x + y.drop_last());
        assert(xy.last() == y.last());
        lemma_b64_values_concat(x, y.drop_last());
        if is_b64_digit(y.last()) {
            assert(b64_values(x) + b64_values(y) =~= (b64_values(x) + b64_values(y.drop_last())).push(b64_value(y.last())));
        } else {
            assert(b64_values(x) + b64_values(y) =~= b64_values(x) + b64_values(y.drop_last()));
        }
    }
}

/// The values of the digits of one group of base64 text.
proof fn lemma_group_values(b: Seq<u8>)
    requires
        b.len() > 0,
    ensures
        ({
            let b0 = b[0] as int;
            let b1 = if b.len() > 1 { b[1] as int } else { 0 };
            let b2 = if b.len() > 2 { b[2] as int } else { 0 };
            let group = seq![
                b64_char(b0 / 4),
                b64_char((b0 % 4) * 16 + b1 / 16),
                if b.len() > 1 { b64_char((b1 % 16) * 4 + b2 / 64) } else { '=' },
                if b.len() > 2 { b64_char(b2 % 64) } else { '=' },
            ];
            let vals = if b.len() == 1 {
                seq![b0 / 4, (b0 % 4) * 16 + b1 / 16]
            } else if b.len() == 2 {
                seq![b0 / 4, (b0 % 4) * 16 + b1 / 16, (b1 % 16) * 4 + b2 / 64]
            } else {
                seq![b0 / 4, (b0 % 4) * 16 + b1 / 16, (b1 % 16) * 4 + b2 / 64, b2 % 64]
            };
            b64_values(group) == vals
        }),
{
    let b0 = b[0] as int;
    let b1 = if b.len() > 1 { b[1] as int } else { 0 };
    let b2 = if b.len() > 2 { b[2] as int } else { 0 };
    let v0 = b0 / 4;
    let v1 = (b0 % 4) * 16 + b1 / 16;
    let v2 = (b1 % 16) * 4 + b2 / 64;
    let v3 = b2 % 64;
    lemma_b64_digit_value(v0);
    lemma_b64_digit_value(v1);
    lemma_b64_digit_value(v2);
    lemma_b64_digit_value(v3);
    let c2 = if b.len() > 1 { b64_char(v2) } else { '=' };
    let c3 = if b.len() > 2 { b64_char(v3) } else { '=' };
    let group = seq![b64_char(v0), b64_char(v1), c2, c3];
    assert(group.drop_last().drop_last().drop_last().drop_last() =~= Seq::<char>::empty());
    assert(group.drop_last().drop_last().drop_last() =~= seq![b64_char(v0)]);
    assert(group.drop_last().drop_last() =~= seq![b64_char(v0), b64_char(v1)]);
    assert(group.drop_last() =~= seq![b64_char(v0), b64_char(v1), c2]);
    assert(b64_values(seq![b64_char(v0)]) =~= seq![v0]) by {
        let one = seq![b64_char(v0)];
        assert(one.drop_last() =~= Seq::<char>::empty());
        assert(one.last() == b64_char(v0));
        assert(b64_values(one.drop_last()) =~= Seq::<int>::empty());
        assert(b64_values(one) == b64_values(one.drop_last()).push(b64_value(one.last())));
        assert(Seq::<int>::empty().push(v0) =~= seq![v0]);
    }
    assert(b64_values(seq![b64_char(v0), b64_char(v1)]) =~= seq![v0, v1]) by {
        assert(seq![b64_char(v0), b64_char(v1)].drop_last() =~= seq![b64_char(v0)]);
    }
    assert(!is_b64_digit('='));
    assert(b64_values(seq![b64_char(v0), b64_char(v1), c2]) =~= if b.len() > 1 { seq![v0, v1, v2] } else { seq![v0, v1] }) by {
        assert(seq![b64_char(v0), b64_char(v1), c2].drop_last() =~= seq![b64_char(v0), b64_char(v1)]);
    }
}

/// The bytes of one group are read back from its digit values.
proof fn lemma_group_bytes(b0: int, b1: int, b2: int)
    requires
        0 <= b0 < 256,
        0 <= b1 < 256,
        0 <= b2 < 256,
    ensures
        ((b0 / 4) * 4 + ((b0 % 4) * 16 + b1 / 16) / 16) == b0,
        (((b0 % 4) * 16 + b1 / 16) % 16) * 16 + ((b1 % 16) * 4 + b2 / 64) / 4 == b1,
        (((b1 % 16) * 4 + b2 / 64) % 4) * 64 + b2 % 64 == b2,
{
    assert(((b0 / 4) * 4 + ((b0 % 4) * 16 + b1 / 16) / 16) == b0) by (nonlinear_arith)
        requires
            0 <= b0 < 256,
            0 <= b1 < 256,
    ;
    assert((((b0 % 4) * 16 + b1 / 16) % 16) * 16 + ((b1 % 16) * 4 + b2 / 64) / 4 == b1) by (nonlinear_arith)
        requires
            0 <= b0 < 256,
            0 <= b1 < 256,
            0 <= b2 < 256,
    ;
    assert((((b1 % 16) * 4 + b2 / 64) % 4) * 64 + b2 % 64 == b2) by (nonlinear_arith)
        requires
            0 <= b1 < 256,
            0 <= b2 < 256,
    ;
}

/// Decoding the base64 text of any bytes gives back those bytes.
pub proof fn law_base64_round_trip(b: Seq<u8>)
    ensures
        b64_decode_spec(b64_encode_spec(b)) == b,
    decreases b.len(),
{
    if b.len() == 0 {
        assert(b64_values(Seq::<char>::empty()) =~= Seq::<int>::empty());
        assert(b64_bytes(Seq::<int>::empty()) =~= Seq::<u8>::empty());
    } else {
        let b0 = b[0] as int;
        let b1 = if b.len() > 1 { b[1] as int } else { 0 };
        let b2 = if b.len() > 2 { b[2] as int } else { 0 };
        let group = seq![
            b64_char(b0 / 4),
            b64_char((b0 % 4) * 16 + b1 / 16),
            if b.len() > 1 { b64_char((b1 % 16) * 4 + b2 / 64) } else { '=' },
            if b.len() > 2 { b64_char(b2 % 64) } else { '=' },
        ];
        lemma_group_values(b);
        lemma_group_bytes(b0, b1, b2);
        let gv = b64_values(group);
        if b.len() > 3 {
            let rest = b.skip(3);
            law_base64_round_trip(rest);
            lemma_b64_values_concat(group, b64_encode_spec(rest));
            let all = gv + b64_values(b64_encode_spec(rest));
            assert(all.skip(4) =~= b64_values(b64_encode_spec(rest)));
            assert(b64_bytes(all) =~= seq![b[0], b[1], b[2]] + b64_bytes(b64_values(b64_encode_spec(rest))));
            assert(seq![b[0], b[1], b[2]] + rest =~= b);
        } else {
            assert(b64_encode_spec(b) == group);
            if b.len() == 1 {
                assert(b64_bytes(gv) =~= seq![b[0]]);
            } else if b.len() == 2 {
                assert(b64_bytes(gv) =~= seq![b[0], b[1]]);
            } else {
                assert(b64_bytes(gv) =~= seq![b[0], b[1], b[2]]);
            }
            assert(b =~= if b.len() == 1 { seq![b[0]] } else if b.len() == 2 { seq![b[0], b[1]] } else { seq![b[0], b[1], b[2]] });
        }
    }
}

/// `base64_decode` gives back the text that `base64_encode` encoded.
pub proof fn law_base64_text_round_trip(s: Seq<char>)
    ensures
        valid_utf8(b64_decode_spec(b64_encode_spec(encode_utf8(s)))),
        decode_utf8(b64_decode_spec(b64_encode_spec(encode_utf8(s)))) == s,
{
    law_base64_round_trip(encode_utf8(s));
    vstd::utf8::encode_utf8_valid_utf8(s);
    vstd::utf8::encode_utf8_decode_utf8(s);
}

/// `hex` writes two digits for each byte.
pub proof fn law_hex_length(b: Seq<u8>)
    ensures
        hex_text(b).len() == 2 * b.len(),
    decreases b.len(),
{
    if b.len() > 0 {
        law_hex_length(b.drop_last());
    }
}

} // verus!
