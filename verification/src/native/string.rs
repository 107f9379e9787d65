//! `size`, `trim`, `split` and `extract`.
use vstd::prelude::*;

use crate::interpreter::value::{RuntimeValue, SpecRuntime};
use crate::text::{chars_of, string_of_range};

verus! {

/// The characters that Unicode calls white space.
pub open spec fn is_white_space(c: char) -> bool {
    ||| ('\u{9}' <= c && c <= '\u{d}')
    ||| c == ' '
    ||| c == '\u{85}'
    ||| c == '\u{a0}'
    ||| c == '\u{1680}'
    ||| ('\u{2000}' <= c && c <= '\u{200a}')
    ||| c == '\u{2028}'
    ||| c == '\u{2029}'
    ||| c == '\u{202f}'
    ||| c == '\u{205f}'
    ||| c == '\u{3000}'
}

/// Whether `c` is white space.
pub fn white_space(c: char) -> (b: bool)
    ensures
        b == is_white_space(c),
{
    ('\u{9}' <= c && c <= '\u{d}') || c == ' ' || c == '\u{85}' || c == '\u{a0}' || c == '\u{1680}' || ('\u{2000}' <= c
        && c <= '\u{200a}') || c == '\u{2028}' || c == '\u{2029}' || c == '\u{202f}' || c == '\u{205f}' || c
        == '\u{3000}'
}

/// `s` without the white space at its start.
pub open spec fn trim_front(s: Seq<char>) -> Seq<char>
    decreases s.len(),
{
    if s.len() > 0 && is_white_space(s[0]) {
        trim_front(s.drop_first())
    } else {
        s
    }
}

/// `s` without the white space at its end.
pub open spec fn trim_back(s: Seq<char>) -> Seq<char>
    decreases s.len(),
{
    if s.len() > 0 && is_white_space(s.last()) {
        trim_back(s.drop_last())
    } else {
        s
    }
}

/// `s` without the white space at either end.
pub open spec fn trimmed(s: Seq<char>) -> Seq<char> {
    trim_back(trim_front(s))
}

/// Whether `p` occurs in `s` at position `i`.
pub open spec fn occurs_at(s: Seq<char>, p: Seq<char>, i: int) -> bool {
    0 <= i && i + p.len() <= s.len() && s.subrange(i, i + p.len()) == p
}

/// The first position at or after `i` where `p` occurs in `s`.
pub open spec fn find_from(s: Seq<char>, p: Seq<char>, i: int) -> Option<int>
    decreases s.len() + 1 - i,
{
    if i < 0 || i + p.len() > s.len() {
        None
    } else if occurs_at(s, p, i) {
        Some(i)
    } else {
        find_from(s, p, i + 1)
    }
}

/// The pieces of `s` between the occurrences of a non-empty `d`, found from
/// the left without overlap.
pub open spec fn split_pieces(s: Seq<char>, d: Seq<char>) -> Seq<Seq<char>>
    decreases s.len(),
{
    if d.len() == 0 {
        seq![s]
    } else {
        match find_from(s, d, 0) {
            Some(i) => if 0 <= i && i + d.len() <= s.len() {
                seq![s.take(i)] + split_pieces(s.skip(i + d.len()), d)
            } else {
                seq![s]
            },
            None => seq![s],
        }
    }
}

/// The pieces that splitting `s` at `d` gives: at an empty `d`, an empty
/// piece, each character, and an empty piece.
pub open spec fn split_spec(s: Seq<char>, d: Seq<char>) -> Seq<Seq<char>> {
    if d.len() == 0 {
        seq![Seq::<char>::empty()] + Seq::new(s.len(), |i: int| seq![s[i]]) + seq![Seq::<char>::empty()]
    } else {
        split_pieces(s, d)
    }
}

/// The text of `s` between the first `start` and the first `end` after it.
pub open spec fn extract_spec(s: Seq<char>, start: Seq<char>, end: Seq<char>) -> Option<Seq<char>> {
    match find_from(s, start, 0) {
        Some(i) => {
            let from = i + start.len();
            match find_from(s.skip(from), end, 0) {
                Some(j) => Some(s.subrange(from, from + j)),
                None => None,
            }
        },
        None => None,
    }
}

proof fn lemma_find_from_bounds(s: Seq<char>, p: Seq<char>, i: int)
    requires
        0 <= i,
    ensures
        find_from(s, p, i) matches Some(k) ==> i <= k && occurs_at(s, p, k) && forall|j: int|
            i <= j < k ==> !occurs_at(s, p, j),
        find_from(s, p, i) is None ==> forall|j: int| i <= j ==> !occurs_at(s, p, j),
    decreases s.len() + 1 - i,
{
    if i + p.len() > s.len() {
        assert forall|j: int| i <= j implies !occurs_at(s, p, j) by {}
    } else if occurs_at(s, p, i) {
    } else {
        lemma_find_from_bounds(s, p, i + 1);
    }
}

/// The first position at or after `from` where `p` occurs in `s`.
fn find(s: &Vec<char>, p: &Vec<char>, from: usize) -> (r: Option<usize>)
    requires
        from <= s@.len(),
    ensures
        match r {
            Some(k) => find_from(s@, p@, from as int) == Some(k as int),
            None => find_from(s@, p@, from as int) is None,
        },
{
    if p.len() > s.len() - from {
        return None;
    }
    if p.len() == 0 {
        assert(s@.subrange(from as int, from as int) =~= p@);
        return Some(from);
    }
    let mut i = from;
    while p.len() <= s.len() - i
        invariant
            from <= i <= s@.len(),
            p@.len() > 0,
            find_from(s@, p@, from as int) == find_from(s@, p@, i as int),
        decreases s@.len() - i,
    {
        let mut k: usize = 0;
        let mut same = true;
        while k < p.len() && same
            invariant
                k <= p@.len(),
                i + p@.len() <= s@.len(),
                s@.len() <= usize::MAX,
                same ==> forall|j: int| 0 <= j < k ==> s@[i + j] == p@[j],
                !same ==> exists|j: int| 0 <= j < p@.len() && s@[i + j] != p@[j],
            decreases p@.len() - k,
        {
            if s[i + k] != p[k] {
                same = false;
            }
            k = k + 1;
        }
        if same {
            assert(s@.subrange(i as int, i + p@.len()) =~= p@);
            return Some(i);
        }
        proof {
            let j = choose|j: int| 0 <= j < p@.len() && s@[i + j] != p@[j];
            assert(s@.subrange(i as int, i + p@.len())[j] != p@[j]);
        }
        i = i + 1;
    }
    None
}

/// `size(value)`: how many elements an array has, or how many bytes a
/// string takes in UTF-8.
pub struct NativeSize;

impl NativeSize {
    pub fn arity(&self) -> (n: usize)
        ensures
            n == 1,
    {
        1
    }

    pub fn call(&self, arg: &RuntimeValue) -> (r: RuntimeValue)
        ensures
            r@ == match arg@ {
                SpecRuntime::Items(elems) => SpecRuntime::Int(elems.len() as i64 as int),
                SpecRuntime::Str(s) => SpecRuntime::Int(vstd::utf8::encode_utf8(s).len() as usize as i64 as int),
                _ => SpecRuntime::Int(0),
            },
    {
        match arg {
            RuntimeValue::Array(a) => RuntimeValue::Int(a.len() as i64),
            RuntimeValue::Str(s) => RuntimeValue::Int(s.as_str().len() as i64),
            _ => RuntimeValue::Int(0),
        }
    }

    pub fn to_string(&self) -> (s: String)
        ensures
            s@ == "<native fn size>"@,
    {
        "<native fn size>".to_string()
    }
}

/// `trim(text)`: the text without white space at either end.
pub struct NativeTrim;

impl NativeTrim {
    pub fn arity(&self) -> (n: usize)
        ensures
            n == 1,
    {
        1
    }

    pub fn call(&self, arg: &RuntimeValue) -> (r: RuntimeValue)
        ensures
            r@ == match arg@ {
                SpecRuntime::Str(s) => SpecRuntime::Str(trimmed(s)),
                other => other,
            },
    {
        match arg {
            RuntimeValue::Str(s) => RuntimeValue::Str(trim(s.as_str())),
            other => other.duplicate(),
        }
    }

    pub fn to_string(&self) -> (s: String)
        ensures
            s@ == "<native fn trim>"@,
    {
        "<native fn trim>".to_string()
    }
}

/// `s` without white space at either end.
pub fn trim(s: &str) -> (r: String)
    ensures
        r@ == trimmed(s@),
{
    let cs = chars_of(s);
    let n = cs.len();
    let mut start: usize = 0;
    assert(s@.skip(0) =~= s@);
    while start < n && white_space(cs[start])
        invariant
            start <= n,
            n == cs@.len(),
            cs@ == s@,
            trim_front(s@) == trim_front(s@.skip(start as int)),
        decreases n - start,
    {
        proof {
            let t = s@.skip(start as int);
            assert(t.drop_first() =~= s@.skip(start + 1));
        }
        start = start + 1;
    }
    proof {
        let t = s@.skip(start as int);
        assert(trim_front(t) == t);
    }
    let ghost front = s@.skip(start as int);
    let mut end: usize = n;
    while end > start && white_space(cs[end - 1])
        invariant
            start <= end <= n,
            n == cs@.len(),
            cs@ == s@,
            front == s@.skip(start as int),
            trim_back(front) == trim_back(s@.subrange(start as int, end as int)),
        decreases end - start,
    {
        proof {
            let t = s@.subrange(start as int, end as int);
            assert(t.drop_last() =~= s@.subrange(start as int, end - 1));
            assert(t.last() == cs@[end - 1]);
        }
        end = end - 1;
    }
    proof {
        assert(front =~= s@.subrange(start as int, n as int));
        let t = s@.subrange(start as int, end as int);
        if t.len() > 0 {
            assert(t.last() == cs@[end - 1]);
        }
        assert(trim_back(t) == t);
    }
    string_of_range(&cs, start, end)
}

/// `split(text, delimiter)`: the pieces of the text between the
/// delimiters.
pub struct NativeSplit;

impl NativeSplit {
    pub fn arity(&self) -> (n: usize)
        ensures
            n == 2,
    {
        2
    }

    pub fn call(&self, text: &RuntimeValue, delim: &RuntimeValue) -> (r: RuntimeValue)
        ensures
            match (text@, delim@) {
                (SpecRuntime::Str(s), SpecRuntime::Str(d)) => r@ matches SpecRuntime::Items(items) && items.len()
                    == split_spec(s, d).len() && forall|i: int|
                    0 <= i < items.len() ==> #[trigger] items[i] == SpecRuntime::Str(split_spec(s, d)[i]),
                _ => r@ == SpecRuntime::Items(Seq::empty()),
            },
    {
        let s = match text {
            RuntimeValue::Str(s) => s,
            _ => {
                let r = RuntimeValue::Array(Vec::new());
                assert(r@->Items_0 =~= Seq::<SpecRuntime>::empty());
                return r;
            },
        };
        let d = match delim {
            RuntimeValue::Str(d) => d,
            _ => {
                let r = RuntimeValue::Array(Vec::new());
                assert(r@->Items_0 =~= Seq::<SpecRuntime>::empty());
                return r;
            },
        };
        let pieces = split(s.as_str(), d.as_str());
        let mut out: Vec<RuntimeValue> = Vec::new();
        let mut i: usize = 0;
        while i < pieces.len()
            invariant
                i <= pieces@.len(),
                out@.len() == i,
                forall|j: int| 0 <= j < i ==> (#[trigger] out@[j])@ == SpecRuntime::Str(pieces@[j]@),
            decreases pieces@.len() - i,
        {
            out.push(RuntimeValue::Str(pieces[i].clone()));
            i = i + 1;
        }
        let ghost ov = out@;
        let r = RuntimeValue::Array(out);
        proof {
            let items = r@->Items_0;
            assert forall|j: int| 0 <= j < items.len() implies #[trigger] items[j] == SpecRuntime::Str(
                split_spec(s@, d@)[j],
            ) by {
                assert(items[j] == ov[j]@);
            }
        }
        r
    }

    pub fn to_string(&self) -> (s: String)
        ensures
            s@ == "<native fn split>"@,
    {
        "<native fn split>".to_string()
    }
}

/// `extract(text, start, end)`: the text between the first `start` and
/// the first `end` after it.
pub struct NativeExtract;

impl NativeExtract {
    pub fn arity(&self) -> (n: usize)
        ensures
            n == 3,
    {
        3
    }

    pub fn call(&self, text: &RuntimeValue, start: &RuntimeValue, end: &RuntimeValue) -> (r: RuntimeValue)
        ensures
            r@ == match (text@, start@, end@) {
                (SpecRuntime::Str(s), SpecRuntime::Str(a), SpecRuntime::Str(b)) => match extract_spec(s, a, b) {
                    Some(x) => SpecRuntime::Str(x),
                    None => SpecRuntime::Null,
                },
                _ => SpecRuntime::Null,
            },
    {
        let (s, a, b) = match (text, start, end) {
            (RuntimeValue::Str(s), RuntimeValue::Str(a), RuntimeValue::Str(b)) => (s, a, b),
            _ => return RuntimeValue::Null,
        };
        match extract(s.as_str(), a.as_str(), b.as_str()) {
            Some(x) => RuntimeValue::Str(x),
            None => RuntimeValue::Null,
        }
    }

    pub fn to_string(&self) -> (s: String)
        ensures
            s@ == "<native fn extract>"@,
    {
        "<native fn extract>".to_string()
    }
}

/// The text of `s` between the first `start` and the first `end` after it.
pub fn extract(s: &str, start: &str, end: &str) -> (r: Option<String>)
    ensures
        match r {
            Some(x) => extract_spec(s@, start@, end@) == Some(x@),
            None => extract_spec(s@, start@, end@) is None,
        },
{
    let cs = chars_of(s);
    let a = chars_of(start);
    let b = chars_of(end);
    let _n = cs.len();
    match find(&cs, &a, 0) {
        Some(i) => {
            proof {
                lemma_find_from_bounds(s@, start@, 0);
            }
            let from = i + a.len();
            proof {
                lemma_find_shift(s@, end@, from as int, 0);
            }
            match find(&cs, &b, from) {
                Some(k) => {
                    proof {
                        lemma_find_from_bounds(s@, end@, from as int);
                        assert(find_from(s@.skip(from as int), end@, 0) == Some(k - from));
                        assert(s@.subrange(from as int, from + (k - from)) =~= cs@.subrange(from as int, k as int));
                    }
                    Some(string_of_range(&cs, from, k))
                },
                None => None,
            }
        },
        None => None,
    }
}

/// The pieces of `s` between the occurrences of `d`.
pub fn split(s: &str, d: &str) -> (r: Vec<String>)
    ensures
        r@.len() == split_spec(s@, d@).len(),
        forall|i: int| 0 <= i < r@.len() ==> #[trigger] r@[i]@ == split_spec(s@, d@)[i],
{
    let cs = chars_of(s);
    let ds = chars_of(d);
    let mut out: Vec<String> = Vec::new();
    if ds.len() == 0 {
        out.push(String::new());
        let mut i: usize = 0;
        while i < cs.len()
            invariant
                i <= cs@.len(),
                cs@ == s@,
                out@.len() == i + 1,
                out@[0]@ == Seq::<char>::empty(),
                forall|j: int| 1 <= j <= i ==> #[trigger] out@[j]@ == seq![cs@[j - 1]],
            decreases cs@.len() - i,
        {
            out.push(string_of_range(&cs, i, i + 1));
            proof {
                assert(cs@.subrange(i as int, i + 1) =~= seq![cs@[i as int]]);
            }
            i = i + 1;
        }
        out.push(String::new());
        proof {
            let sp = split_spec(s@, d@);
            assert(sp.len() == out@.len());
            assert forall|i: int| 0 <= i < out@.len() implies #[trigger] out@[i]@ == sp[i] by {
                if i == 0 {
                } else if i < out@.len() - 1 {
                    assert(sp[i] == seq![s@[i - 1]]);
                } else {
                }
            }
        }
        return out;
    }
    let _n = cs.len();
    let ghost mut so_far: Seq<Seq<char>> = Seq::empty();
    let mut pos: usize = 0;
    assert(s@.skip(0) =~= s@);
    assert(so_far + split_pieces(s@, d@) =~= split_pieces(s@, d@));
    let mut done = false;
    while !done
        invariant
            pos <= cs@.len(),
            cs@.len() <= usize::MAX,
            cs@ == s@,
            ds@ == d@,
            ds@.len() > 0,
            out@.len() == so_far.len(),
            forall|i: int| 0 <= i < out@.len() ==> #[trigger] out@[i]@ == so_far[i],
            !done ==> split_pieces(s@, d@) == so_far + split_pieces(s@.skip(pos as int), d@),
            done ==> split_pieces(s@, d@) == so_far,
        decreases cs@.len() - pos + (if done { 0int } else { 1int }),
    {
        let ghost rest = s@.skip(pos as int);
        proof {
            lemma_find_shift(s@, d@, pos as int, 0);
        }
        match find(&cs, &ds, pos) {
            Some(k) => {
                proof {
                    lemma_find_from_bounds(rest, d@, 0);
                    assert(find_from(rest, d@, 0) == Some(k - pos));
                    assert(rest.skip(k - pos + ds@.len()) =~= s@.skip(k + ds@.len()));
                    assert(split_pieces(rest, d@) == seq![rest.take(k - pos)] + split_pieces(s@.skip(k + ds@.len()), d@));
                }
                out.push(string_of_range(&cs, pos, k));
                proof {
                    assert(cs@.subrange(pos as int, k as int) =~= rest.take(k - pos));
                    assert(so_far + seq![rest.take(k - pos)] + split_pieces(s@.skip(k + ds@.len()), d@) =~= so_far + (
                    seq![rest.take(k - pos)] + split_pieces(s@.skip(k + ds@.len()), d@)));
                    so_far = so_far.push(rest.take(k - pos));
                }
                pos = k + ds.len();
            },
            None => {
                proof {
                    assert(find_from(rest, d@, 0) is None);
                    assert(split_pieces(rest, d@) == seq![rest]);
                }
                out.push(string_of_range(&cs, pos, cs.len()));
                proof {
                    assert(cs@.subrange(pos as int, cs@.len() as int) =~= rest);
                    so_far = so_far.push(rest);
                }
                done = true;
            },
        }
    }
    out
}

/// Finding from position `pos + j` of `s` is finding from `j` in what
/// follows `pos`, shifted.
proof fn lemma_find_shift(s: Seq<char>, p: Seq<char>, pos: int, j: int)
    requires
        0 <= pos <= s.len(),
        0 <= j,
    ensures
        find_from(s, p, pos + j) == match find_from(s.skip(pos), p, j) {
            Some(k) => Some(k + pos),
            None => None::<int>,
        },
    decreases s.len() + 1 - pos - j,
{
    let rest = s.skip(pos);
    if pos + j + p.len() > s.len() {
    } else {
        assert(s.subrange(pos + j, pos + j + p.len()) =~= rest.subrange(j, j + p.len()));
        if !occurs_at(s, p, pos + j) {
            lemma_find_shift(s, p, pos, j + 1);
        }
    }
}


/// The pieces of a split, joined back with the delimiter between them.
pub open spec fn join_pieces(ps: Seq<Seq<char>>, d: Seq<char>) -> Seq<char>
    decreases ps.len(),
{
    if ps.len() == 0 {
        Seq::empty()
    } else if ps.len() == 1 {
        ps[0]
    } else {
        ps[0] + d + join_pieces(ps.drop_first(), d)
    }
}

proof fn lemma_split_pieces_nonempty(s: Seq<char>, d: Seq<char>)
    ensures
        split_pieces(s, d).len() >= 1,
    decreases s.len(),
{
    if d.len() > 0 {
        match find_from(s, d, 0) {
            Some(i) => if 0 <= i && i + d.len() <= s.len() {
                lemma_split_pieces_nonempty(s.skip(i + d.len()), d);
            },
            None => {},
        }
    }
}

/// Joining the pieces of a split with the delimiter gives back the text.
pub proof fn law_split_then_join(s: Seq<char>, d: Seq<char>)
    requires
        d.len() > 0,
    ensures
        join_pieces(split_spec(s, d), d) == s,
    decreases s.len(),
{
    match find_from(s, d, 0) {
        Some(i) => {
            lemma_find_from_bounds(s, d, 0);
            let rest = s.skip(i + d.len());
            law_split_then_join(rest, d);
            lemma_split_pieces_nonempty(rest, d);
            let ps = split_pieces(s, d);
            assert(ps == seq![s.take(i)] + split_pieces(rest, d));
            assert(ps.drop_first() =~= split_pieces(rest, d));
            assert(ps[0] == s.take(i));
            assert(s.subrange(i, i + d.len()) == d);
            assert(s.take(i) + d + rest =~= s);
        },
        None => {},
    }
}

proof fn lemma_trim_front_starts(s: Seq<char>)
    ensures
        trim_front(s).len() > 0 ==> !is_white_space(trim_front(s)[0]),
    decreases s.len(),
{
    if s.len() > 0 && is_white_space(s[0]) {
        lemma_trim_front_starts(s.drop_first());
    }
}

proof fn lemma_trim_back_shape(s: Seq<char>)
    ensures
        trim_back(s).len() <= s.len(),
        trim_back(s) == s.take(trim_back(s).len() as int),
        trim_back(s).len() > 0 ==> !is_white_space(trim_back(s).last()),
    decreases s.len(),
{
    if s.len() > 0 && is_white_space(s.last()) {
        lemma_trim_back_shape(s.drop_last());
        let t = trim_back(s.drop_last());
        assert(s.drop_last().take(t.len() as int) =~= s.take(t.len() as int));
    } else {
        assert(s.take(s.len() as int) =~= s);
    }
}

/// Trimming trimmed text changes nothing.
pub proof fn law_trim_idempotent(s: Seq<char>)
    ensures
        trimmed(trimmed(s)) == trimmed(s),
{
    let f = trim_front(s);
    let t = trim_back(f);
    lemma_trim_front_starts(s);
    lemma_trim_back_shape(f);
    if t.len() > 0 {
        assert(t[0] == f[0]);
    }
    assert(trim_front(t) == t);
    assert(trim_back(t) == t);
}

} // verus!
