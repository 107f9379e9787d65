//! Diagnostics: the errors that each phase reports, and their rendering.
use vstd::prelude::*;

use crate::text::{push_char, push_str};

verus! {

/// The phase of the compiler that reported a diagnostic.
#[derive(Debug, Clone, Copy, PartialEq, Eq, Structural)]
pub enum DiagnosticPhase {
    Scan,
    Parse,
    Type,
    Codegen,
    Verify,
}

/// The name of a phase as it is rendered.
pub open spec fn phase_name(p: DiagnosticPhase) -> Seq<char> {
    match p {
        DiagnosticPhase::Scan => "scan"@,
        DiagnosticPhase::Parse => "parse"@,
        DiagnosticPhase::Type => "type"@,
        DiagnosticPhase::Codegen => "codegen"@,
        DiagnosticPhase::Verify => "verify"@,
    }
}

impl DiagnosticPhase {
    /// The name of the phase, as diagnostics render it.
    pub fn name(&self) -> (s: &'static str)
        ensures
            s@ == phase_name(*self),
    {
        match self {
            DiagnosticPhase::Scan => "scan",
            DiagnosticPhase::Parse => "parse",
            DiagnosticPhase::Type => "type",
            DiagnosticPhase::Codegen => "codegen",
            DiagnosticPhase::Verify => "verify",
        }
    }
}

/// One reported error.
#[derive(Debug, Clone)]
pub struct Diagnostic {
    pub phase: DiagnosticPhase,
    pub file: String,
    pub line: Option<usize>,
    pub message: String,
}

/// The mathematical model of a [`Diagnostic`].
pub struct SpecDiagnostic {
    pub phase: DiagnosticPhase,
    pub file: Seq<char>,
    pub line: Option<nat>,
    pub message: Seq<char>,
}

impl View for Diagnostic {
    type V = SpecDiagnostic;

    open spec fn view(&self) -> SpecDiagnostic {
        SpecDiagnostic {
            phase: self.phase,
            file: self.file@,
            line: match self.line {
                Some(l) => Some(l as nat),
                None => None,
            },
            message: self.message@,
        }
    }
}

/// The errors reported so far, in the order they were reported.
#[derive(Debug)]
pub struct Diagnostics {
    entries: Vec<Diagnostic>,
}

impl View for Diagnostics {
    type V = Seq<SpecDiagnostic>;

    closed spec fn view(&self) -> Seq<SpecDiagnostic> {
        self.entries@.map_values(|d: Diagnostic| d@)
    }
}

/// The decimal digit character of `d` (below ten).
pub open spec fn digit_char(d: nat) -> char {
    if d == 0 {
        '0'
    } else if d == 1 {
        '1'
    } else if d == 2 {
        '2'
    } else if d == 3 {
        '3'
    } else if d == 4 {
        '4'
    } else if d == 5 {
        '5'
    } else if d == 6 {
        '6'
    } else if d == 7 {
        '7'
    } else if d == 8 {
        '8'
    } else {
        '9'
    }
}

/// The decimal text of a natural number, without leading zeros.
pub open spec fn decimal_text(n: nat) -> Seq<char>
    decreases n,
{
    if n < 10 {
        seq![digit_char(n)]
    } else {
        decimal_text(n / 10).push(digit_char(n % 10))
    }
}

/// How one diagnostic is rendered, with its newline.
pub open spec fn render_entry(d: SpecDiagnostic) -> Seq<char> {
    match d.line {
        Some(l) => d.file + ":"@ + decimal_text(l) + ": error["@ + phase_name(d.phase) + "]: "@
            + d.message + "\n"@,
        None => d.file + ": error["@ + phase_name(d.phase) + "]: "@ + d.message + "\n"@,
    }
}

/// The rendering of the first `n` diagnostics of `ds`.
pub open spec fn render_entries(ds: Seq<SpecDiagnostic>, n: int) -> Seq<char>
    decreases n,
{
    if n <= 0 {
        Seq::empty()
    } else {
        render_entries(ds, n - 1) + render_entry(ds[n - 1])
    }
}

/// The rendering of a list of diagnostics.
pub open spec fn render_spec(ds: Seq<SpecDiagnostic>) -> Seq<char> {
    if ds.len() == 0 {
        "Compilation failed without diagnostics."@
    } else {
        render_entries(ds, ds.len() as int) + decimal_text(ds.len()) + " error(s) emitted."@
    }
}

fn digit(d: usize) -> (c: char)
    requires
        d < 10,
    ensures
        c == digit_char(d as nat),
{
    if d == 0 {
        '0'
    } else if d == 1 {
        '1'
    } else if d == 2 {
        '2'
    } else if d == 3 {
        '3'
    } else if d == 4 {
        '4'
    } else if d == 5 {
        '5'
    } else if d == 6 {
        '6'
    } else if d == 7 {
        '7'
    } else if d == 8 {
        '8'
    } else {
        '9'
    }
}

/// Appends the decimal text of `n` to `out`.
pub fn push_u64_decimal(out: &mut String, n: u64)
    ensures
        final(out)@ == old(out)@ + decimal_text(n as nat),
    decreases n,
{
    if n < 10 {
        push_char(out, digit(n as usize));
        assert(old(out)@.push(digit_char(n as nat)) =~= old(out)@ + seq![digit_char(n as nat)]);
    } else {
        push_u64_decimal(out, n / 10);
        push_char(out, digit((n % 10) as usize));
        assert(old(out)@ + decimal_text((n / 10) as nat) + seq![digit_char((n % 10) as nat)] =~= old(out)@
            + decimal_text(n as nat));
    }
}

/// Appends the decimal text of `n` to `out`.
pub fn push_decimal(out: &mut String, n: usize)
    ensures
        final(out)@ == old(out)@ + decimal_text(n as nat),
{
    push_u64_decimal(out, n as u64);
}

impl Default for Diagnostics {
    fn default() -> (d: Diagnostics)
        ensures
            d@ == Seq::<SpecDiagnostic>::empty(),
    {
        Diagnostics::new()
    }
}

impl Diagnostics {
    pub fn new() -> (d: Diagnostics)
        ensures
            d@ == Seq::<SpecDiagnostic>::empty(),
    {
        let d = Diagnostics { entries: Vec::new() };
        assert(d@ =~= Seq::<SpecDiagnostic>::empty());
        d
    }

    /// The number of diagnostics reported.
    pub fn len(&self) -> (n: usize)
        ensures
            n == self@.len(),
    {
        self.entries.len()
    }

    /// Reports an error of `phase` at `line` of `file`.
    pub fn emit_line(&mut self, phase: DiagnosticPhase, file: &str, line: usize, message: &str)
        ensures
            final(self)@ == old(self)@.push(
                SpecDiagnostic { phase, file: file@, line: Some(line as nat), message: message@ },
            ),
    {
        let d = Diagnostic { phase, file: file.to_string(), line: Some(line), message: message.to_string() };
        self.entries.push(d);
        assert(self@ =~= old(self)@.push(d@));
    }

    /// Reports an error of `phase` in `file`, at no particular line.
    pub fn emit(&mut self, phase: DiagnosticPhase, file: &str, message: &str)
        ensures
            final(self)@ == old(self)@.push(
                SpecDiagnostic { phase, file: file@, line: None, message: message@ },
            ),
    {
        let d = Diagnostic { phase, file: file.to_string(), line: None, message: message.to_string() };
        self.entries.push(d);
        assert(self@ =~= old(self)@.push(d@));
    }

    /// Appends the diagnostics of `other` after these.
    pub fn extend(&mut self, other: Diagnostics)
        ensures
            final(self)@ == old(self)@ + other@,
    {
        let mut other = other;
        let ghost o = other@;
        self.entries.append(&mut other.entries);
        assert(self@ =~= old(self)@ + o);
    }

    /// The diagnostics, in order.
    pub fn entries(&self) -> (r: &Vec<Diagnostic>)
        ensures
            r@.map_values(|d: Diagnostic| d@) == self@,
    {
        &self.entries
    }

    /// All the diagnostics, one per line, followed by their count.
    pub fn render(&self) -> (out: String)
        ensures
            out@ == render_spec(self@),
    {
        if self.entries.len() == 0 {
            return "Compilation failed without diagnostics.".to_string();
        }
        let mut out = String::new();
        let mut i: usize = 0;
        while i < self.entries.len()
            invariant
                i <= self.entries@.len(),
                out@ == render_entries(self@, i as int),
            decreases self.entries@.len() - i,
        {
            let entry = &self.entries[i];
            let ghost before = out@;
            push_str(&mut out, entry.file.as_str());
            match entry.line {
                Some(line) => {
                    push_str(&mut out, ":");
                    push_decimal(&mut out, line);
                    push_str(&mut out, ": error[");
                },
                None => {
                    push_str(&mut out, ": error[");
                },
            }
            push_str(&mut out, entry.phase.name());
            push_str(&mut out, "]: ");
            push_str(&mut out, entry.message.as_str());
            push_str(&mut out, "\n");
            proof {
                let d = self@[i as int];
                assert(d == entry@);
                assert(out@ =~= before + render_entry(d));
            }
            i = i + 1;
        }
        push_decimal(&mut out, self.entries.len());
        push_str(&mut out, " error(s) emitted.");
        out
    }
}

} // verus!
