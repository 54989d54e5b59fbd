//! Reading the messages of the `matc` material compiler into diagnostics.
use vstd::prelude::*;
use crate::diagnostics::{Diagnostic, DiagnosticSeverity, TextPosition, TextRange};
use crate::editor::{lines_from, text_lines};
use crate::shader_symbols::{lemma_first_stop, Stop, first_occurrence, first_occurrence_exec, line_at, line_end, line_exec, trim, trim_exec};
use crate::signature_help::{last_index_of};
use crate::text::{chars_occur_at, chars_to_string, has_prefix, occurs_at, str_to_chars, sub_chars};

verus! {

/// How to run the compiler.
pub struct MatcConfig {
    pub matc_path: String,
    pub platform: String,
    pub api: String,
}

/// A message of the compiler.
pub struct MatcDiagnostic {
    pub severity: DiagnosticSeverity,
    pub message: String,
    pub line: Option<u32>,
    pub file: Option<String>,
}

pub struct MatcView {
    pub severity: DiagnosticSeverity,
    pub message: Seq<char>,
    pub line: Option<u32>,
    pub file: Option<Seq<char>>,
}

impl View for MatcDiagnostic {
    type V = MatcView;

    open spec fn view(&self) -> MatcView {
        MatcView {
            severity: self.severity,
            message: self.message@,
            line: self.line,
            file: match self.file {
                Some(f) => Some(f@),
                None => None,
            },
        }
    }
}

pub open spec fn matc_views(s: Seq<MatcDiagnostic>) -> Seq<MatcView> {
    s.map_values(|d: MatcDiagnostic| d@)
}

pub open spec fn digit_value(c: char) -> int {
    c as int - '0' as int
}

pub open spec fn all_ascii_digits(s: Seq<char>) -> bool {
    forall|i: int| 0 <= i < s.len() ==> '0' <= #[trigger] s[i] <= '9'
}

/// The decimal value of a string of digits.
pub open spec fn decimal(s: Seq<char>) -> int
    decreases s.len(),
{
    if s.len() == 0 { 0 } else { decimal(s.drop_last()) * 10 + digit_value(s.last()) }
}

/// `u32::from_str`: an optional `+`, then at least one ASCII digit, with a
/// value that fits in a `u32`.
pub open spec fn parse_u32(s: Seq<char>) -> Option<u32> {
    let d = if s.len() > 0 && s[0] == '+' { s.skip(1) } else { s };
    if d.len() > 0 && all_ascii_digits(d) && decimal(d) <= u32::MAX {
        Some(decimal(d) as u32)
    } else {
        None
    }
}

pub open spec fn contains(s: Seq<char>, pat: Seq<char>) -> bool {
    exists|i: int| occurs_at(s, pat, i)
}

/// A message after `ERROR: ` or `WARNING: `: `file:line: message`,
/// `file: message`, or just a message.
pub open spec fn matc_line(rest: Seq<char>, severity: DiagnosticSeverity) -> MatcView {
    match first_occurrence(rest, ": "@, 0) {
        Some(f) => {
            let fp = rest.take(f);
            let msg = rest.skip(f + 2);
            match last_index_of(fp, ':') {
                Some(g) => match parse_u32(fp.skip(g + 1)) {
                    Some(n) => MatcView { severity, message: msg, line: Some(n), file: Some(fp.take(g)) },
                    None => MatcView { severity, message: msg, line: None, file: Some(fp) },
                },
                None => MatcView { severity, message: msg, line: None, file: Some(fp) },
            }
        },
        None => MatcView { severity, message: rest, line: None, file: None },
    }
}

/// The diagnostic of one trimmed, non-empty line of output.
pub open spec fn output_line(t: Seq<char>) -> MatcView {
    if has_prefix(t, "ERROR: "@) {
        matc_line(t.skip(7), DiagnosticSeverity::Error)
    } else if has_prefix(t, "WARNING: "@) {
        matc_line(t.skip(9), DiagnosticSeverity::Warning)
    } else if contains(t, "error"@) || contains(t, "Error"@) {
        MatcView { severity: DiagnosticSeverity::Error, message: t, line: None, file: None }
    } else if contains(t, "warning"@) || contains(t, "Warning"@) {
        MatcView { severity: DiagnosticSeverity::Warning, message: t, line: None, file: None }
    } else {
        MatcView { severity: DiagnosticSeverity::Error, message: t, line: None, file: None }
    }
}

/// The diagnostics of the lines from the one at `s`, skipping blank ones.
pub open spec fn output_lines(c: Seq<char>, s: int) -> Seq<MatcView>
    decreases c.len() + 1 - s,
{
    if s < 0 || s >= c.len() {
        seq![]
    } else {
        proof {
            crate::shader_symbols::lemma_first_stop(c, s, crate::shader_symbols::Stop::Newline);
        }
        let t = trim(line_at(c, s));
        (if t.len() == 0 { seq![] } else { seq![output_line(t)] }) + output_lines(c, line_end(c, s) + 1)
    }
}

/// The diagnostics of a list of lines: one for each line that is not blank
/// once trimmed, in order, read from the trimmed line.
pub open spec fn lines_diagnostics(lines: Seq<Seq<char>>) -> Seq<MatcView>
    decreases lines.len(),
{
    if lines.len() == 0 {
        seq![]
    } else {
        let t = trim(lines[0]);
        (if t.len() == 0 { seq![] } else { seq![output_line(t)] }) + lines_diagnostics(lines.drop_first())
    }
}

proof fn lemma_output_lines_from(c: Seq<char>, s: int)
    requires
        0 <= s,
    ensures
        output_lines(c, s) == lines_diagnostics(lines_from(c, s)),
    decreases c.len() + 1 - s,
{
    if s < c.len() {
        lemma_first_stop(c, s, Stop::Newline);
        let e = line_end(c, s);
        lemma_output_lines_from(c, e + 1);
        let ls = lines_from(c, s);
        assert(ls == seq![line_at(c, s)] + lines_from(c, e + 1));
        assert(ls.drop_first() =~= lines_from(c, e + 1));
        assert(ls[0] == line_at(c, s));
    }
}

/// The compiler's output gives one diagnostic for each of its lines (as
/// `str::lines` splits them) that is not blank once trimmed, in the order of
/// the lines, each read from its trimmed line.
pub proof fn lemma_matc_output_by_lines(c: Seq<char>)
    ensures
        output_lines(c, 0) == lines_diagnostics(text_lines(c)),
{
    lemma_output_lines_from(c, 0);
}

fn parse_u32_exec(s: &[char]) -> (r: Option<u32>)
    ensures
        r == parse_u32(s@),
{
    let start: usize = if s.len() > 0 && s[0] == '+' { 1 } else { 0 };
    let ghost d = if s@.len() > 0 && s@[0] == '+' { s@.skip(1) } else { s@ };
    assert(d =~= s@.skip(start as int));
    if start >= s.len() {
        return None;
    }
    let mut v: u64 = 0;
    let mut i = start;
    assert(d.take(0) =~= Seq::<char>::empty());
    while i < s.len()
        invariant
            start <= i <= s@.len(),
            d == s@.skip(start as int),
            d == (if s@.len() > 0 && s@[0] == '+' { s@.skip(1) } else { s@ }),
            all_ascii_digits(d.take(i - start)),
            v == decimal(d.take(i - start)),
            v <= u32::MAX,
        decreases s.len() - i,
    {
        let ch = s[i];
        assert(d.take(i + 1 - start).drop_last() =~= d.take(i - start));
        assert(d.take(i + 1 - start).last() == ch);
        if ch < '0' || ch > '9' {
            assert(!all_ascii_digits(d)) by {
                assert(d[i - start] == ch);
            }
            return None;
        }
        let dv = (ch as u32 - '0' as u32) as u64;
        if v * 10 + dv > u32::MAX as u64 {
            proof {
                if all_ascii_digits(d) {
                    lemma_decimal_grows(d, i + 1 - start);
                }
            }
            return None;
        }
        v = v * 10 + dv;
        i = i + 1;
    }
    assert(d.take(i - start) =~= d);
    Some(v as u32)
}

proof fn lemma_decimal_nonneg(d: Seq<char>)
    requires
        all_ascii_digits(d),
    ensures
        decimal(d) >= 0,
    decreases d.len(),
{
    if d.len() > 0 {
        assert(all_ascii_digits(d.drop_last())) by {
            assert forall|i: int| 0 <= i < d.drop_last().len() implies '0' <= #[trigger] d.drop_last()[i] <= '9' by {
                assert(d.drop_last()[i] == d[i]);
            }
        }
        lemma_decimal_nonneg(d.drop_last());
        assert('0' <= d.last() <= '9');
    }
}

/// The value of a digit string is at least that of any prefix.
proof fn lemma_decimal_grows(d: Seq<char>, n: int)
    requires
        0 <= n <= d.len(),
        all_ascii_digits(d),
    ensures
        decimal(d.take(n)) <= decimal(d),
    decreases d.len() - n,
{
    if n < d.len() {
        lemma_decimal_grows(d, n + 1);
        assert(d.take(n + 1).drop_last() =~= d.take(n));
        assert(d.take(n + 1).last() == d[n]);
        assert(all_ascii_digits(d.take(n))) by {
            assert forall|i: int| 0 <= i < d.take(n).len() implies '0' <= #[trigger] d.take(n)[i] <= '9' by {
                assert(d.take(n)[i] == d[i]);
            }
        }
        lemma_decimal_nonneg(d.take(n));
        let x = decimal(d.take(n));
        let y = digit_value(d[n]);
        assert(x * 10 + y >= x) by (nonlinear_arith)
            requires
                x >= 0,
                y >= 0,
        ;
    } else {
        assert(d.take(n) =~= d);
    }
}

/// Reads the message after `ERROR: ` or `WARNING: `.
pub fn parse_matc_line(rest: &str, severity: DiagnosticSeverity) -> (r: MatcDiagnostic)
    ensures
        r@ == matc_line(rest@, severity),
{
    let c = str_to_chars(rest);
    let sep = [':', ' '];
    assert(sep@ =~= ": "@) by {
        reveal_strlit(": ");
    }
    match first_occurrence_exec(c.as_slice(), sep.as_slice(), 0) {
        Some(f) => {
            let cl = c.len();
            let fp = sub_chars(c.as_slice(), 0, f);
            assert(fp@ =~= c@.take(f as int));
            let msg = sub_chars(c.as_slice(), f + 2, cl);
            assert(msg@ =~= c@.skip(f + 2));
            let mut g = fp.len();
            assert(fp@.take(fp@.len() as int) =~= fp@);
            let mut found = false;
            while g > 0
                invariant_except_break
                    last_index_of(fp@, ':') == last_index_of(fp@.take(g as int), ':'),
                    !found,
                invariant
                    g <= fp@.len(),
                ensures
                    found ==> g > 0 && last_index_of(fp@, ':') == Some(g - 1),
                    !found ==> last_index_of(fp@, ':') is None,
                decreases g,
            {
                assert(fp@.take(g as int).drop_last() =~= fp@.take(g - 1));
                if fp[g - 1] == ':' {
                    found = true;
                    break;
                }
                g = g - 1;
            }
            if found {
                let gi = g - 1;
                let tail = sub_chars(fp.as_slice(), gi + 1, fp.len());
                assert(tail@ =~= fp@.skip(gi + 1));
                match parse_u32_exec(tail.as_slice()) {
                    Some(n) => {
                        let file = sub_chars(fp.as_slice(), 0, gi);
                        assert(file@ =~= fp@.take(gi as int));
                        return MatcDiagnostic {
                            severity,
                            message: chars_to_string(msg.as_slice()),
                            line: Some(n),
                            file: Some(chars_to_string(file.as_slice())),
                        };
                    },
                    None => {},
                }
            }
            MatcDiagnostic { severity, message: chars_to_string(msg.as_slice()), line: None, file: Some(chars_to_string(fp.as_slice())) }
        },
        None => MatcDiagnostic { severity, message: chars_to_string(c.as_slice()), line: None, file: None },
    }
}

fn contains_exec(t: &[char], pat: &str) -> (r: bool)
    ensures
        r == contains(t@, pat@),
{
    let p = str_to_chars(pat);
    if p.len() == 0 {
        assert(occurs_at(t@, pat@, 0)) by {
            assert(t@.subrange(0, 0) =~= pat@);
        }
        return true;
    }
    let mut i: usize = 0;
    while i < t.len()
        invariant
            p@ == pat@,
            p@.len() > 0,
            forall|k: int| 0 <= k < i ==> !occurs_at(t@, pat@, k),
        decreases t.len() - i,
    {
        if chars_occur_at(t, p.as_slice(), i) {
            return true;
        }
        i = i + 1;
    }
    false
}

fn starts_with(t: &[char], pat: &str) -> (r: bool)
    ensures
        r == has_prefix(t@, pat@),
{
    let p = str_to_chars(pat);
    let r = chars_occur_at(t, p.as_slice(), 0);
    assert(p@.len() <= t@.len() ==> t@.take(p@.len() as int) =~= t@.subrange(0, p@.len() as int));
    r
}

fn output_line_exec(t: &[char]) -> (r: MatcDiagnostic)
    ensures
        r@ == output_line(t@),
{
    proof {
        reveal_strlit("ERROR: ");
        reveal_strlit("WARNING: ");
    }
    if starts_with(t, "ERROR: ") {
        let rest = sub_chars(t, 7, t.len());
        assert(rest@ =~= t@.skip(7));
        let s = chars_to_string(rest.as_slice());
        parse_matc_line(s.as_str(), DiagnosticSeverity::Error)
    } else if starts_with(t, "WARNING: ") {
        let rest = sub_chars(t, 9, t.len());
        assert(rest@ =~= t@.skip(9));
        let s = chars_to_string(rest.as_slice());
        parse_matc_line(s.as_str(), DiagnosticSeverity::Warning)
    } else if contains_exec(t, "error") || contains_exec(t, "Error") {
        MatcDiagnostic { severity: DiagnosticSeverity::Error, message: chars_to_string(t), line: None, file: None }
    } else if contains_exec(t, "warning") || contains_exec(t, "Warning") {
        MatcDiagnostic { severity: DiagnosticSeverity::Warning, message: chars_to_string(t), line: None, file: None }
    } else {
        MatcDiagnostic { severity: DiagnosticSeverity::Error, message: chars_to_string(t), line: None, file: None }
    }
}

/// Reads the compiler's error output: one diagnostic per non-blank line.
pub fn parse_matc_output(stderr: &str) -> (r: Result<Vec<MatcDiagnostic>, String>)
    ensures
        r is Ok,
        r matches Ok(v) ==> matc_views(v@) == output_lines(stderr@, 0),
{
    let v = str_to_chars(stderr);
    let c = v.as_slice();
    let mut diags: Vec<MatcDiagnostic> = Vec::new();
    let mut s: usize = 0;
    assert(matc_views(diags@) =~= Seq::<MatcView>::empty());
    while s < c.len()
        invariant
            s <= c@.len(),
            c@ == stderr@,
            output_lines(c@, 0) == matc_views(diags@) + output_lines(c@, s as int),
        decreases c.len() - s,
    {
        let (line, e) = line_exec(c, s);
        let t = trim_exec(line.as_slice());
        let ghost before = matc_views(diags@);
        if t.len() > 0 {
            let d = output_line_exec(t.as_slice());
            let ghost prev = diags@;
            diags.push(d);
            assert(matc_views(diags@) =~= matc_views(prev).push(d@));
        }
        let next = if e < c.len() { e + 1 } else { c.len() };
        assert(output_lines(c@, next as int) == output_lines(c@, e + 1));
        assert(before + output_lines(c@, s as int) =~= matc_views(diags@) + output_lines(c@, next as int));
        s = next;
    }
    assert(matc_views(diags@) + output_lines(c@, s as int) =~= matc_views(diags@));
    Ok(diags)
}

/// The range of a compiler message: its whole line (zero-based), or the
/// start of the file when it has no line.
pub open spec fn matc_range(line: Option<u32>) -> TextRange {
    match line {
        Some(l) => {
            let l0 = if l > 0 { (l - 1) as u32 } else { 0u32 };
            TextRange { start: TextPosition { line: l0, character: 0 }, end: TextPosition { line: l0, character: 999 } }
        },
        None => TextRange { start: TextPosition { line: 0, character: 0 }, end: TextPosition { line: 0, character: 0 } },
    }
}

/// A compiler message as a diagnostic.
pub fn matc_diagnostic_to_lsp(diag: MatcDiagnostic) -> (r: Diagnostic)
    ensures
        r.message@ == diag.message@,
        r.severity == diag.severity,
        r.range == Some(matc_range(diag.line)),
{
    let range = match diag.line {
        Some(line) => {
            let l0 = line.saturating_sub(1);
            TextRange { start: TextPosition { line: l0, character: 0 }, end: TextPosition { line: l0, character: 999 } }
        },
        None => TextRange { start: TextPosition { line: 0, character: 0 }, end: TextPosition { line: 0, character: 0 } },
    };
    Diagnostic { message: diag.message, severity: diag.severity, range: Some(range) }
}

} // verus!
