//! Diagnostics: what the compiler reports about the source, and how a
//! report is laid out for the terminal.
pub mod plain;

use crate::span::Span;
use crate::text::{count_newlines, line_start, lemma_count_newlines_bound};
use owo_colors::OwoColorize;
use vstd::prelude::*;
use vstd::string::StrSliceExecFns;

verus! {

/// How grave a diagnostic is.
#[derive(Debug, Clone, Copy, PartialEq, Eq, Structural)]
pub enum Severity {
    Error,
}

/// A message about a span of the source.
#[derive(Debug)]
pub struct Diagnostic {
    pub message: String,
    pub span: Span,
    pub severity: Severity,
}

impl Diagnostic {
    pub fn new(message: String, span: Span, severity: Severity) -> (d: Self)
        ensures
            d.message@ == message@,
            d.span == span,
            d.severity == severity,
    {
        Self { message, span, severity }
    }
}

/// `message` as an owned string.
pub fn owned(message: &str) -> (s: String)
    ensures
        s@ == message@,
{
    String::from_str(message)
}


/// A string of bytes as characters: the bytes of ASCII text.
pub open spec fn ascii_chars(bytes: Seq<u8>) -> Seq<char> {
    bytes.map_values(|b: u8| b as char)
}

/// All of the bytes are ASCII.
pub open spec fn is_ascii(bytes: Seq<u8>) -> bool {
    forall|i: int| 0 <= i < bytes.len() ==> bytes[i] < 128
}

/// The text that `String::from_utf8_lossy` makes of `bytes`.
pub uninterp spec fn utf8_lossy_text(bytes: Seq<u8>) -> Seq<char>;

/// `String::from_utf8_lossy`: the bytes as text, each invalid sequence
/// replaced by U+FFFD. Of ASCII bytes, which are valid UTF-8, it claims
/// that each byte becomes the character with the same code.
#[verifier::external_body]
pub(crate) fn utf8_lossy(bytes: &[u8]) -> (s: String)
    ensures
        s@ == utf8_lossy_text(bytes@),
        is_ascii(bytes@) ==> s@ == ascii_chars(bytes@),
{
    String::from_utf8_lossy(bytes).into_owned()
}

/// `String::push`: appends `c`.
#[verifier::external_body]
pub(crate) fn push_char(s: &mut String, c: char)
    ensures
        final(s)@ == old(s)@.push(c),
{
    s.push(c)
}

/// How `owo_colors` shows text in bold: the code `ESC [1m`, the text, then
/// the reset `ESC [0m`.
pub open spec fn bold_text(t: Seq<char>) -> Seq<char> {
    "\x1b[1m"@ + t + "\x1b[0m"@
}

/// How `owo_colors` shows text in a foreground colour: `ESC [<code>m`, the
/// text, then the default foreground `ESC [39m`.
pub open spec fn colored_text(code: Seq<char>, t: Seq<char>) -> Seq<char> {
    code + t + "\x1b[39m"@
}

/// `OwoColorize::bold`, shown: bold text as `bold_text` says.
#[verifier::external_body]
fn bold(text: &str) -> (s: String)
    ensures
        s@ == bold_text(text@),
{
    text.bold().to_string()
}

/// `OwoColorize::bright_red`, shown: colour code 91.
#[verifier::external_body]
fn bright_red(text: &str) -> (s: String)
    ensures
        s@ == colored_text("\x1b[91m"@, text@),
{
    text.bright_red().to_string()
}

/// `OwoColorize::bright_blue`, shown: colour code 94.
#[verifier::external_body]
fn bright_blue(text: &str) -> (s: String)
    ensures
        s@ == colored_text("\x1b[94m"@, text@),
{
    text.bright_blue().to_string()
}

/// `OwoColorize::green`, shown: colour code 32.
#[verifier::external_body]
fn green(text: &str) -> (s: String)
    ensures
        s@ == colored_text("\x1b[32m"@, text@),
{
    text.green().to_string()
}

/// The decimal digit `d`.
pub open spec fn digit_char(d: nat) -> char {
    if d == 0 { '0' } else if d == 1 { '1' } else if d == 2 { '2' } else if d == 3 { '3' } else if d == 4 { '4' }
    else if d == 5 { '5' } else if d == 6 { '6' } else if d == 7 { '7' } else if d == 8 { '8' } else { '9' }
}

/// `n` in decimal, most significant digit first.
pub open spec fn decimal(n: nat) -> Seq<char>
    decreases n,
{
    if n < 10 { seq![digit_char(n)] } else { decimal(n / 10).push(digit_char(n % 10)) }
}

/// `n` copies of `c`.
pub open spec fn repeated(c: char, n: nat) -> Seq<char> {
    Seq::new(n, |i: int| c)
}

/// The offset just past the line that holds offset `q`: the first newline
/// at or after `q`, or the end of `s`.
pub open spec fn line_end(s: Seq<u8>, q: int) -> int
    decreases s.len() - q,
{
    if q < 0 || q >= s.len() {
        if q < 0 { 0 } else { q }
    } else if s[q] == 10 {
        q
    } else {
        line_end(s, q + 1)
    }
}

/// The 1-based line and column of offset `p` of `s`.
pub open spec fn line_col(s: Seq<u8>, p: int) -> (nat, nat) {
    ((count_newlines(s, p) + 1) as nat, (p - line_start(s, p) + 1) as nat)
}

/// The text of a report: the label and message, where the span starts
/// (line `line`, column `col`), the source lines it covers, and a caret
/// under each of its bytes (one at least).
pub open spec fn report_text(label: Seq<char>, message: Seq<char>, line: nat, col: nat, text: Seq<char>, width: nat) -> Seq<char> {
    let l = decimal(line);
    let margin = repeated(' ', l.len() + 1);
    bold_text(colored_text("\x1b[91m"@, label)) + seq![' '] + bold_text(message) + " \n"@
        + "  "@ + bold_text(colored_text("\x1b[94m"@, "-->"@)) + " placeholderpath.op:"@
        + l + seq![':'] + decimal(col) + seq!['\n']
        + margin + "|\n"@
        + l + " | "@ + text + seq!['\n']
        + margin + "| "@ + repeated(' ', (col - 1) as nat)
        + bold_text(colored_text("\x1b[32m"@, repeated('^', if width == 0 { 1 } else { width })))
}

/// The report of diagnostic `d` with label `label` on source `src`.
pub open spec fn diagnostic_report(label: Seq<char>, src: Seq<u8>, d: Diagnostic) -> Seq<char> {
    let p = d.span.start_spec() as int;
    let (line, col) = line_col(src, p);
    let text = utf8_lossy_text(src.subrange(line_start(src, p), line_end(src, d.span.end_spec())));
    report_text(label, d.message@, line, col, text, d.span.len_spec())
}

/// The colored label a report begins with.
pub open spec fn label_text(label: Seq<char>) -> Seq<char> {
    bold_text(colored_text("\x1b[91m"@, label))
}

/// What follows the label in the report of diagnostic `d` on source `src`:
/// the message, the place, the line and the carets under the span.
pub open spec fn report_tail(src: Seq<u8>, d: Diagnostic) -> Seq<char> {
    let p = d.span.start_spec() as int;
    let (line, col) = line_col(src, p);
    let text = utf8_lossy_text(src.subrange(line_start(src, p), line_end(src, d.span.end_spec())));
    let l = decimal(line);
    let margin = repeated(' ', l.len() + 1);
    let width = d.span.len_spec();
    seq![' '] + bold_text(d.message@) + " \n"@
        + "  "@ + bold_text(colored_text("\x1b[94m"@, "-->"@)) + " placeholderpath.op:"@
        + l + seq![':'] + decimal(col) + seq!['\n']
        + margin + "|\n"@
        + l + " | "@ + text + seq!['\n']
        + margin + "| "@ + repeated(' ', (col - 1) as nat)
        + bold_text(colored_text("\x1b[32m"@, repeated('^', if width == 0 { 1 } else { width })))
}

/// A report is its label followed by the same text whatever the label: so
/// `DiagnosticEmitter::emit` and `DiagnosticFormatter::format`, which take
/// the same diagnostics, give the same report of a diagnostic but for the
/// label, `error:` against `error: `.
pub proof fn lemma_report_label(label: Seq<char>, src: Seq<u8>, d: Diagnostic)
    ensures
        diagnostic_report(label, src, d) == label_text(label) + report_tail(src, d),
{
    assert(diagnostic_report(label, src, d) =~= label_text(label) + report_tail(src, d));
}

/// Appends `n` in decimal.
pub(crate) fn push_decimal(s: &mut String, n: usize)
    ensures
        final(s)@ == old(s)@ + decimal(n as nat),
    decreases n,
{
    if n >= 10 {
        push_decimal(s, n / 10);
    }
    let d = n % 10;
    let c = match d {
        0 => '0',
        1 => '1',
        2 => '2',
        3 => '3',
        4 => '4',
        5 => '5',
        6 => '6',
        7 => '7',
        8 => '8',
        _ => '9',
    };
    push_char(s, c);
    assert(s@ =~= old(s)@ + decimal(n as nat));
}

/// Appends `n` in decimal.
fn push_decimal_wide(s: &mut String, n: u128)
    ensures
        final(s)@ == old(s)@ + decimal(n as nat),
    decreases n,
{
    if n >= 10 {
        push_decimal_wide(s, n / 10);
    }
    let d = n % 10;
    let c = match d {
        0 => '0',
        1 => '1',
        2 => '2',
        3 => '3',
        4 => '4',
        5 => '5',
        6 => '6',
        7 => '7',
        8 => '8',
        _ => '9',
    };
    push_char(s, c);
    assert(s@ =~= old(s)@ + decimal(n as nat));
}

/// Appends `n` copies of `c`.
fn push_repeated(s: &mut String, c: char, n: usize)
    ensures
        final(s)@ == old(s)@ + repeated(c, n as nat),
{
    let mut i: usize = 0;
    while i < n
        invariant
            i <= n,
            s@ == old(s)@ + repeated(c, i as nat),
        decreases n - i,
    {
        push_char(s, c);
        i = i + 1;
        assert(s@ =~= old(s)@ + repeated(c, i as nat));
    }
}

/// The source lines that the span from `start` to `end` covers, without
/// their final newline.
fn line_of(source: &[u8], start: usize, end: usize) -> (r: &[u8])
    requires
        start <= end <= source@.len(),
    ensures
        r@ == source@.subrange(line_start(source@, start as int), line_end(source@, end as int)),
{
    let mut first = start;
    while first > 0 && source[first - 1] != 10
        invariant
            first <= start <= source@.len(),
            line_start(source@, first as int) == line_start(source@, start as int),
        decreases first,
    {
        first = first - 1;
    }
    let mut finish = end;
    while finish < source.len() && source[finish] != 10
        invariant
            end <= finish <= source@.len(),
            line_end(source@, finish as int) == line_end(source@, end as int),
        decreases source@.len() - finish,
    {
        finish = finish + 1;
    }
    proof {
        lemma_line_start_bound(source@, start as int);
    }
    vstd::slice::slice_subrange(source, first, finish)
}

/// The line that holds offset `n` starts at or before it.
pub proof fn lemma_line_start_bound(s: Seq<u8>, n: int)
    ensures
        0 <= n <= s.len() ==> 0 <= line_start(s, n) <= n,
    decreases n,
{
    if 0 < n <= s.len() && s[n - 1] != 10 {
        lemma_line_start_bound(s, n - 1);
    }
}

/// The number of lines before offset `p`, and how far `p` is into its
/// line: the 1-based line and column of `p`, less one each.
fn line_col_of(source: &[u8], p: usize) -> (r: (usize, usize))
    requires
        p <= source@.len(),
    ensures
        r.0 + 1 == line_col(source@, p as int).0,
        r.1 + 1 == line_col(source@, p as int).1,
        r.0 <= p,
        r.1 <= p,
{
    let mut newlines: usize = 0;
    let mut begin: usize = 0;
    let mut i: usize = 0;
    while i < p
        invariant
            i <= p <= source@.len(),
            newlines == count_newlines(source@, i as int),
            begin == line_start(source@, i as int),
            newlines <= i,
        decreases p - i,
    {
        if source[i] == 10 {
            newlines = newlines + 1;
            begin = i + 1;
        }
        i = i + 1;
    }
    proof { lemma_line_start_bound(source@, p as int); }
    (newlines, p - begin)
}

/// The report of `diagnostic`, with `label`, as `diagnostic_report` says.
fn render(source: &[u8], diagnostic: &Diagnostic, label: &str) -> (s: String)
    requires
        diagnostic.span.end_spec() <= source@.len(),
    ensures
        s@ == diagnostic_report(label@, source@, *diagnostic),
{
    let mut fmt = String::new();
    let red = bright_red(label);
    fmt.append(bold(red.as_str()).as_str());
    push_char(&mut fmt, ' ');
    fmt.append(bold(diagnostic.message.as_str()).as_str());
    fmt.append(" \n");
    let start = diagnostic.span.start();
    let (before, into) = line_col_of(source, start);
    let line: u128 = before as u128 + 1;
    let column: u128 = into as u128 + 1;
    let mut digits = String::new();
    push_decimal_wide(&mut digits, line);
    let digits_len = digits.as_str().unicode_len();
    fmt.append("  ");
    let blue = bright_blue("-->");
    fmt.append(bold(blue.as_str()).as_str());
    fmt.append(" placeholderpath.op:");
    fmt.append(digits.as_str());
    push_char(&mut fmt, ':');
    push_decimal_wide(&mut fmt, column);
    push_char(&mut fmt, '\n');
    push_repeated(&mut fmt, ' ', digits_len);
    push_char(&mut fmt, ' ');
    fmt.append("|\n");
    fmt.append(digits.as_str());
    fmt.append(" | ");
    let source_len: usize = source.len();
    assert(diagnostic.span.end_spec() <= source_len);
    let end = diagnostic.span.end();
    let text = utf8_lossy(line_of(source, start, end));
    fmt.append(text.as_str());
    push_char(&mut fmt, '\n');
    push_repeated(&mut fmt, ' ', digits_len);
    push_char(&mut fmt, ' ');
    fmt.append("| ");
    push_repeated(&mut fmt, ' ', into);
    let width = if diagnostic.span.len() == 0 { 1 } else { diagnostic.span.len() };
    let mut carets = String::new();
    push_repeated(&mut carets, '^', width);
    let g = green(carets.as_str());
    fmt.append(bold(g.as_str()).as_str());
    proof {
        let p = start as int;
        let l = decimal(line as nat);
        assert(repeated(' ', l.len()).push(' ') =~= repeated(' ', l.len() + 1));
        assert(fmt@ =~= diagnostic_report(label@, source@, *diagnostic));
    }
    fmt
}

/// Lays out diagnostics about a source for the terminal.
pub struct DiagnosticFormatter<'a> {
    source: &'a [u8],
}

impl<'a> DiagnosticFormatter<'a> {
    /// The source the formatter reports on.
    pub closed spec fn source_spec(&self) -> Seq<u8> {
        self.source@
    }

    /// A formatter for diagnostics about `source`.
    pub fn new(source: &'a [u8]) -> (f: Self)
        ensures
            f.source_spec() == source@,
    {
        DiagnosticFormatter { source }
    }

    /// The report of `diagnostic`, labelled `error: `.
    pub fn format(&self, diagnostic: &Diagnostic) -> (s: String)
        requires
            diagnostic.span.end_spec() <= self.source_spec().len(),
        ensures
            s@ == diagnostic_report("error: "@, self.source_spec(), *diagnostic),
    {
        match diagnostic.severity {
            Severity::Error => render(self.source, diagnostic, "error: "),
        }
    }

    /// The source lines that `span` covers.
    pub fn get_line(&self, span: &Span) -> (r: &[u8])
        requires
            span.end_spec() <= self.source_spec().len(),
        ensures
            r@ == self.source_spec().subrange(line_start(self.source_spec(), span.start_spec() as int),
                line_end(self.source_spec(), span.end_spec())),
    {
        let source_len: usize = self.source.len();
        assert(span.end_spec() <= source_len);
        line_of(self.source, span.start(), span.end())
    }

    /// The 1-based line and column where `span` starts. A slice holds at
    /// most `isize::MAX` bytes, so both fit a `usize`.
    pub fn get_line_col(&self, span: &Span) -> (r: (usize, usize))
        requires
            span.start_spec() <= self.source_spec().len() <= isize::MAX,
        ensures
            r.0 == line_col(self.source_spec(), span.start_spec() as int).0,
            r.1 == line_col(self.source_spec(), span.start_spec() as int).1,
    {
        let (before, into) = line_col_of(self.source, span.start());
        (before + 1, into + 1)
    }
}

/// Turns diagnostics about a source into text for the terminal.
pub struct DiagnosticEmitter<'a> {
    source: &'a [u8],
}

impl<'a> DiagnosticEmitter<'a> {
    /// The source the emitter reports on.
    pub closed spec fn source_spec(&self) -> Seq<u8> {
        self.source@
    }

    /// An emitter for diagnostics about `source`.
    pub fn new(source: &'a [u8]) -> (e: Self)
        ensures
            e.source_spec() == source@,
    {
        DiagnosticEmitter { source }
    }

    /// The report of `diagnostic`, labelled `error:`.
    pub fn emit(&self, diagnostic: &Diagnostic) -> (s: String)
        requires
            diagnostic.span.end_spec() <= self.source_spec().len(),
        ensures
            s@ == diagnostic_report("error:"@, self.source_spec(), *diagnostic),
    {
        match diagnostic.severity {
            Severity::Error => render(self.source, diagnostic, "error:"),
        }
    }
}
} // verus!
