use colored::Colorize;
use vstd::prelude::*;
use vstd::string::*;

use crate::text::{decimal, line_at, nth_line, push_char, push_decimal, push_repeated, repeated};

verus! {

/// A place in a source file: line from 1, column from 0.
#[derive(Clone, Copy, Debug)]
pub struct Position {
    pub line: usize,
    pub column: usize,
}

/// How the parts of a diagnostic are written: as they are, or with the
/// terminal colours that the `colored` crate chooses.
#[derive(Clone, Copy, Debug)]
pub enum Style {
    Plain,
    Colored,
}

/// The colour given to a part of a diagnostic.
#[derive(Clone, Copy, Debug)]
pub enum Tint {
    /// Red and bold: the `error` label and the underline.
    Alert,
    /// Bold: the header.
    Emphasis,
    /// Blue and bold: arrow, pipes and line number.
    Gutter,
    /// Red: the message.
    Message,
}

/// The reset sequence that ends a coloured text.
pub open spec fn reset_code() -> Seq<char> {
    seq!['\x1B', '[', '0', 'm']
}

/// `s` holds a reset sequence somewhere.
pub open spec fn holds_reset(s: Seq<char>) -> bool {
    exists|i: int| 0 <= i && i + 4 <= s.len() && #[trigger] s.subrange(i, i + 4) == reset_code()
}

/// A style escape: `"\x1B["`, codes, `'m'`.
pub open spec fn style_escape(p: Seq<char>) -> bool {
    &&& p.len() >= 3
    &&& p[0] == '\x1B'
    &&& p[1] == '['
    &&& p.last() == 'm'
}

/// What a colouring of `s` looks like, whether colours are on or off: `s`
/// itself, or a style escape, the text and the reset sequence; the text is
/// `s` unchanged unless `s` holds a reset sequence itself.
pub open spec fn painted(r: Seq<char>, s: Seq<char>) -> bool {
    r == s || exists|p: Seq<char>|
        #[trigger] style_escape(p) && r.len() >= p.len() + 4 && r.subrange(0, p.len() as int) == p
            && r.subrange(r.len() - 4, r.len() as int) == reset_code() && (!holds_reset(s) ==> r
            == p + s + reset_code())
}

/// Relies on `colored`'s `red`, `bold`, `blue` and the `Display` of
/// `ColoredString`: the text unchanged when colours are off, else a style
/// escape `"\x1B[...m"`, the text (with inner reset sequences escaped) and the
/// reset `"\x1B[0m"`.
#[verifier::external_body]
fn paint(text: &str, tint: Tint) -> (r: String)
    ensures
        painted(r@, text@),
{
    match tint {
        Tint::Alert => text.red().bold().to_string(),
        Tint::Emphasis => text.bold().to_string(),
        Tint::Gutter => text.blue().bold().to_string(),
        Tint::Message => text.red().to_string(),
    }
}

/// What `str::trim_end` leaves of a string.
pub uninterp spec fn trimmed_end(s: Seq<char>) -> Seq<char>;

/// Relies on `str::trim_end`: the string without trailing whitespace.
#[verifier::external_body]
fn trim_end_of(s: &str) -> (r: String)
    ensures
        r@ == trimmed_end(s@),
{
    s.trim_end().to_string()
}

/// The final component of a path, as `Path::file_name` gives it.
pub uninterp spec fn final_component(path: Seq<char>) -> Option<Seq<char>>;

/// Relies on `Path::file_name`: the last component of the path, if any.
#[verifier::external_body]
fn file_name_of(path: &str) -> (r: Option<String>)
    ensures
        r is Some <==> final_component(path@) is Some,
        r is Some ==> final_component(path@) == Some(r->0@),
{
    std::path::Path::new(path).file_name().map(|n| n.to_string_lossy().into_owned())
}

/// The name shown for a file: the last component of its path, or `main.rs`.
pub open spec fn shown_name(path: Seq<char>) -> Seq<char> {
    match final_component(path) {
        Some(n) => n,
        None => "main.rs"@,
    }
}

/// The name shown for a file in a diagnostic.
pub fn display_name(path: &str) -> (r: String)
    ensures
        r@ == shown_name(path@),
{
    match file_name_of(path) {
        Some(n) => n,
        None => String::from_str("main.rs"),
    }
}

/// Where the excerpt form applies: the source line at `start` and the width of
/// the underline. `None` where the one-line form is used: an empty span, a
/// line that the text does not have, or an end before the start. A span that
/// ends on another line is underlined to the end of its first line.
pub open spec fn excerpt_plan(start: Position, end: Position, code: Seq<char>) -> Option<
    (Seq<char>, nat),
> {
    if start.line == end.line && start.column == end.column {
        None
    } else if start.line == 0 {
        None
    } else {
        match line_at(code, (start.line - 1) as nat) {
            None => None,
            Some(l) => {
                let end_column: int = if end.line != start.line {
                    l.len() as int
                } else {
                    end.column as int
                };
                if end_column < start.column {
                    None
                } else {
                    Some((l, (end_column - start.column) as nat))
                }
            },
        }
    }
}

/// The one-line form.
pub open spec fn fallback_text(message: Seq<char>) -> Seq<char> {
    "Unable to parse file: "@ + message
}

/// The parts of an excerpt that may be coloured, uncoloured: label, header,
/// arrow, pipe, line number, underline and message.
pub open spec fn plain_parts(line: nat, width: nat, message: Seq<char>) -> Seq<Seq<char>> {
    seq![
        "error"@,
        ": Syn unable to parse file"@,
        "-->"@,
        "|"@,
        decimal(line),
        repeated('^', width),
        message,
    ]
}

/// `parts` is `plain` written in `style`.
pub open spec fn styled(style: Style, parts: Seq<Seq<char>>, plain: Seq<Seq<char>>) -> bool {
    &&& parts.len() == plain.len()
    &&& forall|i: int|
        0 <= i < parts.len() ==> match style {
            Style::Plain => #[trigger] parts[i] == plain[i],
            Style::Colored => painted(parts[i], plain[i]),
        }
}

/// The excerpt form, from its (possibly coloured) parts:
///
/// ```text
///
/// error: Syn unable to parse file
///  --> name:line:column
///   |
/// 7 | source line
///   |     ^^^^ message
/// ```
pub open spec fn excerpt_text(
    parts: Seq<Seq<char>>,
    file_name: Seq<char>,
    start: Position,
    code_line: Seq<char>,
) -> Seq<char> {
    let indent = repeated(' ', decimal(start.line as nat).len());
    seq!['\n'] + parts[0] + parts[1] + seq!['\n'] + indent + parts[2] + seq![' '] + file_name
        + seq![':'] + decimal(start.line as nat) + seq![':'] + decimal(start.column as nat)
        + seq!['\n'] + indent + seq![' '] + parts[3] + seq!['\n'] + parts[4] + seq![' ']
        + parts[3] + seq![' '] + code_line + seq!['\n'] + indent + seq![' '] + parts[3] + seq![
        ' ',
    ] + repeated(' ', start.column as nat) + parts[5] + seq![' '] + parts[6] + seq!['\n']
}

/// `r` is a rendering of a parse failure with `message` over the span from
/// `start` to `end` in `code`, shown under `file_name`.
pub open spec fn renders(
    r: Seq<char>,
    message: Seq<char>,
    start: Position,
    end: Position,
    file_name: Seq<char>,
    code: Seq<char>,
    style: Style,
) -> bool {
    match excerpt_plan(start, end, code) {
        None => r == fallback_text(message),
        Some((line, width)) => exists|parts: Seq<Seq<char>>|
            #[trigger] styled(style, parts, plain_parts(start.line as nat, width, message)) && r
                == excerpt_text(parts, file_name, start, trimmed_end(line)),
    }
}


proof fn lemma_renders_excerpt(
    r: Seq<char>,
    message: Seq<char>,
    start: Position,
    end: Position,
    file_name: Seq<char>,
    code: Seq<char>,
    style: Style,
    line: Seq<char>,
    width: nat,
    parts: Seq<Seq<char>>,
)
    requires
        excerpt_plan(start, end, code) == Some((line, width)),
        styled(style, parts, plain_parts(start.line as nat, width, message)),
        r == excerpt_text(parts, file_name, start, trimmed_end(line)),
    ensures
        renders(r, message, start, end, file_name, code, style),
{
    if let Some((l, w)) = excerpt_plan(start, end, code) {
        assert(l == line && w == width);
        assert(styled(style, parts, plain_parts(start.line as nat, w, message)));
    }
}

/// Writes one part of a diagnostic in `style`.
fn decorate(text: &str, tint: Tint, style: Style) -> (r: String)
    ensures
        match style {
            Style::Plain => r@ == text@,
            Style::Colored => painted(r@, text@),
        },
{
    match style {
        Style::Plain => String::from_str(text),
        Style::Colored => paint(text, tint),
    }
}

/// The one-line form of a failure.
pub fn render_fallback(message: &str) -> (r: String)
    ensures
        r@ == fallback_text(message@),
{
    let mut r = String::from_str("Unable to parse file: ");
    r.append(message);
    r
}

/// Lays out the excerpt form from its parts, in the order of `plain_parts`.
fn layout(
    error: &String,
    header: &String,
    arrow: &String,
    pipe: &String,
    label: &String,
    underline: &String,
    message: &String,
    file_name: &str,
    start: Position,
    code_line: &String,
) -> (r: String)
    ensures
        r@ == excerpt_text(
            seq![error@, header@, arrow@, pipe@, label@, underline@, message@],
            file_name@,
            start,
            code_line@,
        ),
{
    let ghost parts = seq![error@, header@, arrow@, pipe@, label@, underline@, message@];
    let mut digits = String::new();
    push_decimal(&mut digits, start.line);
    assert(digits@ =~= decimal(start.line as nat));
    let width = digits.as_str().unicode_len();
    let mut indent = String::new();
    push_repeated(&mut indent, ' ', width);
    assert(indent@ =~= repeated(' ', decimal(start.line as nat).len()));

    let mut r = String::new();
    push_char(&mut r, '\n');
    r.append(error.as_str());
    r.append(header.as_str());
    push_char(&mut r, '\n');
    r.append(indent.as_str());
    r.append(arrow.as_str());
    push_char(&mut r, ' ');
    r.append(file_name);
    push_char(&mut r, ':');
    push_decimal(&mut r, start.line);
    push_char(&mut r, ':');
    push_decimal(&mut r, start.column);
    push_char(&mut r, '\n');
    r.append(indent.as_str());
    push_char(&mut r, ' ');
    r.append(pipe.as_str());
    push_char(&mut r, '\n');
    r.append(label.as_str());
    push_char(&mut r, ' ');
    r.append(pipe.as_str());
    push_char(&mut r, ' ');
    r.append(code_line.as_str());
    push_char(&mut r, '\n');
    r.append(indent.as_str());
    push_char(&mut r, ' ');
    r.append(pipe.as_str());
    push_char(&mut r, ' ');
    push_repeated(&mut r, ' ', start.column);
    r.append(underline.as_str());
    push_char(&mut r, ' ');
    r.append(message.as_str());
    push_char(&mut r, '\n');
    assert(r@ =~= excerpt_text(parts, file_name@, start, code_line@));
    r
}


/// Renders a parse failure with `message` over the span from `start` to `end`
/// of `code`: the excerpt form where `excerpt_plan` finds a line, else the
/// one-line form.
pub fn render_location(
    message: &str,
    start: Position,
    end: Position,
    file_name: &str,
    code: &str,
    style: Style,
) -> (r: String)
    ensures
        renders(r@, message@, start, end, file_name@, code@, style),
{
    if start.line == end.line && start.column == end.column {
        return render_fallback(message);
    }
    if start.line == 0 {
        return render_fallback(message);
    }
    let line = match nth_line(code, start.line - 1) {
        None => return render_fallback(message),
        Some(l) => l,
    };
    let line_len = line.as_str().unicode_len();
    let end_column = if end.line != start.line {
        line_len
    } else {
        end.column
    };
    if end_column < start.column {
        return render_fallback(message);
    }
    let width = end_column - start.column;

    let error = decorate("error", Tint::Alert, style);
    let header = decorate(": Syn unable to parse file", Tint::Emphasis, style);
    let arrow = decorate("-->", Tint::Gutter, style);
    let pipe = decorate("|", Tint::Gutter, style);
    let mut digits = String::new();
    push_decimal(&mut digits, start.line);
    assert(digits@ =~= decimal(start.line as nat));
    let label = decorate(digits.as_str(), Tint::Gutter, style);
    let mut carets = String::new();
    push_repeated(&mut carets, '^', width);
    assert(carets@ =~= repeated('^', width as nat));
    let underline = decorate(carets.as_str(), Tint::Alert, style);
    let painted_message = decorate(message, Tint::Message, style);
    let code_line = trim_end_of(line.as_str());
    let r = layout(
        &error,
        &header,
        &arrow,
        &pipe,
        &label,
        &underline,
        &painted_message,
        file_name,
        start,
        &code_line,
    );
    proof {
        let parts = seq![
            error@,
            header@,
            arrow@,
            pipe@,
            label@,
            underline@,
            painted_message@,
        ];
        let plain = plain_parts(start.line as nat, width as nat, message@);
        assert(styled(style, parts, plain));
        assert(excerpt_plan(start, end, code@) == Some((line@, width as nat)));
        assert(r@ == excerpt_text(parts, file_name@, start, trimmed_end(line@)));
        lemma_renders_excerpt(
            r@,
            message@,
            start,
            end,
            file_name@,
            code@,
            style,
            line@,
            width as nat,
            parts,
        );
    }
    r
}


/// A span that starts where it ends is rendered in the one-line form only.
pub proof fn lemma_empty_span_falls_back(
    r: Seq<char>,
    message: Seq<char>,
    start: Position,
    end: Position,
    file_name: Seq<char>,
    code: Seq<char>,
    style: Style,
)
    requires
        start.line == end.line,
        start.column == end.column,
        renders(r, message, start, end, file_name, code, style),
    ensures
        r == fallback_text(message),
{
}

/// A span that ends on another line than it starts is underlined up to the
/// end of its first line, and no further.
pub proof fn lemma_multiline_span_clamped(start: Position, end: Position, code: Seq<char>)
    requires
        end.line != start.line,
    ensures
        excerpt_plan(start, end, code) matches Some((line, width)) ==> start.column + width
            == line.len() && line_at(code, (start.line - 1) as nat) == Some(line),
{
}

} // verus!
