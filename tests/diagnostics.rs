use unsafe_density::failure::{parse_source, FileError};
use unsafe_density::render::{display_name, render_fallback, render_location, Position, Style};
use unsafe_density::text::{nth_line, push_decimal, push_repeated};

fn pos(line: usize, column: usize) -> Position {
    Position { line, column }
}

#[test]
fn empty_span_gives_fallback() {
    let r = render_location("expected `;`", pos(1, 4), pos(1, 4), "a.rs", "let x = 1\n", Style::Plain);
    assert_eq!(r, "Unable to parse file: expected `;`");
}

#[test]
fn fallback_text() {
    assert_eq!(render_fallback("boom"), "Unable to parse file: boom");
}

#[test]
fn excerpt_form() {
    let code = "fn main() {\n    let x = ;\n}\n";
    let r = render_location("expected expression", pos(2, 12), pos(2, 13), "m.rs", code, Style::Plain);
    let expected = "\nerror: Syn unable to parse file\n --> m.rs:2:12\n  |\n2 |     let x = ;\n  |             ^ expected expression\n";
    assert_eq!(r, expected);
}

#[test]
fn multiline_span_clamped_to_first_line() {
    let code = "abc def   \nxyz\n";
    let r = render_location("bad", pos(1, 4), pos(2, 1), "m.rs", code, Style::Plain);
    // the untrimmed line has 10 characters: underline from column 4 to 10
    let expected = "\nerror: Syn unable to parse file\n --> m.rs:1:4\n  |\n1 | abc def\n  |     ^^^^^^ bad\n";
    assert_eq!(r, expected);
}

#[test]
fn wide_line_numbers_pad_gutter() {
    let mut code = String::new();
    for _ in 0..11 {
        code.push_str("x\n");
    }
    code.push_str("oops here\n");
    let r = render_location("m", pos(12, 0), pos(12, 4), "f.rs", &code, Style::Plain);
    let expected = "\nerror: Syn unable to parse file\n  --> f.rs:12:0\n   |\n12 | oops here\n   | ^^^^ m\n";
    assert_eq!(r, expected);
}

#[test]
fn missing_line_gives_fallback() {
    let r = render_location("m", pos(5, 0), pos(5, 2), "f.rs", "one\ntwo\n", Style::Plain);
    assert_eq!(r, "Unable to parse file: m");
    let r0 = render_location("m", pos(0, 0), pos(0, 2), "f.rs", "one\n", Style::Plain);
    assert_eq!(r0, "Unable to parse file: m");
}

#[test]
fn end_before_start_gives_fallback() {
    let r = render_location("m", pos(1, 3), pos(1, 1), "f.rs", "abcdef\n", Style::Plain);
    assert_eq!(r, "Unable to parse file: m");
}

#[test]
fn colored_excerpt_keeps_text() {
    let r = render_location("msg", pos(1, 0), pos(1, 2), "f.rs", "ab\n", Style::Colored);
    assert!(r.contains("f.rs:1:0"));
    assert!(r.contains("ab"));
    assert!(r.contains("msg"));
    assert!(r.contains("error"));
}

#[test]
fn lines_like_std() {
    let text = "a\r\nb\n\nc\r";
    assert_eq!(nth_line(text, 0), Some("a".to_string()));
    assert_eq!(nth_line(text, 1), Some("b".to_string()));
    assert_eq!(nth_line(text, 2), Some("".to_string()));
    assert_eq!(nth_line(text, 3), Some("c\r".to_string()));
    assert_eq!(nth_line(text, 4), None);
    assert_eq!(nth_line("x\n", 1), None);
    assert_eq!(nth_line("", 0), None);
}

#[test]
fn decimal_and_repeat() {
    let mut s = String::from("n=");
    push_decimal(&mut s, 0);
    push_decimal(&mut s, 1907);
    push_repeated(&mut s, '^', 3);
    assert_eq!(s, "n=01907^^^");
}

#[test]
fn display_name_is_last_component() {
    assert_eq!(display_name("src/deep/lib.rs"), "lib.rs");
    assert_eq!(display_name("/"), "main.rs");
}

#[test]
fn parse_failure_keeps_path_and_text() {
    let code = "fn main() { let x = ; }";
    match parse_source("dir/bad.rs", code) {
        Ok(_) => panic!("expected a parse failure"),
        Err(FileError::ParseFile { filepath, source_code, .. }) => {
            assert_eq!(filepath, "dir/bad.rs");
            assert_eq!(source_code, code);
        }
    }
    assert!(parse_source("ok.rs", "fn main() {}").is_ok());
}

#[test]
fn parse_failure_renders_excerpt() {
    let code = "fn main() { let x = ; }\n";
    let err = match parse_source("dir/bad.rs", code) {
        Ok(_) => panic!("expected a parse failure"),
        Err(e) => e,
    };
    let r = err.render(Style::Plain);
    assert!(r.contains("bad.rs:1:"), "{}", r);
    assert!(r.contains("1 | fn main() { let x = ; }"), "{}", r);
}

#[test]
fn stored_failure_renders_its_own_span() {
    let e = FileError::ParseFile {
        message: "unexpected end of input".to_string(),
        start: pos(1, 2),
        end: pos(1, 2),
        filepath: "x/y.rs".to_string(),
        source_code: "fn".to_string(),
    };
    assert_eq!(e.render(Style::Plain), "Unable to parse file: unexpected end of input");
    let e2 = FileError::ParseFile {
        message: "bad".to_string(),
        start: pos(1, 0),
        end: pos(1, 2),
        filepath: "x/y.rs".to_string(),
        source_code: "fn\n".to_string(),
    };
    let expected = "\nerror: Syn unable to parse file\n --> y.rs:1:0\n  |\n1 | fn\n  | ^^ bad\n";
    assert_eq!(e2.render(Style::Plain), expected);
}

#[test]
fn parse_failure_holds_parser_span() {
    match parse_source("a.rs", "fn main() { let x = ; }") {
        Ok(_) => panic!("expected a parse failure"),
        Err(FileError::ParseFile { message, start, .. }) => {
            assert!(!message.is_empty());
            assert_eq!(start.line, 1);
        }
    }
}

#[test]
fn colored_parts_keep_their_text() {
    let r = render_location("the message", pos(1, 1), pos(1, 3), "f.rs", "abcd\n", Style::Colored);
    assert!(r.contains("the message"));
    assert!(r.contains("^^"));
    assert!(r.contains("abcd"));
}
