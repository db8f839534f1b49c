use prose::decimal::to_decimal;
use prose::grammar::ErrorKind;
use prose::markdown;
use prose::parser::{
    parse_code_block, parse_code_block_body, parse_code_block_lang, parse_header,
    parse_markdown, parse_markdown_inline, parse_markdown_text, parse_ordered_list,
    parse_plaintext, ParseError,
};
use prose::text::{chars_of, string_of};
use prose::translator::{translate, translate_header, translate_line, translate_text};
use prose::{Markdown, MarkdownInline};

const FALLBACK: &str = "Sorry, this did not seem to work! Maybe your markdown was not well formed, have you hit [Enter] after your last line?";

fn plain(t: &str) -> MarkdownInline {
    MarkdownInline::Plaintext(String::from(t))
}

#[test]
fn renders_heading() {
    assert_eq!(markdown("# h1\n"), "<h1>h1</h1>");
}

#[test]
fn renders_unordered_list() {
    assert_eq!(markdown("- a\n- b\n"), "<ul><li>a</li><li>b</li></ul>");
}

#[test]
fn renders_ordered_list() {
    assert_eq!(markdown("1. a\n2. b\n"), "<ol><li>a</li><li>b</li></ol>");
}

#[test]
fn renders_code_block() {
    assert_eq!(
        markdown("```bash\necho hi\n```"),
        "<pre><code class=\"lang-bash\">echo hi\n</code></pre>"
    );
}

#[test]
fn renders_paragraph_with_styles() {
    assert_eq!(
        markdown("plain *it* and **bold** and `code`\n"),
        "<p>plain <i>it</i> and <b>bold</b> and <code>code</code></p>"
    );
}

#[test]
fn unterminated_italic_gives_fallback() {
    assert_eq!(markdown("*unterminated"), FALLBACK);
    assert_eq!(markdown("*unterminated\n"), FALLBACK);
}

#[test]
fn empty_input_gives_fallback() {
    assert_eq!(markdown(""), FALLBACK);
    assert_eq!(
        parse_markdown(""),
        Err(ParseError { input: "", code: ErrorKind::Tag })
    );
}

#[test]
fn lone_terminator_is_blank_line() {
    assert_eq!(parse_markdown("\n"), Ok(("", vec![Markdown::Line(vec![])])));
    assert_eq!(markdown("\n"), "");
    assert_eq!(markdown("\n\n\n"), "");
}

#[test]
fn heading_without_text() {
    assert_eq!(
        parse_markdown("# \n"),
        Ok(("", vec![Markdown::Heading(1, vec![])]))
    );
    assert_eq!(markdown("# \n"), "<h1></h1>");
}

#[test]
fn last_line_needs_terminator() {
    assert_eq!(markdown("no newline"), FALLBACK);
    assert_eq!(
        parse_markdown("no newline"),
        Err(ParseError { input: "", code: ErrorKind::Tag })
    );
    assert_eq!(markdown("no newline\n"), "<p>no newline</p>");
}

#[test]
fn text_left_over_gives_fallback() {
    assert_eq!(markdown("# h1\n*open"), FALLBACK);
    assert_eq!(
        parse_markdown("# h1\n*open"),
        Err(ParseError { input: "*open", code: ErrorKind::Tag })
    );
    assert_eq!(markdown("line\nlast"), FALLBACK);
    assert_eq!(
        parse_markdown("line\nlast"),
        Err(ParseError { input: "", code: ErrorKind::Tag })
    );
    assert_eq!(markdown("```bash\necho\n``` trailing"), FALLBACK);
}

#[test]
fn rendering_is_repeatable() {
    let source = "# Title\n\n- *a*\n- `b`\n\n1. x\n\n[l](u) ![a](s)\n```rs\nfn main() {}\n```";
    let first = markdown(source);
    let second = markdown(source);
    assert_eq!(first, second);
    assert_eq!(
        first,
        "<h1>Title</h1><ul><li><i>a</i></li><li><code>b</code></li></ul><ol><li>x</li></ol><p><a href=\"u\">l</a> <img src=\"s\" alt=\"a\" /></p><pre><code class=\"lang-rs\">fn main() {}\n</code></pre>"
    );
}

#[test]
fn plain_lines_become_paragraphs() {
    assert_eq!(
        markdown("first line\n\nsecond line\n\n"),
        "<p>first line</p><p>second line</p>"
    );
    assert_eq!(
        translate(vec![
            Markdown::Line(vec![plain("one")]),
            Markdown::Line(vec![]),
            Markdown::Line(vec![plain("two "), plain("halves")]),
            Markdown::Line(vec![plain("")]),
        ]),
        "<p>one</p><p>two halves</p>"
    );
}

#[test]
fn blank_line_renders_to_nothing() {
    assert_eq!(translate_line(vec![]), "");
    assert_eq!(translate_line(vec![plain("")]), "");
    assert_eq!(translate_text(vec![]), "");
}

#[test]
fn content_is_not_escaped() {
    assert_eq!(markdown("a < b & c > d\n"), "<p>a < b & c > d</p>");
    assert_eq!(
        markdown("[<b>](\"quote\")\n"),
        "<p><a href=\"\"quote\"\"><b></a></p>"
    );
}

#[test]
fn heading_level_is_not_clamped() {
    assert_eq!(markdown("####### seven\n"), "<h7>seven</h7>");
    assert_eq!(
        markdown("############ twelve\n"),
        "<h12>twelve</h12>"
    );
    assert_eq!(
        parse_header("########## ten\n"),
        Ok(("", (10, vec![plain("ten")])))
    );
    assert_eq!(translate_header(0, vec![]), "<h0></h0>");
    assert_eq!(translate_header(1234567890, vec![plain("x")]), "<h1234567890>x</h1234567890>");
}

#[test]
fn decimal_digits() {
    assert_eq!(to_decimal(0), "0");
    assert_eq!(to_decimal(7), "7");
    assert_eq!(to_decimal(10), "10");
    assert_eq!(to_decimal(409), "409");
    assert_eq!(to_decimal(usize::MAX), usize::MAX.to_string());
}

#[test]
fn characters_and_back() {
    let chars = chars_of("a\u{e9}\u{4e2d}\u{1f600}z");
    assert_eq!(chars, vec!['a', '\u{e9}', '\u{4e2d}', '\u{1f600}', 'z']);
    assert_eq!(string_of(&chars, 1, 4), "\u{e9}\u{4e2d}\u{1f600}");
    assert_eq!(string_of(&chars, 2, 2), "");
    assert_eq!(chars_of(""), Vec::<char>::new());
}

#[test]
fn text_beyond_ascii() {
    assert_eq!(
        markdown("# \u{fc}ber *sch\u{f6}n*\n"),
        "<h1>\u{fc}ber <i>sch\u{f6}n</i></h1>"
    );
    assert_eq!(
        parse_markdown_inline("caf\u{e9} \u{1f600}*x"),
        Ok(("*x", plain("caf\u{e9} \u{1f600}")))
    );
    assert_eq!(
        parse_markdown_text("\u{4e2d}\u{6587}*"),
        Err(ParseError { input: "*", code: ErrorKind::Tag })
    );
}

#[test]
fn alternatives_in_order() {
    assert_eq!(
        parse_markdown_inline("**b**"),
        Ok(("", MarkdownInline::Bold(String::from("b"))))
    );
    assert_eq!(
        parse_markdown_inline("*i**"),
        Ok(("*", MarkdownInline::Italic(String::from("i"))))
    );
    assert_eq!(
        parse_markdown_inline("![a](u)"),
        Ok((
            "",
            MarkdownInline::Image(String::from("a"), String::from("u"))
        ))
    );
    assert_eq!(
        parse_markdown_inline("!a"),
        Ok(("", plain("!a")))
    );
    assert_eq!(
        parse_markdown_inline("[a]"),
        Err(ParseError { input: "[a]", code: ErrorKind::Not })
    );
    assert_eq!(markdown("-a\n"), "<p>-a</p>");
    assert_eq!(markdown("#a\n"), "<p>#a</p>");
    assert_eq!(markdown("1.a\n"), "<p>1.a</p>");
    assert_eq!(markdown("- a\n1. b\n- c\n"), "<ul><li>a</li></ul><ol><li>b</li></ol><ul><li>c</li></ul>");
}

#[test]
fn spans_may_cross_lines() {
    assert_eq!(markdown("*a\nb*\n"), "<p><i>a\nb</i></p>");
    assert_eq!(markdown("[a\nb](c\nd)\n"), "<p><a href=\"c\nd\">a\nb</a></p>");
}

#[test]
fn ordered_list_numbers_are_not_read() {
    assert_eq!(
        parse_ordered_list("7. a\n7. b\n0003. c\n"),
        Ok((
            "",
            vec![vec![plain("a")], vec![plain("b")], vec![plain("c")]]
        ))
    );
    assert_eq!(markdown("9. z\n1. a\n"), "<ol><li>z</li><li>a</li></ol>");
    assert_eq!(
        parse_ordered_list("\u{661}. a\n"),
        Err(ParseError { input: "\u{661}. a\n", code: ErrorKind::TakeWhile1 })
    );
    assert_eq!(markdown("\u{130}. a\n"), "<p>\u{130}. a</p>");
}

#[test]
fn code_block_language() {
    assert_eq!(
        parse_code_block_lang("```rust\nx"),
        Ok(("\nx", String::from("rust")))
    );
    assert_eq!(
        parse_code_block_lang("```\nx"),
        Ok(("\nx", String::from("__UNKNOWN__")))
    );
    assert_eq!(
        parse_code_block_lang("``rust"),
        Err(ParseError { input: "``rust", code: ErrorKind::Tag })
    );
    assert_eq!(
        parse_code_block_lang("```c!d[e"),
        Ok(("[e", String::from("c!d")))
    );
    assert_eq!(
        markdown("```\nplain\n```"),
        "<pre><code class=\"lang-__UNKNOWN__\">plain\n</code></pre>"
    );
}

#[test]
fn code_block_body() {
    assert_eq!(parse_code_block_body("\na\nb\n```rest"), Ok(("rest", "a\nb\n")));
    assert_eq!(
        parse_code_block_body("a\n```"),
        Err(ParseError { input: "a\n```", code: ErrorKind::Tag })
    );
    assert_eq!(
        parse_code_block_body("\n```"),
        Err(ParseError { input: "```", code: ErrorKind::IsNot })
    );
    assert_eq!(
        parse_code_block_body("\na``"),
        Err(ParseError { input: "``", code: ErrorKind::Tag })
    );
    assert_eq!(
        parse_code_block_body("\nabc"),
        Err(ParseError { input: "", code: ErrorKind::Tag })
    );
    assert_eq!(
        parse_code_block("```sh\nls `pwd`\n```"),
        Err(ParseError { input: "`pwd`\n```", code: ErrorKind::Tag })
    );
    assert_eq!(markdown("```sh\n```"), FALLBACK);
}

#[test]
fn every_error_kind() {
    assert_eq!(
        parse_plaintext(""),
        Err(ParseError { input: "", code: ErrorKind::Eof })
    );
    assert_eq!(
        parse_plaintext("\nx"),
        Err(ParseError { input: "\nx", code: ErrorKind::Not })
    );
    assert_eq!(
        parse_header("x"),
        Err(ParseError { input: "x", code: ErrorKind::TakeWhile1 })
    );
    assert_eq!(
        parse_markdown_inline("``"),
        Err(ParseError { input: "``", code: ErrorKind::Not })
    );
    assert_eq!(
        parse_code_block_body("\n`"),
        Err(ParseError { input: "`", code: ErrorKind::IsNot })
    );
    assert_eq!(
        parse_markdown_text("abc"),
        Err(ParseError { input: "", code: ErrorKind::Tag })
    );
}

#[test]
fn plain_text_is_read_in_longest_runs() {
    assert_eq!(
        parse_markdown_text("a!b - # 1. c\n"),
        Ok(("", vec![plain("a!b - # 1. c")]))
    );
    assert_eq!(
        parse_markdown_text("a*b*c!![d](e)f\n"),
        Ok((
            "",
            vec![
                plain("a"),
                MarkdownInline::Italic(String::from("b")),
                plain("c!"),
                MarkdownInline::Image(String::from("d"), String::from("e")),
                plain("f"),
            ]
        ))
    );
}

#[test]
fn lists_hold_their_items_in_source_order() {
    assert_eq!(
        parse_markdown("- b\n- a\n- \n"),
        Ok((
            "",
            vec![Markdown::UnorderedList(vec![
                vec![plain("b")],
                vec![plain("a")],
                vec![],
            ])]
        ))
    );
    assert_eq!(markdown("- b\n- a\n- \n"), "<ul><li>b</li><li>a</li><li></li></ul>");
}
