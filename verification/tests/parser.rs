use prose::grammar::ErrorKind;
use prose::parser::{
    parse_boldtext, parse_code_block, parse_header, parse_header_tag, parse_image,
    parse_inline_code, parse_italics, parse_link, parse_markdown, parse_markdown_inline,
    parse_markdown_text, parse_ordered_list, parse_ordered_list_element, parse_ordered_list_tag,
    parse_plaintext, parse_unordered_list, parse_unordered_list_element,
    parse_unordered_list_tag, ParseError,
};
use prose::{Markdown, MarkdownInline};

#[test]
fn parser_test_parse_italics() {
    assert_eq!(
        parse_italics("*here is italic*"),
        Ok(("", "here is italic"))
    );
    assert_eq!(
        parse_italics("*here is italic"),
        Err(ParseError {
            input: "",
            code: ErrorKind::Tag
        })
    );

    assert_eq!(
        parse_italics("here is italic*"),
        Err(ParseError {
            input: "here is italic*",
            code: ErrorKind::Tag,
        })
    );
    assert_eq!(
        parse_italics("here is italic"),
        Err(ParseError {
            input: "here is italic",
            code: ErrorKind::Tag
        })
    );
    assert_eq!(
        parse_italics("*"),
        Err(ParseError {
            input: "",
            code: ErrorKind::IsNot
        })
    );
    assert_eq!(
        parse_italics("**"),
        Err(ParseError {
            input: "*",
            code: ErrorKind::IsNot
        })
    );
    assert_eq!(
        parse_italics(""),
        Err(ParseError {
            input: "",
            code: ErrorKind::Tag
        })
    );
    assert_eq!(
        parse_italics("**we are doing bold**"),
        Err(ParseError {
            input: "*we are doing bold**",
            code: ErrorKind::IsNot
        })
    );
}

#[test]
fn parser_test_parse_boldtext() {
    assert_eq!(parse_boldtext("**here is bold**"), Ok(("", "here is bold")));
    assert_eq!(
        parse_boldtext("**here is bold"),
        Err(ParseError {
            input: "",
            code: ErrorKind::Tag
        })
    );
    assert_eq!(
        parse_boldtext("here is bold**"),
        Err(ParseError {
            input: "here is bold**",
            code: ErrorKind::Tag
        })
    );
    assert_eq!(
        parse_boldtext("here is bold"),
        Err(ParseError {
            input: "here is bold",
            code: ErrorKind::Tag
        })
    );
    assert_eq!(
        parse_boldtext("****"),
        Err(ParseError {
            input: "**",
            code: ErrorKind::IsNot
        })
    );
    assert_eq!(
        parse_boldtext("**"),
        Err(ParseError {
            input: "",
            code: ErrorKind::IsNot
        })
    );
    assert_eq!(
        parse_boldtext("*"),
        Err(ParseError {
            input: "*",
            code: ErrorKind::Tag
        })
    );
    assert_eq!(
        parse_boldtext(""),
        Err(ParseError {
            input: "",
            code: ErrorKind::Tag
        })
    );
    assert_eq!(
        parse_boldtext("*this is italic*"),
        Err(ParseError {
            input: "*this is italic*",
            code: ErrorKind::Tag
        })
    );
}

#[test]
fn parser_test_parse_inline_code() {
    assert_eq!(
        parse_boldtext("**here is bold**\n"),
        Ok(("\n", "here is bold"))
    );
    assert_eq!(
        parse_inline_code("`here is code"),
        Err(ParseError {
            input: "",
            code: ErrorKind::Tag
        })
    );
    assert_eq!(
        parse_inline_code("here is code`"),
        Err(ParseError {
            input: "here is code`",
            code: ErrorKind::Tag
        })
    );
    assert_eq!(
        parse_inline_code("``"),
        Err(ParseError {
            input: "`",
            code: ErrorKind::IsNot
        })
    );
    assert_eq!(
        parse_inline_code("`"),
        Err(ParseError {
            input: "",
            code: ErrorKind::IsNot
        })
    );
    assert_eq!(
        parse_inline_code(""),
        Err(ParseError {
            input: "",
            code: ErrorKind::Tag
        })
    );
}

#[test]
fn parser_test_parse_link() {
    assert_eq!(
        parse_link("[title](https://www.example.com)"),
        Ok(("", ("title", "https://www.example.com")))
    );
    assert_eq!(
        parse_inline_code(""),
        Err(ParseError {
            input: "",
            code: ErrorKind::Tag
        })
    );
}

#[test]
fn parser_test_parse_image() {
    assert_eq!(
        parse_image("![alt text](image.jpg)"),
        Ok(("", ("alt text", "image.jpg")))
    );
    assert_eq!(
        parse_inline_code(""),
        Err(ParseError {
            input: "",
            code: ErrorKind::Tag
        })
    );
}

#[test]
fn parser_test_parse_plaintext() {
    assert_eq!(
        parse_plaintext("1234567890"),
        Ok(("", String::from("1234567890")))
    );
    assert_eq!(
        parse_plaintext("oh my gosh!"),
        Ok(("", String::from("oh my gosh!")))
    );
    assert_eq!(
        parse_plaintext("oh my gosh!["),
        Ok(("![", String::from("oh my gosh")))
    );
    assert_eq!(
        parse_plaintext("oh my gosh!*"),
        Ok(("*", String::from("oh my gosh!")))
    );
    assert_eq!(
        parse_plaintext("*bold babey bold*"),
        Err(ParseError {
            input: "*bold babey bold*",
            code: ErrorKind::Not
        })
    );
    assert_eq!(
        parse_plaintext("[link babey](and then somewhat)"),
        Err(ParseError {
            input: "[link babey](and then somewhat)",
            code: ErrorKind::Not
        })
    );
    assert_eq!(
        parse_plaintext("`codeblock for bums`"),
        Err(ParseError {
            input: "`codeblock for bums`",
            code: ErrorKind::Not
        })
    );
    assert_eq!(
        parse_plaintext("![ but wait theres more](jk)"),
        Err(ParseError {
            input: "![ but wait theres more](jk)",
            code: ErrorKind::Not
        })
    );
    assert_eq!(
        parse_plaintext("here is plaintext"),
        Ok(("", String::from("here is plaintext")))
    );
    assert_eq!(
        parse_plaintext("here is plaintext!"),
        Ok(("", String::from("here is plaintext!")))
    );
    assert_eq!(
        parse_plaintext("here is plaintext![image starting"),
        Ok(("![image starting", String::from("here is plaintext")))
    );
    assert_eq!(
        parse_plaintext("here is plaintext\n"),
        Ok(("\n", String::from("here is plaintext")))
    );
    assert_eq!(
        parse_plaintext("*here is italic*"),
        Err(ParseError {
            input: "*here is italic*",
            code: ErrorKind::Not
        })
    );
    assert_eq!(
        parse_plaintext("**here is bold**"),
        Err(ParseError {
            input: "**here is bold**",
            code: ErrorKind::Not
        })
    );
    assert_eq!(
        parse_plaintext("`here is code`"),
        Err(ParseError {
            input: "`here is code`",
            code: ErrorKind::Not
        })
    );
    assert_eq!(
        parse_plaintext("[title](https://www.example.com)"),
        Err(ParseError {
            input: "[title](https://www.example.com)",
            code: ErrorKind::Not
        })
    );
    assert_eq!(
        parse_plaintext("![alt text](image.jpg)"),
        Err(ParseError {
            input: "![alt text](image.jpg)",
            code: ErrorKind::Not
        })
    );
    assert_eq!(
        parse_plaintext(""),
        Err(ParseError {
            input: "",
            code: ErrorKind::Eof
        })
    );
}

#[test]
fn parser_test_parse_markdown_inline() {
    assert_eq!(
        parse_markdown_inline("*here is italic*"),
        Ok(("", MarkdownInline::Italic(String::from("here is italic"))))
    );
    assert_eq!(
        parse_markdown_inline("**here is bold**"),
        Ok(("", MarkdownInline::Bold(String::from("here is bold"))))
    );
    assert_eq!(
        parse_markdown_inline("`here is code`"),
        Ok(("", MarkdownInline::InlineCode(String::from("here is code"))))
    );
    assert_eq!(
        parse_markdown_inline("[title](https://www.example.com)"),
        Ok((
            "",
            (MarkdownInline::Link(
                String::from("title"),
                String::from("https://www.example.com")
            ))
        ))
    );
    assert_eq!(
        parse_markdown_inline("![alt text](image.jpg)"),
        Ok((
            "",
            (MarkdownInline::Image(String::from("alt text"), String::from("image.jpg")))
        ))
    );
    assert_eq!(
        parse_markdown_inline("here is plaintext!"),
        Ok((
            "",
            MarkdownInline::Plaintext(String::from("here is plaintext!"))
        ))
    );
    assert_eq!(
        parse_markdown_inline("here is some plaintext *but what if we italicize?"),
        Ok((
            "*but what if we italicize?",
            MarkdownInline::Plaintext(String::from("here is some plaintext "))
        ))
    );
    assert_eq!(
        parse_markdown_inline(
            r#"here is some plaintext 
*but what if we italicize?"#
        ),
        Ok((
            "\n*but what if we italicize?",
            MarkdownInline::Plaintext(String::from("here is some plaintext "))
        ))
    );
    assert_eq!(
        parse_markdown_inline("\n"),
        Err(ParseError {
            input: "\n",
            code: ErrorKind::Not
        })
    );
    assert_eq!(
        parse_markdown_inline(""),
        Err(ParseError {
            input: "",
            code: ErrorKind::Eof
        })
    );
}

#[test]
fn parser_test_parse_markdown_text() {
    assert_eq!(parse_markdown_text("\n"), Ok(("", vec![])));
    assert_eq!(
        parse_markdown_text("here is some plaintext\n"),
        Ok((
            "",
            vec![MarkdownInline::Plaintext(String::from(
                "here is some plaintext"
            ))]
        ))
    );
    assert_eq!(
        parse_markdown_text("here is some plaintext *but what if we italicize?*\n"),
        Ok((
            "",
            vec![
                MarkdownInline::Plaintext(String::from("here is some plaintext ")),
                MarkdownInline::Italic(String::from("but what if we italicize?")),
            ]
        ))
    );
    assert_eq!(
        parse_markdown_text("here is some plaintext *but what if we italicize?* I guess it doesnt **matter** in my `code`\n"),
        Ok(("", vec![
            MarkdownInline::Plaintext(String::from("here is some plaintext ")),
            MarkdownInline::Italic(String::from("but what if we italicize?")),
            MarkdownInline::Plaintext(String::from(" I guess it doesnt ")),
            MarkdownInline::Bold(String::from("matter")),
            MarkdownInline::Plaintext(String::from(" in my ")),
            MarkdownInline::InlineCode(String::from("code")),
        ]))
    );
    assert_eq!(
        parse_markdown_text("here is some plaintext *but what if we italicize?*\n"),
        Ok((
            "",
            vec![
                MarkdownInline::Plaintext(String::from("here is some plaintext ")),
                MarkdownInline::Italic(String::from("but what if we italicize?")),
            ]
        ))
    );
    assert_eq!(
        parse_markdown_text("here is some plaintext *but what if we italicize?"),
        Err(ParseError {
            input: "*but what if we italicize?",
            code: ErrorKind::Tag
        }) // Ok(("*but what if we italicize?", vec![MarkdownInline::Plaintext(String::from("here is some plaintext "))]))
    );
}

#[test]
fn parser_test_parse_header_tag() {
    assert_eq!(parse_header_tag("# "), Ok(("", 1)));
    assert_eq!(parse_header_tag("### "), Ok(("", 3)));
    assert_eq!(parse_header_tag("# h1"), Ok(("h1", 1)));
    assert_eq!(parse_header_tag("# h1"), Ok(("h1", 1)));
    assert_eq!(
        parse_header_tag(" "),
        Err(ParseError {
            input: " ",
            code: ErrorKind::TakeWhile1
        })
    );
    assert_eq!(
        parse_header_tag("#"),
        Err(ParseError {
            input: "",
            code: ErrorKind::Tag
        })
    );
}

#[test]
fn parser_test_parse_header() {
    assert_eq!(
        parse_header("# h1\n"),
        Ok(("", (1, vec![MarkdownInline::Plaintext(String::from("h1"))])))
    );
    assert_eq!(
        parse_header("## h2\n"),
        Ok(("", (2, vec![MarkdownInline::Plaintext(String::from("h2"))])))
    );
    assert_eq!(
        parse_header("###  h3\n"),
        Ok((
            "",
            (3, vec![MarkdownInline::Plaintext(String::from(" h3"))])
        ))
    );
    assert_eq!(
        parse_header("###h3"),
        Err(ParseError {
            input: "h3",
            code: ErrorKind::Tag
        })
    );
    assert_eq!(
        parse_header("###"),
        Err(ParseError {
            input: "",
            code: ErrorKind::Tag
        })
    );
    assert_eq!(
        parse_header(""),
        Err(ParseError {
            input: "",
            code: ErrorKind::TakeWhile1
        })
    );
    assert_eq!(
        parse_header("#"),
        Err(ParseError {
            input: "",
            code: ErrorKind::Tag
        })
    );
    assert_eq!(parse_header("# \n"), Ok(("", (1, vec![]))));
    assert_eq!(
        parse_header("# test"),
        Err(ParseError {
            input: "",
            code: ErrorKind::Tag
        })
    );
}

#[test]
fn parser_test_parse_unordered_list_tag() {
    assert_eq!(parse_unordered_list_tag("- "), Ok(("", "-")));
    assert_eq!(
        parse_unordered_list_tag("- and some more"),
        Ok(("and some more", "-"))
    );
    assert_eq!(
        parse_unordered_list_tag("-"),
        Err(ParseError {
            input: "",
            code: ErrorKind::Tag
        })
    );
    assert_eq!(
        parse_unordered_list_tag("-and some more"),
        Err(ParseError {
            input: "and some more",
            code: ErrorKind::Tag
        })
    );
    assert_eq!(
        parse_unordered_list_tag("--"),
        Err(ParseError {
            input: "-",
            code: ErrorKind::Tag
        })
    );
    assert_eq!(
        parse_unordered_list_tag(""),
        Err(ParseError {
            input: "",
            code: ErrorKind::Tag
        })
    );
}

#[test]
fn parser_test_parse_unordered_list_element() {
    assert_eq!(
        parse_unordered_list_element("- this is an element\n"),
        Ok((
            "",
            vec![MarkdownInline::Plaintext(String::from(
                "this is an element"
            ))]
        ))
    );
    assert_eq!(
        parse_unordered_list_element(
            r#"- this is an element
- this is another element
"#
        ),
        Ok((
            "- this is another element\n",
            vec![MarkdownInline::Plaintext(String::from(
                "this is an element"
            ))]
        ))
    );
    assert_eq!(
        parse_unordered_list_element(""),
        Err(ParseError {
            input: "",
            code: ErrorKind::Tag
        })
    );
    assert_eq!(parse_unordered_list_element("- \n"), Ok(("", vec![])));
    assert_eq!(
        parse_unordered_list_element("- "),
        Err(ParseError {
            input: "",
            code: ErrorKind::Tag
        })
    );
    assert_eq!(
        parse_unordered_list_element("- test"),
        Err(ParseError {
            input: "",
            code: ErrorKind::Tag
        })
    );
    assert_eq!(
        parse_unordered_list_element("-"),
        Err(ParseError {
            input: "",
            code: ErrorKind::Tag
        })
    );
}

#[test]
fn parser_test_parse_unordered_list() {
    assert_eq!(
        parse_unordered_list("- this is an element"),
        Err(ParseError {
            input: "",
            code: ErrorKind::Tag
        })
    );
    assert_eq!(
        parse_unordered_list("- this is an element\n"),
        Ok((
            "",
            vec![vec![MarkdownInline::Plaintext(String::from(
                "this is an element"
            ))]]
        ))
    );
    assert_eq!(
        parse_unordered_list(
            r#"- this is an element
- here is another
"#
        ),
        Ok((
            "",
            vec![
                vec![MarkdownInline::Plaintext(String::from(
                    "this is an element"
                ))],
                vec![MarkdownInline::Plaintext(String::from("here is another"))]
            ]
        ))
    );
}

#[test]
fn parser_test_parse_ordered_list_tag() {
    assert_eq!(parse_ordered_list_tag("1. "), Ok(("", "1")));
    assert_eq!(parse_ordered_list_tag("1234567. "), Ok(("", "1234567")));
    assert_eq!(
        parse_ordered_list_tag("3. and some more"),
        Ok(("and some more", "3"))
    );
    assert_eq!(
        parse_ordered_list_tag("1"),
        Err(ParseError {
            input: "",
            code: ErrorKind::Tag
        })
    );
    assert_eq!(
        parse_ordered_list_tag("1.and some more"),
        Err(ParseError {
            input: "and some more",
            code: ErrorKind::Tag
        })
    );
    assert_eq!(
        parse_ordered_list_tag("1111."),
        Err(ParseError {
            input: "",
            code: ErrorKind::Tag
        })
    );
    assert_eq!(
        parse_ordered_list_tag(""),
        Err(ParseError {
            input: "",
            code: ErrorKind::TakeWhile1
        })
    );
}

#[test]
fn parser_test_parse_ordered_list_element() {
    assert_eq!(
        parse_ordered_list_element("1. this is an element\n"),
        Ok((
            "",
            vec![MarkdownInline::Plaintext(String::from(
                "this is an element"
            ))]
        ))
    );
    assert_eq!(
        parse_ordered_list_element(
            r#"1. this is an element
1. here is another
"#
        ),
        Ok((
            "1. here is another\n",
            vec![MarkdownInline::Plaintext(String::from(
                "this is an element"
            ))]
        ))
    );
    assert_eq!(
        parse_ordered_list_element(""),
        Err(ParseError {
            input: "",
            code: ErrorKind::TakeWhile1
        })
    );
    assert_eq!(
        parse_ordered_list_element(""),
        Err(ParseError {
            input: "",
            code: ErrorKind::TakeWhile1
        })
    );
    assert_eq!(parse_ordered_list_element("1. \n"), Ok(("", vec![])));
    assert_eq!(
        parse_ordered_list_element("1. test"),
        Err(ParseError {
            input: "",
            code: ErrorKind::Tag
        })
    );
    assert_eq!(
        parse_ordered_list_element("1. "),
        Err(ParseError {
            input: "",
            code: ErrorKind::Tag
        })
    );
    assert_eq!(
        parse_ordered_list_element("1."),
        Err(ParseError {
            input: "",
            code: ErrorKind::Tag
        })
    );
}

#[test]
fn parser_test_parse_ordered_list() {
    assert_eq!(
        parse_ordered_list("1. this is an element\n"),
        Ok((
            "",
            vec![vec![MarkdownInline::Plaintext(String::from(
                "this is an element"
            ))]]
        ))
    );
    assert_eq!(
        parse_ordered_list("1. test"),
        Err(ParseError {
            input: "",
            code: ErrorKind::Tag
        })
    );
    assert_eq!(
        parse_ordered_list(
            r#"1. this is an element
2. here is another
"#
        ),
        Ok((
            "",
            vec![
                vec!(MarkdownInline::Plaintext(String::from(
                    "this is an element"
                ))),
                vec![MarkdownInline::Plaintext(String::from("here is another"))]
            ]
        ))
    );
}

#[test]
fn parser_test_parse_codeblock() {
    assert_eq!(
        parse_code_block(
            r#"```bash
pip install foobar
```"#
        ),
        Ok((
            "",
            (
                String::from("bash"),
                r#"pip install foobar
"#
            )
        ))
    );
    assert_eq!(
        parse_code_block(
            r#"```python
import foobar

foobar.pluralize('word') # returns 'words'
foobar.pluralize('goose') # returns 'geese'
foobar.singularize('phenomena') # returns 'phenomenon'
```"#
        ),
        Ok((
            "",
            (
                String::from("python"),
                r#"import foobar

foobar.pluralize('word') # returns 'words'
foobar.pluralize('goose') # returns 'geese'
foobar.singularize('phenomena') # returns 'phenomenon'
"#
            )
        ))
    );
    // assert_eq!(
    // 	parse_code_block("```bash\n pip `install` foobar\n```"),
    // 	Ok(("", "bash\n pip `install` foobar\n"))
    // );
}

#[test]
fn test_parse_codeblock_no_language() {
    assert_eq!(
        parse_code_block(
            r#"```
pip install foobar
```"#
        ),
        Ok((
            "",
            (
                String::from("__UNKNOWN__"),
                r#"pip install foobar
"#
            )
        ))
    );
}

#[test]
fn test_parse_markdown() {
    assert_eq!(
        parse_markdown(
            r#"# Foobar

Foobar is a Python library for dealing with word pluralization.

```bash
pip install foobar
```
## Installation

Use the package manager [pip](https://pip.pypa.io/en/stable/) to install foobar.
```python
import foobar

foobar.pluralize('word') # returns 'words'
foobar.pluralize('goose') # returns 'geese'
foobar.singularize('phenomena') # returns 'phenomenon'
```"#
        ),
        Ok((
            "",
            vec![
                Markdown::Heading(1, vec![MarkdownInline::Plaintext(String::from("Foobar"))]),
                Markdown::Line(vec![]),
                Markdown::Line(vec![MarkdownInline::Plaintext(String::from(
                    "Foobar is a Python library for dealing with word pluralization."
                ))]),
                Markdown::Line(vec![]),
                Markdown::Codeblock(String::from("bash"), String::from("pip install foobar\n")),
                Markdown::Line(vec![]),
                Markdown::Heading(
                    2,
                    vec![MarkdownInline::Plaintext(String::from("Installation"))]
                ),
                Markdown::Line(vec![]),
                Markdown::Line(vec![
                    MarkdownInline::Plaintext(String::from("Use the package manager ")),
                    MarkdownInline::Link(
                        String::from("pip"),
                        String::from("https://pip.pypa.io/en/stable/")
                    ),
                    MarkdownInline::Plaintext(String::from(" to install foobar.")),
                ]),
                Markdown::Codeblock(
                    String::from("python"),
                    String::from(
                        r#"import foobar

foobar.pluralize('word') # returns 'words'
foobar.pluralize('goose') # returns 'geese'
foobar.singularize('phenomena') # returns 'phenomenon'
"#
                    )
                ),
            ]
        ))
    )
}
