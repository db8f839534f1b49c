//! The parser as its callers see it: each rule of the grammar as a function
//! of the text that is left to read, giving the text left after the match
//! and the value, or the text at which the rule was turned away and the
//! kind of the refusal.
use vstd::prelude::*;
use vstd::string::StrSliceExecFns;
use crate::grammar::{
    boldtext, code_block, code_block_body, code_block_lang, document, header, header_tag, image,
    inline_code, italics, link, markdown_inline, markdown_text, ordered_list,
    ordered_list_element, ordered_list_tag, plaintext, unordered_list, unordered_list_element,
    unordered_list_tag, ErrorKind, Outcome,
};
use crate::laws::{lemma_document_is_well_formed, well_formed};
use crate::scan::{
    boldtext_at, code_block_at, code_block_body_at, code_block_lang_at, document_of, header_at,
    header_tag_at, image_at, inline_at, inline_code_at, italics_at, link_at, list_at,
    list_element_at, markdown_text_at, ordered_list_tag_at, plaintext_at, unordered_list_tag_at,
    Failure,
};
use crate::text::{chars_of, string_of};
use crate::Markdown;
use crate::MarkdownInline;
use crate::MarkdownText;

verus! {

/// A refusal: the input that was left where a rule was turned away, and
/// why it was.
#[derive(Clone, Debug, PartialEq)]
pub struct ParseError<'a> {
    pub input: &'a str,
    pub code: ErrorKind,
}

/// The result `r` of parsing the text `i` tells the outcome `o` of a rule
/// at the start of `i`: the text after the match and the value, or the text
/// from the refusal on and its kind.
pub open spec fn reports<'a, T: DeepView>(
    i: Seq<char>,
    r: Result<(&'a str, T), ParseError<'a>>,
    o: Outcome<T::V>,
) -> bool {
    match o {
        Ok((end, value)) => {
            &&& r matches Ok((rest, got))
            &&& rest@ == i.skip(end)
            &&& got.deep_view() == value
        },
        Err(e) => {
            &&& r matches Err(err)
            &&& err.input@ == i.skip(e.at)
            &&& err.code == e.code
        },
    }
}

fn slice_of<'a>(i: &'a str, from: usize, to: usize) -> (out: &'a str)
    requires
        from <= to <= i@.len(),
    ensures
        out@ == i@.subrange(from as int, to as int),
{
    i.substring_char(from, to)
}

fn rest_of<'a>(i: &'a str, len: usize, from: usize) -> (out: &'a str)
    requires
        len == i@.len(),
        from <= len,
    ensures
        out@ == i@.skip(from as int),
{
    i.substring_char(from, len)
}

fn refuse<'a>(i: &'a str, len: usize, f: Failure) -> (out: ParseError<'a>)
    requires
        len == i@.len(),
        f.at <= len,
    ensures
        out.input@ == i@.skip(f.at as int),
        out.code == f.code,
{
    ParseError { input: rest_of(i, len, f.at), code: f.code }
}

/// A whole document: its blocks, well formed, with nothing of the text
/// left over. Where no block matches at the start, or text is left after
/// the last block, the error is that of the block rule at the text it
/// could not read; no part of a document is ever given.
pub fn parse_markdown(i: &str) -> (r: Result<(&str, Vec<Markdown>), ParseError<'_>>)
    ensures
        match document(i@) {
            Ok(found) => {
                &&& r matches Ok((rest, md))
                &&& rest@.len() == 0
                &&& md.deep_view() == found
                &&& well_formed(found)
            },
            Err(e) => {
                &&& r matches Err(err)
                &&& err.input@ == i@.skip(e.at)
                &&& err.code == e.code
            },
        },
{
    proof {
        lemma_document_is_well_formed(i@);
    }
    let src = chars_of(i);
    match document_of(src.as_slice()) {
        Ok(md) => Ok((rest_of(i, src.len(), src.len()), md)),
        Err(f) => Err(refuse(i, src.len(), f)),
    }
}

/// Bold text: `**`, content free of `*`, `**`; the value is the content.
pub fn parse_boldtext(i: &str) -> (r: Result<(&str, &str), ParseError<'_>>)
    ensures
        reports(i@, r, boldtext(i@, 0)),
{
    let src = chars_of(i);
    match boldtext_at(src.as_slice(), 0) {
        Ok((end, (from, to))) => Ok((rest_of(i, src.len(), end), slice_of(i, from, to))),
        Err(f) => Err(refuse(i, src.len(), f)),
    }
}

/// Italic text: `*`, content free of `*`, `*`; the value is the content.
pub fn parse_italics(i: &str) -> (r: Result<(&str, &str), ParseError<'_>>)
    ensures
        reports(i@, r, italics(i@, 0)),
{
    let src = chars_of(i);
    match italics_at(src.as_slice(), 0) {
        Ok((end, (from, to))) => Ok((rest_of(i, src.len(), end), slice_of(i, from, to))),
        Err(f) => Err(refuse(i, src.len(), f)),
    }
}

/// Inline code: a backtick, content free of backticks, a backtick; the
/// value is the content.
pub fn parse_inline_code(i: &str) -> (r: Result<(&str, &str), ParseError<'_>>)
    ensures
        reports(i@, r, inline_code(i@, 0)),
{
    let src = chars_of(i);
    match inline_code_at(src.as_slice(), 0) {
        Ok((end, (from, to))) => Ok((rest_of(i, src.len(), end), slice_of(i, from, to))),
        Err(f) => Err(refuse(i, src.len(), f)),
    }
}

/// A link, `[label](url)`; the value is the label and the url.
pub fn parse_link(i: &str) -> (r: Result<(&str, (&str, &str)), ParseError<'_>>)
    ensures
        reports(i@, r, link(i@, 0)),
{
    let src = chars_of(i);
    match link_at(src.as_slice(), 0) {
        Ok((end, (first, second))) => Ok(
            (
                rest_of(i, src.len(), end),
                (slice_of(i, first.0, first.1), slice_of(i, second.0, second.1)),
            ),
        ),
        Err(f) => Err(refuse(i, src.len(), f)),
    }
}

/// An image, `![alt](url)`; the value is the alternative text and the url.
pub fn parse_image(i: &str) -> (r: Result<(&str, (&str, &str)), ParseError<'_>>)
    ensures
        reports(i@, r, image(i@, 0)),
{
    let src = chars_of(i);
    match image_at(src.as_slice(), 0) {
        Ok((end, (first, second))) => Ok(
            (
                rest_of(i, src.len(), end),
                (slice_of(i, first.0, first.1), slice_of(i, second.0, second.1)),
            ),
        ),
        Err(f) => Err(refuse(i, src.len(), f)),
    }
}

/// Plain text: the longest run, of one character at least, that meets none
/// of the reserved prefixes `*`, `` ` ``, `[`, `![` and the line terminator.
pub fn parse_plaintext(i: &str) -> (r: Result<(&str, String), ParseError<'_>>)
    ensures
        reports(i@, r, plaintext(i@, 0)),
{
    let src = chars_of(i);
    match plaintext_at(src.as_slice(), 0) {
        Ok((end, (from, to))) => Ok(
            (rest_of(i, src.len(), end), string_of(src.as_slice(), from, to)),
        ),
        Err(f) => Err(refuse(i, src.len(), f)),
    }
}

/// One inline node. The alternatives, in order: italic, inline code, bold,
/// image, link, plain text.
pub fn parse_markdown_inline(i: &str) -> (r: Result<(&str, MarkdownInline), ParseError<'_>>)
    ensures
        reports(i@, r, markdown_inline(i@, 0)),
{
    let src = chars_of(i);
    match inline_at(src.as_slice(), 0) {
        Ok((end, value)) => Ok((rest_of(i, src.len(), end), value)),
        Err(f) => Err(refuse(i, src.len(), f)),
    }
}

/// A line of inline content: any number of inline nodes, then the line
/// terminator, without which the line is refused.
pub fn parse_markdown_text(i: &str) -> (r: Result<(&str, MarkdownText), ParseError<'_>>)
    ensures
        reports(i@, r, markdown_text(i@, 0)),
{
    let src = chars_of(i);
    match markdown_text_at(src.as_slice(), 0) {
        Ok((end, value)) => Ok((rest_of(i, src.len(), end), value)),
        Err(f) => Err(refuse(i, src.len(), f)),
    }
}

/// The opening of a heading: one `#` or more, then one space; the value is
/// the number of `#`.
pub fn parse_header_tag(i: &str) -> (r: Result<(&str, usize), ParseError<'_>>)
    ensures
        match header_tag(i@, 0) {
            Ok((end, level)) => {
                &&& r matches Ok((rest, got))
                &&& rest@ == i@.skip(end)
                &&& got == level
            },
            Err(e) => {
                &&& r matches Err(err)
                &&& err.input@ == i@.skip(e.at)
                &&& err.code == e.code
            },
        },
{
    let src = chars_of(i);
    match header_tag_at(src.as_slice(), 0) {
        Ok((end, level)) => Ok((rest_of(i, src.len(), end), level)),
        Err(f) => Err(refuse(i, src.len(), f)),
    }
}

/// A heading: its opening, then a line of inline content; the value is the
/// level and the text.
pub fn parse_header(i: &str) -> (r: Result<(&str, (usize, MarkdownText)), ParseError<'_>>)
    ensures
        match header(i@, 0) {
            Ok((end, (level, text))) => {
                &&& r matches Ok((rest, got))
                &&& rest@ == i@.skip(end)
                &&& got.0 == level
                &&& got.1.deep_view() == text
            },
            Err(e) => {
                &&& r matches Err(err)
                &&& err.input@ == i@.skip(e.at)
                &&& err.code == e.code
            },
        },
{
    let src = chars_of(i);
    match header_at(src.as_slice(), 0) {
        Ok((end, value)) => Ok((rest_of(i, src.len(), end), value)),
        Err(f) => Err(refuse(i, src.len(), f)),
    }
}

/// The opening of a bulleted item: `-`, then one space; the value is the
/// `-`.
pub fn parse_unordered_list_tag(i: &str) -> (r: Result<(&str, &str), ParseError<'_>>)
    ensures
        reports(i@, r, unordered_list_tag(i@, 0)),
{
    let src = chars_of(i);
    match unordered_list_tag_at(src.as_slice(), 0) {
        Ok((end, (from, to))) => Ok((rest_of(i, src.len(), end), slice_of(i, from, to))),
        Err(f) => Err(refuse(i, src.len(), f)),
    }
}

/// A bulleted item: its opening, then a line of inline content.
pub fn parse_unordered_list_element(i: &str) -> (r: Result<(&str, MarkdownText), ParseError<'_>>)
    ensures
        reports(i@, r, unordered_list_element(i@, 0)),
{
    let src = chars_of(i);
    match list_element_at(src.as_slice(), 0, false) {
        Ok((end, value)) => Ok((rest_of(i, src.len(), end), value)),
        Err(f) => Err(refuse(i, src.len(), f)),
    }
}

/// A bulleted list: one item or more, each a text.
pub fn parse_unordered_list(i: &str) -> (r: Result<(&str, Vec<MarkdownText>), ParseError<'_>>)
    ensures
        reports(i@, r, unordered_list(i@, 0)),
{
    let src = chars_of(i);
    match list_at(src.as_slice(), 0, false) {
        Ok((end, value)) => Ok((rest_of(i, src.len(), end), value)),
        Err(f) => Err(refuse(i, src.len(), f)),
    }
}

/// The opening of a numbered item: one digit or more, `.`, one space; the
/// value is the digits.
pub fn parse_ordered_list_tag(i: &str) -> (r: Result<(&str, &str), ParseError<'_>>)
    ensures
        reports(i@, r, ordered_list_tag(i@, 0)),
{
    let src = chars_of(i);
    match ordered_list_tag_at(src.as_slice(), 0) {
        Ok((end, (from, to))) => Ok((rest_of(i, src.len(), end), slice_of(i, from, to))),
        Err(f) => Err(refuse(i, src.len(), f)),
    }
}

/// A numbered item: its opening, then a line of inline content.
pub fn parse_ordered_list_element(i: &str) -> (r: Result<(&str, MarkdownText), ParseError<'_>>)
    ensures
        reports(i@, r, ordered_list_element(i@, 0)),
{
    let src = chars_of(i);
    match list_element_at(src.as_slice(), 0, true) {
        Ok((end, value)) => Ok((rest_of(i, src.len(), end), value)),
        Err(f) => Err(refuse(i, src.len(), f)),
    }
}

/// A numbered list: one item or more, in the order of the source whatever
/// their numbers.
pub fn parse_ordered_list(i: &str) -> (r: Result<(&str, Vec<MarkdownText>), ParseError<'_>>)
    ensures
        reports(i@, r, ordered_list(i@, 0)),
{
    let src = chars_of(i);
    match list_at(src.as_slice(), 0, true) {
        Ok((end, value)) => Ok((rest_of(i, src.len(), end), value)),
        Err(f) => Err(refuse(i, src.len(), f)),
    }
}

/// A fenced code block: the opening fence with its language tag, then the
/// body up to the closing fence; the value is the language and the body.
pub fn parse_code_block(i: &str) -> (r: Result<(&str, (String, &str)), ParseError<'_>>)
    ensures
        reports(i@, r, code_block(i@, 0)),
{
    let src = chars_of(i);
    match code_block_at(src.as_slice(), 0) {
        Ok((end, (lang, (from, to)))) => Ok(
            (rest_of(i, src.len(), end), (lang, slice_of(i, from, to))),
        ),
        Err(f) => Err(refuse(i, src.len(), f)),
    }
}

/// The body of a code block: a line terminator, a non-empty run free of
/// backticks, the closing fence; the value is the run.
pub fn parse_code_block_body(i: &str) -> (r: Result<(&str, &str), ParseError<'_>>)
    ensures
        reports(i@, r, code_block_body(i@, 0)),
{
    let src = chars_of(i);
    match code_block_body_at(src.as_slice(), 0) {
        Ok((end, (from, to))) => Ok((rest_of(i, src.len(), end), slice_of(i, from, to))),
        Err(f) => Err(refuse(i, src.len(), f)),
    }
}

/// The opening fence of a code block and its language tag: three
/// backticks, then plain text if any follows, else `__UNKNOWN__`.
pub fn parse_code_block_lang(i: &str) -> (r: Result<(&str, String), ParseError<'_>>)
    ensures
        reports(i@, r, code_block_lang(i@, 0)),
{
    let src = chars_of(i);
    match code_block_lang_at(src.as_slice(), 0) {
        Ok((end, value)) => Ok((rest_of(i, src.len(), end), value)),
        Err(f) => Err(refuse(i, src.len(), f)),
    }
}

} // verus!
