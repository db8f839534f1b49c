//! A small Markdown dialect rendered to HTML.
//!
//! A document is read by a recursive-descent parser with ordered
//! alternatives ([`grammar`] states the rules, [`parser`] runs them) into a
//! tree of [`Markdown`] blocks, which [`translator`] writes out as HTML.
//! [`markdown`] joins the two.
use vstd::prelude::*;
use crate::grammar::document;
use crate::parser::parse_markdown;
use crate::laws::lemma_fallback_is_no_html;
use crate::translator::{html, translate};

pub mod decimal;
pub mod grammar;
pub mod laws;
pub mod parser;
pub mod scan;
pub mod text;
pub mod translator;

verus! {

/// One line of inline content, in source order.
pub type MarkdownText = Vec<MarkdownInline>;

/// A block of a document.
#[derive(Clone, Debug, PartialEq)]
pub enum Markdown {
    /// A heading: the number of its marker characters, and its text.
    Heading(usize, MarkdownText),
    /// A numbered list, one text per item.
    OrderedList(Vec<MarkdownText>),
    /// A bulleted list, one text per item.
    UnorderedList(Vec<MarkdownText>),
    /// A paragraph line; with no text, a blank line.
    Line(MarkdownText),
    /// A fenced code block: its language tag and its body, verbatim.
    Codeblock(String, String),
}

/// A span within a line.
#[derive(Clone, Debug, PartialEq)]
pub enum MarkdownInline {
    /// A link: its label and its target.
    Link(String, String),
    /// An image: its alternative text and its source.
    Image(String, String),
    InlineCode(String),
    Bold(String),
    Italic(String),
    Plaintext(String),
}

/// What a [`MarkdownInline`] stands for in contracts.
pub enum InlineView {
    Link(Seq<char>, Seq<char>),
    Image(Seq<char>, Seq<char>),
    InlineCode(Seq<char>),
    Bold(Seq<char>),
    Italic(Seq<char>),
    Plaintext(Seq<char>),
}

/// What a [`Markdown`] block stands for in contracts.
pub enum BlockView {
    Heading(nat, Seq<InlineView>),
    OrderedList(Seq<Seq<InlineView>>),
    UnorderedList(Seq<Seq<InlineView>>),
    Line(Seq<InlineView>),
    Codeblock(Seq<char>, Seq<char>),
}

impl DeepView for MarkdownInline {
    type V = InlineView;

    open spec fn deep_view(&self) -> InlineView {
        match self {
            MarkdownInline::Link(label, url) => InlineView::Link(label@, url@),
            MarkdownInline::Image(alt, url) => InlineView::Image(alt@, url@),
            MarkdownInline::InlineCode(t) => InlineView::InlineCode(t@),
            MarkdownInline::Bold(t) => InlineView::Bold(t@),
            MarkdownInline::Italic(t) => InlineView::Italic(t@),
            MarkdownInline::Plaintext(t) => InlineView::Plaintext(t@),
        }
    }
}

impl View for MarkdownInline {
    type V = InlineView;

    open spec fn view(&self) -> InlineView {
        self.deep_view()
    }
}

impl DeepView for Markdown {
    type V = BlockView;

    open spec fn deep_view(&self) -> BlockView {
        match self {
            Markdown::Heading(level, text) => BlockView::Heading(*level as nat, text.deep_view()),
            Markdown::OrderedList(items) => BlockView::OrderedList(items.deep_view()),
            Markdown::UnorderedList(items) => BlockView::UnorderedList(items.deep_view()),
            Markdown::Line(text) => BlockView::Line(text.deep_view()),
            Markdown::Codeblock(lang, body) => BlockView::Codeblock(lang@, body@),
        }
    }
}

impl View for Markdown {
    type V = BlockView;

    open spec fn view(&self) -> BlockView {
        self.deep_view()
    }
}

/// The message given in place of HTML for a source that is no document.
pub open spec fn fallback() -> Seq<char> {
    "Sorry, this did not seem to work! Maybe your markdown was not well formed, have you hit [Enter] after your last line?"@
}

/// What [`markdown`] makes of a source: the HTML of the document that the
/// grammar reads from the whole of it, or [`fallback`] where it reads none.
pub open spec fn rendering(source: Seq<char>) -> Seq<char> {
    match document(source) {
        Ok(found) => html(found),
        Err(_) => fallback(),
    }
}

/// Renders a source to HTML. Whatever keeps the grammar from reading the
/// whole source as a document (an alternative that does not match, a
/// delimiter left open, a last line without its terminator, text left
/// over) gives the one fallback message, never a part of the HTML.
pub fn markdown(md: &str) -> (out: String)
    ensures
        out@ == rendering(md@),
        out@ == fallback() <==> document(md@) is Err,
{
    proof {
        lemma_fallback_is_no_html(md@);
    }
    match parse_markdown(md) {
        Ok((_, m)) => translate(m),
        Err(_) => String::from_str(
            "Sorry, this did not seem to work! Maybe your markdown was not well formed, have you hit [Enter] after your last line?",
        ),
    }
}

} // verus!
