//! From the tree of a document to HTML: one rule for each kind of node,
//! the outputs joined in order with nothing between them, and no text
//! escaped.
use vstd::prelude::*;
use crate::decimal::{decimal, to_decimal};
use crate::BlockView;
use crate::InlineView;
use crate::Markdown;
use crate::MarkdownInline;
use crate::MarkdownText;

verus! {

/// `<b>`, the text, `</b>`.
pub open spec fn html_bold(t: Seq<char>) -> Seq<char> {
    "<b>"@ + t + "</b>"@
}

/// `<i>`, the text, `</i>`.
pub open spec fn html_italic(t: Seq<char>) -> Seq<char> {
    "<i>"@ + t + "</i>"@
}

/// `<code>`, the text, `</code>`.
pub open spec fn html_inline_code(t: Seq<char>) -> Seq<char> {
    "<code>"@ + t + "</code>"@
}

/// `<a href="`, the url, `">`, the label, `</a>`.
pub open spec fn html_link(label: Seq<char>, url: Seq<char>) -> Seq<char> {
    "<a href=\""@ + url + "\">"@ + label + "</a>"@
}

/// `<img src="`, the url, `" alt="`, the alternative text, `" />`.
pub open spec fn html_image(alt: Seq<char>, url: Seq<char>) -> Seq<char> {
    "<img src=\""@ + url + "\" alt=\""@ + alt + "\" />"@
}

/// The HTML of one inline node; plain text stands as it is.
pub open spec fn html_inline(node: InlineView) -> Seq<char> {
    match node {
        InlineView::Bold(t) => html_bold(t),
        InlineView::Italic(t) => html_italic(t),
        InlineView::InlineCode(t) => html_inline_code(t),
        InlineView::Link(label, url) => html_link(label, url),
        InlineView::Image(alt, url) => html_image(alt, url),
        InlineView::Plaintext(t) => t,
    }
}

/// The HTML of a text: that of its nodes, in order.
pub open spec fn html_text(text: Seq<InlineView>) -> Seq<char>
    decreases text.len(),
{
    if text.len() == 0 {
        Seq::empty()
    } else {
        html_text(text.drop_last()) + html_inline(text.last())
    }
}

/// The HTML of the items of a list: each text between `<li>` and `</li>`,
/// in order.
pub open spec fn html_list_elements(items: Seq<Seq<InlineView>>) -> Seq<char>
    decreases items.len(),
{
    if items.len() == 0 {
        Seq::empty()
    } else {
        html_list_elements(items.drop_last()) + ("<li>"@ + html_text(items.last()) + "</li>"@)
    }
}

/// `<h`, the level in decimal, `>`, the text, `</h`, the level, `>`. The
/// level is written as it is, however large.
pub open spec fn html_header(level: nat, text: Seq<InlineView>) -> Seq<char> {
    "<h"@ + decimal(level) + ">"@ + html_text(text) + "</h"@ + decimal(level) + ">"@
}

/// `<ul>`, the items, `</ul>`.
pub open spec fn html_unordered_list(items: Seq<Seq<InlineView>>) -> Seq<char> {
    "<ul>"@ + html_list_elements(items) + "</ul>"@
}

/// `<ol>`, the items, `</ol>`.
pub open spec fn html_ordered_list(items: Seq<Seq<InlineView>>) -> Seq<char> {
    "<ol>"@ + html_list_elements(items) + "</ol>"@
}

/// `<pre><code class="lang-`, the language, `">`, the body, `</code></pre>`.
pub open spec fn html_codeblock(lang: Seq<char>, body: Seq<char>) -> Seq<char> {
    "<pre><code class=\"lang-"@ + lang + "\">"@ + body + "</code></pre>"@
}

/// A line whose text has any HTML is that HTML between `<p>` and `</p>`;
/// one whose text has none, a blank line among them, is nothing at all.
pub open spec fn html_line(text: Seq<InlineView>) -> Seq<char> {
    if html_text(text).len() > 0 {
        "<p>"@ + html_text(text) + "</p>"@
    } else {
        Seq::empty()
    }
}

/// The HTML of one block.
pub open spec fn html_block(b: BlockView) -> Seq<char> {
    match b {
        BlockView::Heading(level, text) => html_header(level, text),
        BlockView::UnorderedList(items) => html_unordered_list(items),
        BlockView::OrderedList(items) => html_ordered_list(items),
        BlockView::Codeblock(lang, body) => html_codeblock(lang, body),
        BlockView::Line(text) => html_line(text),
    }
}

/// The HTML of a document: that of its blocks, in order.
pub open spec fn html(md: Seq<BlockView>) -> Seq<char>
    decreases md.len(),
{
    if md.len() == 0 {
        Seq::empty()
    } else {
        html(md.drop_last()) + html_block(md.last())
    }
}

/// A block that is a line of plain text only, or a blank line.
pub open spec fn is_plain_line(b: BlockView) -> bool {
    b matches BlockView::Line(text) && forall|j: int|
        0 <= j < text.len() ==> #[trigger] text[j] is Plaintext
}

/// The text of a line of plain text: that of its nodes, in order.
pub open spec fn plain_text(text: Seq<InlineView>) -> Seq<char>
    decreases text.len(),
{
    if text.len() == 0 {
        Seq::empty()
    } else {
        plain_text(text.drop_last()) + text.last()->Plaintext_0
    }
}

/// A text between `<p>` and `</p>`; of an empty text, nothing.
pub open spec fn paragraph(t: Seq<char>) -> Seq<char> {
    if t.len() > 0 {
        "<p>"@ + t + "</p>"@
    } else {
        Seq::empty()
    }
}

/// One [`paragraph`] for each line of a document of plain lines, in order.
pub open spec fn paragraphs(md: Seq<BlockView>) -> Seq<char>
    decreases md.len(),
{
    if md.len() == 0 {
        Seq::empty()
    } else {
        paragraphs(md.drop_last()) + paragraph(plain_text(md.last()->Line_0))
    }
}

/// The HTML of a text of plain nodes is the text itself: nothing is added
/// and nothing escaped.
pub proof fn lemma_plain_text_is_kept(text: Seq<InlineView>)
    requires
        forall|j: int| 0 <= j < text.len() ==> #[trigger] text[j] is Plaintext,
    ensures
        html_text(text) == plain_text(text),
    decreases text.len(),
{
    if text.len() > 0 {
        lemma_plain_text_is_kept(text.drop_last());
    }
}

/// A document made of lines of plain text renders to `<p>`, the text,
/// `</p>` for each line that has text, and to nothing for each that has
/// none.
pub proof fn lemma_plain_lines_are_paragraphs(md: Seq<BlockView>)
    requires
        forall|i: int| 0 <= i < md.len() ==> is_plain_line(#[trigger] md[i]),
    ensures
        html(md) == paragraphs(md),
    decreases md.len(),
{
    if md.len() > 0 {
        lemma_plain_lines_are_paragraphs(md.drop_last());
        lemma_plain_text_is_kept(md.last()->Line_0);
    }
}

/// A line of one plain node renders to that text as a paragraph, and a
/// blank line to nothing.
pub proof fn lemma_plain_line(t: Seq<char>)
    ensures
        html_block(BlockView::Line(seq![InlineView::Plaintext(t)])) == paragraph(t),
        html_block(BlockView::Line(Seq::empty())) == Seq::<char>::empty(),
{
    let one = seq![InlineView::Plaintext(t)];
    assert(one.drop_last() == Seq::<InlineView>::empty());
    assert(html_text(one) == html_text(one.drop_last()) + html_inline(one.last()));
    assert(html_text(one) == t);
}

/// The HTML of a document in two parts is that of the first part, then
/// that of the second.
pub proof fn lemma_html_of_parts(first: Seq<BlockView>, second: Seq<BlockView>)
    ensures
        html(first + second) == html(first) + html(second),
    decreases second.len(),
{
    if second.len() == 0 {
        assert(first + second == first);
    } else {
        lemma_html_of_parts(first, second.drop_last());
        assert((first + second).drop_last() == first + second.drop_last());
    }
}

/// The HTML of a block is empty or opens with `<`.
pub proof fn lemma_html_block_opens(b: BlockView)
    ensures
        html_block(b).len() == 0 || html_block(b)[0] == '<',
{
    reveal_strlit("<h");
    reveal_strlit("<ul>");
    reveal_strlit("<ol>");
    reveal_strlit("<pre><code class=\"lang-");
    reveal_strlit("<p>");
}

/// The HTML of a document is empty or opens with `<`.
pub proof fn lemma_html_opens(md: Seq<BlockView>)
    ensures
        html(md).len() == 0 || html(md)[0] == '<',
    decreases md.len(),
{
    if md.len() > 0 {
        lemma_html_opens(md.drop_last());
        lemma_html_block_opens(md.last());
    }
}

/// Bold text as HTML.
pub fn translate_boldtext(boldtext: String) -> (out: String)
    ensures
        out@ == html_bold(boldtext@),
{
    let mut out = String::from_str("<b>");
    out.append(boldtext.as_str());
    out.append("</b>");
    out
}

/// Italic text as HTML.
pub fn translate_italic(italic: String) -> (out: String)
    ensures
        out@ == html_italic(italic@),
{
    let mut out = String::from_str("<i>");
    out.append(italic.as_str());
    out.append("</i>");
    out
}

/// Inline code as HTML.
pub fn translate_inline_code(code: String) -> (out: String)
    ensures
        out@ == html_inline_code(code@),
{
    let mut out = String::from_str("<code>");
    out.append(code.as_str());
    out.append("</code>");
    out
}

/// A link as HTML, from its label and its url.
pub fn translate_link(text: String, url: String) -> (out: String)
    ensures
        out@ == html_link(text@, url@),
{
    let mut out = String::from_str("<a href=\"");
    out.append(url.as_str());
    out.append("\">");
    out.append(text.as_str());
    out.append("</a>");
    out
}

/// An image as HTML, from its alternative text and its url.
pub fn translate_image(text: String, url: String) -> (out: String)
    ensures
        out@ == html_image(text@, url@),
{
    let mut out = String::from_str("<img src=\"");
    out.append(url.as_str());
    out.append("\" alt=\"");
    out.append(text.as_str());
    out.append("\" />");
    out
}

/// A text as HTML: its nodes one after another, with nothing between
/// them.
pub fn translate_text(text: MarkdownText) -> (out: String)
    ensures
        out@ == html_text(text.deep_view()),
{
    let mut out = String::new();
    let ghost nodes = text.deep_view();
    for part in it: text
        invariant
            it.seq() == text@,
            nodes == text.deep_view(),
            out@ == html_text(nodes.take(it.index() as int)),
    {
        proof {
            let k = it.index() as int;
            assert(nodes.take(k + 1).drop_last() == nodes.take(k));
            assert(nodes.take(k + 1).last() == part.deep_view());
        }
        let piece = match part {
            MarkdownInline::Bold(t) => translate_boldtext(t),
            MarkdownInline::Italic(t) => translate_italic(t),
            MarkdownInline::InlineCode(t) => translate_inline_code(t),
            MarkdownInline::Link(label, url) => translate_link(label, url),
            MarkdownInline::Image(alt, url) => translate_image(alt, url),
            MarkdownInline::Plaintext(t) => t,
        };
        out.append(piece.as_str());
    }
    proof {
        assert(nodes.take(nodes.len() as int) == nodes);
    }
    out
}

/// The items of a list as HTML, one `<li>` element each.
pub fn translate_list_elements(lines: Vec<MarkdownText>) -> (out: String)
    ensures
        out@ == html_list_elements(lines.deep_view()),
{
    let mut out = String::new();
    let ghost items = lines.deep_view();
    for line in it: lines
        invariant
            it.seq() == lines@,
            items == lines.deep_view(),
            out@ == html_list_elements(items.take(it.index() as int)),
    {
        proof {
            let k = it.index() as int;
            assert(items.take(k + 1).drop_last() == items.take(k));
            assert(items.take(k + 1).last() == line.deep_view());
        }
        let inner = translate_text(line);
        let ghost before = out@;
        out.append("<li>");
        out.append(inner.as_str());
        out.append("</li>");
        proof {
            assert(out@ == before + ("<li>"@ + inner@ + "</li>"@));
        }
    }
    proof {
        assert(items.take(items.len() as int) == items);
    }
    out
}

/// A heading as HTML, at whatever level it has.
pub fn translate_header(size: usize, text: MarkdownText) -> (out: String)
    ensures
        out@ == html_header(size as nat, text.deep_view()),
{
    let level = to_decimal(size);
    let inner = translate_text(text);
    let mut out = String::from_str("<h");
    out.append(level.as_str());
    out.append(">");
    out.append(inner.as_str());
    out.append("</h");
    out.append(level.as_str());
    out.append(">");
    out
}

/// A bulleted list as HTML.
pub fn translate_unordered_list(lines: Vec<MarkdownText>) -> (out: String)
    ensures
        out@ == html_unordered_list(lines.deep_view()),
{
    let inner = translate_list_elements(lines);
    let mut out = String::from_str("<ul>");
    out.append(inner.as_str());
    out.append("</ul>");
    out
}

/// A numbered list as HTML.
pub fn translate_ordered_list(lines: Vec<MarkdownText>) -> (out: String)
    ensures
        out@ == html_ordered_list(lines.deep_view()),
{
    let inner = translate_list_elements(lines);
    let mut out = String::from_str("<ol>");
    out.append(inner.as_str());
    out.append("</ol>");
    out
}

/// A code block as HTML, the body as it stands.
pub fn translate_codeblock(lang: String, code: String) -> (out: String)
    ensures
        out@ == html_codeblock(lang@, code@),
{
    let mut out = String::from_str("<pre><code class=\"lang-");
    out.append(lang.as_str());
    out.append("\">");
    out.append(code.as_str());
    out.append("</code></pre>");
    out
}

/// A line as HTML: a paragraph, or nothing where the line has no text.
pub fn translate_line(text: MarkdownText) -> (out: String)
    ensures
        out@ == html_line(text.deep_view()),
{
    let line = translate_text(text);
    if !line.as_str().is_empty() {
        let mut out = String::from_str("<p>");
        out.append(line.as_str());
        out.append("</p>");
        out
    } else {
        line
    }
}

/// Writes a document out as HTML.
pub fn translate(md: Vec<Markdown>) -> (out: String)
    ensures
        out@ == html(md.deep_view()),
{
    let mut out = String::new();
    let ghost all = md.deep_view();
    for bit in it: md
        invariant
            it.seq() == md@,
            all == md.deep_view(),
            out@ == html(all.take(it.index() as int)),
    {
        proof {
            let k = it.index() as int;
            assert(all.take(k + 1).drop_last() == all.take(k));
            assert(all.take(k + 1).last() == bit.deep_view());
        }
        let piece = match bit {
            Markdown::Heading(size, line) => translate_header(size, line),
            Markdown::UnorderedList(lines) => translate_unordered_list(lines),
            Markdown::OrderedList(lines) => translate_ordered_list(lines),
            Markdown::Codeblock(lang, code) => translate_codeblock(lang, code),
            Markdown::Line(line) => translate_line(line),
        };
        out.append(piece.as_str());
    }
    proof {
        assert(all.take(all.len() as int) == all);
    }
    out
}

} // verus!
