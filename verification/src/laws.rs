//! What holds of the renderer as a whole: of the parser and the translator
//! together.
use vstd::prelude::*;
use crate::grammar::{
    block, blocks, boldtext, code_block, code_block_lang, delimited, document, has_char, has_tag,
    header_tag, image, inline_code, inlines, italics, lemma_block_advances, lemma_blocks_end,
    lemma_delimited_bounds, lemma_inline_advances, lemma_list_element_advances,
    lemma_list_elements_end, lemma_markdown_text_bounds, lemma_plaintext_bounds,
    lemma_span_end_bounds, lemma_span_end_is, lemma_span_end_run, link, list_element,
    list_elements, list_tag, markdown_inline, plaintext, span_end, stops, Reject, Stop,
};
use crate::translator::{
    html, html_block, lemma_html_of_parts, lemma_html_opens, lemma_plain_line, paragraph,
};
use crate::{fallback, rendering};
use crate::BlockView;
use crate::InlineView;

verus! {

/// The fallback message is the rendering of exactly those sources that the
/// grammar cannot read whole: no document has it as its HTML.
pub proof fn lemma_fallback_is_no_html(source: Seq<char>)
    ensures
        rendering(source) == fallback() <==> document(source) is Err,
{
    reveal_strlit(
        "Sorry, this did not seem to work! Maybe your markdown was not well formed, have you hit [Enter] after your last line?",
    );
    if let Ok(found) = document(source) {
        lemma_html_opens(found);
    }
}

/// Rendering is a function of the source alone: the same source, the
/// same text, whenever and however often it is rendered.
pub proof fn lemma_rendering_is_deterministic(a: Seq<char>, b: Seq<char>)
    requires
        a == b,
    ensures
        rendering(a) == rendering(b),
{
}

/// A document is read if and only if blocks, one at least, follow one
/// another from the start of the source to its end; a source that is none
/// is refused within its bounds, where the block rule was.
pub proof fn lemma_document_outcome(s: Seq<char>)
    ensures
        match document(s) {
            Ok(found) => found.len() > 0 && blocks(s, 0) == (s.len() as int, found),
            Err(e) => {
                &&& 0 <= e.at <= s.len()
                &&& block(s, blocks(s, 0).0) == Err::<(int, BlockView), Reject>(e)
                &&& blocks(s, 0).1.len() == 0 || blocks(s, 0).0 < s.len()
            },
        },
{
    lemma_blocks_end(s, 0);
    lemma_markdown_text_bounds(s, blocks(s, 0).0);
}

/// The level of a heading is the number of `#` that open it, one at
/// least.
pub proof fn lemma_heading_level_counts_markers(s: Seq<char>, i: int)
    requires
        0 <= i <= s.len(),
    ensures
        header_tag(s, i) matches Ok((end, level)) ==> {
            &&& level >= 1
            &&& end == i + level + 1
            &&& forall|k: int| i <= k < i + level ==> s[k] == '#'
            &&& s[i + level] == ' '
        },
{
    lemma_span_end_bounds(s, i, Stop::Unless('#'));
    lemma_span_end_run(s, i, Stop::Unless('#'));
    let end = span_end(s, i, Stop::Unless('#'));
    assert forall|k: int| i <= k < end implies s[k] == '#' by {
        assert(!stops(Stop::Unless('#'), s, k));
    }
}

/// A node holds text: no content, label, url or run of plain text is
/// empty.
pub open spec fn well_formed_inline(node: InlineView) -> bool {
    match node {
        InlineView::Link(label, url) => label.len() > 0 && url.len() > 0,
        InlineView::Image(alt, url) => alt.len() > 0 && url.len() > 0,
        InlineView::InlineCode(t) => t.len() > 0,
        InlineView::Bold(t) => t.len() > 0,
        InlineView::Italic(t) => t.len() > 0,
        InlineView::Plaintext(t) => t.len() > 0,
    }
}

/// Every node of a text holds text, and plain text stands in the longest
/// runs there are: no two plain nodes are neighbours.
pub open spec fn well_formed_text(text: Seq<InlineView>) -> bool {
    &&& forall|k: int| 0 <= k < text.len() ==> well_formed_inline(#[trigger] text[k])
    &&& forall|j: int, k: int|
        0 <= j && k == j + 1 && k < text.len() ==> !(#[trigger] text[j] is Plaintext
            && #[trigger] text[k] is Plaintext)
}

/// A heading has a level of one at least, a list an item at least, a code
/// block a language and a body, and the text of every block is well formed.
pub open spec fn well_formed_block(b: BlockView) -> bool {
    match b {
        BlockView::Heading(level, text) => level >= 1 && well_formed_text(text),
        BlockView::OrderedList(items) => items.len() > 0 && forall|k: int|
            0 <= k < items.len() ==> well_formed_text(#[trigger] items[k]),
        BlockView::UnorderedList(items) => items.len() > 0 && forall|k: int|
            0 <= k < items.len() ==> well_formed_text(#[trigger] items[k]),
        BlockView::Line(text) => well_formed_text(text),
        BlockView::Codeblock(lang, body) => lang.len() > 0 && body.len() > 0,
    }
}

/// Every block of a document is well formed.
pub open spec fn well_formed(md: Seq<BlockView>) -> bool {
    forall|k: int| 0 <= k < md.len() ==> well_formed_block(#[trigger] md[k])
}

/// Delimited content is never empty.
pub proof fn lemma_delimited_holds_text(
    s: Seq<char>,
    i: int,
    open: Seq<char>,
    stop: char,
    close: Seq<char>,
)
    requires
        0 <= i <= s.len(),
    ensures
        match delimited(s, i, open, stop, close) {
            Ok((end, t)) => t.len() > 0 && i < end <= s.len(),
            Err(_) => true,
        },
{
    lemma_delimited_bounds(s, i, open, stop, close);
    if has_tag(s, i, open) {
        lemma_span_end_bounds(s, i + open.len(), Stop::At(stop));
    }
}

/// An inline node that is read holds text.
pub proof fn lemma_inline_is_well_formed(s: Seq<char>, i: int)
    requires
        0 <= i <= s.len(),
    ensures
        markdown_inline(s, i) matches Ok((_, node)) ==> well_formed_inline(node),
{
    lemma_delimited_holds_text(s, i, "*"@, '*', "*"@);
    lemma_delimited_holds_text(s, i, "`"@, '`', "`"@);
    lemma_delimited_holds_text(s, i, "**"@, '*', "**"@);
    lemma_delimited_holds_text(s, i, "!["@, ']', "]"@);
    if let Ok((mid, _)) = delimited(s, i, "!["@, ']', "]"@) {
        lemma_delimited_holds_text(s, mid, "("@, ')', ")"@);
    }
    lemma_delimited_holds_text(s, i, "["@, ']', "]"@);
    if let Ok((mid, _)) = delimited(s, i, "["@, ']', "]"@) {
        lemma_delimited_holds_text(s, mid, "("@, ')', ")"@);
    }
    lemma_plaintext_bounds(s, i);
}

/// The inline nodes that follow one another make a well-formed text: each
/// holds text, and plain text is read in the longest runs there are.
pub proof fn lemma_inlines_are_well_formed(s: Seq<char>, i: int)
    requires
        0 <= i <= s.len(),
    ensures
        well_formed_text(inlines(s, i).1),
    decreases s.len() - i,
{
    lemma_inline_advances(s, i);
    lemma_inline_is_well_formed(s, i);
    if let Ok((next, node)) = markdown_inline(s, i) {
        lemma_inlines_are_well_formed(s, next);
        let rest = inlines(s, next).1;
        let nodes = seq![node] + rest;
        assert(inlines(s, i).1 == nodes);
        if node is Plaintext {
            lemma_span_end_run(s, i, Stop::Reserved);
            assert(plaintext(s, next) is Err);
        }
        assert forall|j: int, k: int| 0 <= j && k == j + 1 && k < nodes.len() implies !(
        #[trigger] nodes[j] is Plaintext && #[trigger] nodes[k] is Plaintext) by {
            if j == 0 {
                assert(nodes[1] == rest[0]);
            } else {
                assert(nodes[j] == rest[j - 1]);
                assert(nodes[k] == rest[k - 1]);
            }
        }
        assert forall|k: int| 0 <= k < nodes.len() implies well_formed_inline(
            #[trigger] nodes[k],
        ) by {
            if k > 0 {
                assert(nodes[k] == rest[k - 1]);
            }
        }
    }
}

/// The items of a list that is read are well-formed texts.
pub proof fn lemma_list_elements_are_well_formed(s: Seq<char>, i: int, ordered: bool)
    requires
        0 <= i <= s.len(),
    ensures
        forall|k: int|
            0 <= k < list_elements(s, i, ordered).1.len() ==> well_formed_text(
                #[trigger] list_elements(s, i, ordered).1[k],
            ),
    decreases s.len() - i,
{
    lemma_list_element_advances(s, i, ordered);
    if let Ok((next, item)) = list_element(s, i, ordered) {
        lemma_list_elements_are_well_formed(s, next, ordered);
        lemma_span_end_bounds(s, i, Stop::NonDigit);
        if let Ok((mid, _)) = list_tag(s, i, ordered) {
            lemma_inlines_are_well_formed(s, mid);
        }
        let rest = list_elements(s, next, ordered).1;
        let items = seq![item] + rest;
        assert forall|k: int| 0 <= k < items.len() implies well_formed_text(#[trigger] items[k]) by {
            if k > 0 {
                assert(items[k] == rest[k - 1]);
            }
        }
    }
}

/// A block that is read is well formed: the level of a heading is one at
/// least, a list has an item at least, and plain text is nowhere split.
pub proof fn lemma_block_is_well_formed(s: Seq<char>, i: int)
    requires
        0 <= i <= s.len(),
    ensures
        block(s, i) matches Ok((_, b)) ==> well_formed_block(b),
{
    lemma_heading_level_counts_markers(s, i);
    if let Ok((mid, _)) = header_tag(s, i) {
        lemma_inlines_are_well_formed(s, mid);
    }
    lemma_list_elements_end(s, i, false);
    lemma_list_elements_end(s, i, true);
    lemma_list_elements_are_well_formed(s, i, false);
    lemma_list_elements_are_well_formed(s, i, true);
    reveal_strlit("```");
    reveal_strlit("__UNKNOWN__");
    if let Ok((mid, _)) = code_block_lang(s, i) {
        lemma_plaintext_bounds(s, i + 3);
        lemma_delimited_holds_text(s, mid, "\n"@, '`', "```"@);
    }
    lemma_inlines_are_well_formed(s, i);
}

/// The blocks that follow one another are well formed.
pub proof fn lemma_blocks_are_well_formed(s: Seq<char>, i: int)
    requires
        0 <= i <= s.len(),
    ensures
        well_formed(blocks(s, i).1),
    decreases s.len() - i,
{
    lemma_block_advances(s, i);
    lemma_block_is_well_formed(s, i);
    if let Ok((next, first)) = block(s, i) {
        lemma_blocks_are_well_formed(s, next);
        let rest = blocks(s, next).1;
        let all = seq![first] + rest;
        assert forall|k: int| 0 <= k < all.len() implies well_formed_block(#[trigger] all[k]) by {
            if k > 0 {
                assert(all[k] == rest[k - 1]);
            }
        }
    }
}

/// Every document that is read is well formed.
pub proof fn lemma_document_is_well_formed(s: Seq<char>)
    ensures
        document(s) matches Ok(found) ==> well_formed(found),
{
    lemma_blocks_are_well_formed(s, 0);
}

/// One of the characters that end a run of plain text wherever they
/// stand: `*`, `` ` ``, `[` and the line terminator.
pub open spec fn is_reserved(c: char) -> bool {
    c == '*' || c == '`' || c == '[' || c == '\n'
}

/// From `p` up to `end` the source holds a line of plain text, ended at
/// `end` by its terminator: no reserved character stands in it, and no
/// heading or list item opens at `p`.
pub open spec fn plain_line(s: Seq<char>, p: int, end: int) -> bool {
    &&& 0 <= p <= end < s.len()
    &&& s[end] == '\n'
    &&& forall|k: int| p <= k < end ==> !is_reserved(#[trigger] s[k])
    &&& header_tag(s, p) is Err
    &&& list_tag(s, p, false) is Err
    &&& list_tag(s, p, true) is Err
}

/// Where the line that begins at `p` ends: at its terminator, or with the
/// source.
pub open spec fn line_end(s: Seq<char>, p: int) -> int {
    span_end(s, p, Stop::At('\n'))
}

/// From `p` on, the source is lines of plain text and nothing else.
pub open spec fn plain_lines(s: Seq<char>, p: int) -> bool
    decreases s.len() - p,
{
    if 0 <= p < s.len() {
        plain_line(s, p, line_end(s, p)) && plain_lines(s, line_end(s, p) + 1)
    } else {
        true
    }
}

/// The [`paragraph`]s of the lines of the source from `p` on, in order.
pub open spec fn line_paragraphs(s: Seq<char>, p: int) -> Seq<char>
    decreases s.len() - p,
{
    if 0 <= p <= line_end(s, p) < s.len() {
        paragraph(s.subrange(p, line_end(s, p))) + line_paragraphs(s, line_end(s, p) + 1)
    } else {
        Seq::empty()
    }
}

/// The block that a line of plain text is read as.
pub open spec fn line_block(s: Seq<char>, p: int, end: int) -> BlockView {
    if p == end {
        BlockView::Line(Seq::empty())
    } else {
        BlockView::Line(seq![InlineView::Plaintext(s.subrange(p, end))])
    }
}

/// The blocks that lines of plain text are read as.
pub open spec fn line_blocks(s: Seq<char>, p: int) -> Seq<BlockView>
    decreases s.len() - p,
{
    if 0 <= p <= line_end(s, p) < s.len() {
        seq![line_block(s, p, line_end(s, p))] + line_blocks(s, line_end(s, p) + 1)
    } else {
        Seq::empty()
    }
}

proof fn lemma_tag_chars(s: Seq<char>, i: int, tag: Seq<char>, k: int)
    requires
        has_tag(s, i, tag),
        0 <= k < tag.len(),
    ensures
        has_char(s, i + k, tag[k]),
{
    assert(s.subrange(i, i + tag.len())[k] == s[i + k]);
}

/// Where no marker character stands, no inline node but plain text
/// matches, and no code block opens.
proof fn lemma_no_marker(s: Seq<char>, p: int)
    requires
        0 <= p <= s.len(),
        !has_char(s, p, '*'),
        !has_char(s, p, '`'),
        !has_char(s, p, '['),
        !(has_char(s, p, '!') && has_char(s, p + 1, '[')),
    ensures
        italics(s, p) is Err,
        inline_code(s, p) is Err,
        boldtext(s, p) is Err,
        image(s, p) is Err,
        link(s, p) is Err,
        code_block(s, p) is Err,
{
    reveal_strlit("*");
    reveal_strlit("`");
    reveal_strlit("**");
    reveal_strlit("[");
    reveal_strlit("![");
    reveal_strlit("```");
    if has_tag(s, p, "*"@) {
        lemma_tag_chars(s, p, "*"@, 0);
    }
    if has_tag(s, p, "`"@) {
        lemma_tag_chars(s, p, "`"@, 0);
    }
    if has_tag(s, p, "**"@) {
        lemma_tag_chars(s, p, "**"@, 0);
    }
    if has_tag(s, p, "["@) {
        lemma_tag_chars(s, p, "["@, 0);
    }
    if has_tag(s, p, "!["@) {
        lemma_tag_chars(s, p, "!["@, 0);
        lemma_tag_chars(s, p, "!["@, 1);
    }
    if has_tag(s, p, "```"@) {
        lemma_tag_chars(s, p, "```"@, 0);
    }
}

/// At a line terminator, and at the end of the source, no inline node
/// matches.
proof fn lemma_no_inline_at_end(s: Seq<char>, p: int)
    requires
        0 <= p <= s.len(),
        p == s.len() || s[p] == '\n',
    ensures
        markdown_inline(s, p) is Err,
        inlines(s, p) == (p, Seq::<InlineView>::empty()),
{
    lemma_no_marker(s, p);
}

/// A line of plain text is read as one line block, up to and with its
/// terminator.
pub proof fn lemma_plain_line_is_line_block(s: Seq<char>, p: int, end: int)
    requires
        plain_line(s, p, end),
    ensures
        block(s, p) == Ok::<(int, BlockView), Reject>((end + 1, line_block(s, p, end))),
        line_end(s, p) == end,
{
    assert forall|k: int| p <= k < end implies !stops(Stop::At('\n'), s, k) by {
        assert(!is_reserved(s[k]));
    }
    lemma_span_end_is(s, p, end, Stop::At('\n'));
    lemma_no_inline_at_end(s, end);
    if p < end {
        assert(!is_reserved(s[p]));
        if p + 1 < end {
            assert(!is_reserved(s[p + 1]));
        }
        lemma_no_marker(s, p);
        assert forall|k: int| p <= k < end implies !stops(Stop::Reserved, s, k) by {
            assert(!is_reserved(s[k]));
            if k + 1 < end {
                assert(!is_reserved(s[k + 1]));
            }
        }
        lemma_span_end_is(s, p, end, Stop::Reserved);
        let node = InlineView::Plaintext(s.subrange(p, end));
        assert(markdown_inline(s, p) == Ok::<(int, InlineView), Reject>((end, node)));
        assert(seq![node] + Seq::<InlineView>::empty() == seq![node]);
        assert(inlines(s, p) == (end, seq![node]));
    } else {
        lemma_no_marker(s, p);
    }
}

/// At the end of the source no block matches.
proof fn lemma_no_block_at_end(s: Seq<char>)
    ensures
        block(s, s.len() as int) is Err,
        blocks(s, s.len() as int) == (s.len() as int, Seq::<BlockView>::empty()),
{
    let p = s.len() as int;
    lemma_no_inline_at_end(s, p);
}

/// Lines of plain text are read as their line blocks, to the end of the
/// source.
pub proof fn lemma_plain_lines_are_line_blocks(s: Seq<char>, p: int)
    requires
        0 <= p <= s.len(),
        plain_lines(s, p),
    ensures
        blocks(s, p) == (s.len() as int, line_blocks(s, p)),
    decreases s.len() - p,
{
    if p < s.len() {
        let end = line_end(s, p);
        lemma_plain_line_is_line_block(s, p, end);
        lemma_plain_lines_are_line_blocks(s, end + 1);
    } else {
        lemma_no_block_at_end(s);
    }
}

/// The line blocks of a source render to the paragraphs of its lines.
pub proof fn lemma_line_blocks_are_paragraphs(s: Seq<char>, p: int)
    requires
        0 <= p <= s.len(),
    ensures
        html(line_blocks(s, p)) == line_paragraphs(s, p),
    decreases s.len() - p,
{
    if p <= line_end(s, p) < s.len() {
        let end = line_end(s, p);
        let first = line_block(s, p, end);
        lemma_line_blocks_are_paragraphs(s, end + 1);
        lemma_html_of_parts(seq![first], line_blocks(s, end + 1));
        lemma_plain_line(s.subrange(p, end));
        assert(seq![first].drop_last() == Seq::<BlockView>::empty());
        assert(html(seq![first]) == html(seq![first].drop_last()) + html_block(first));
        assert(html(seq![first]) == html_block(first));
        if p == end {
            assert(s.subrange(p, end).len() == 0);
        }
    }
}

/// A source that is lines of plain text and nothing else, each with its
/// terminator, is a document, and renders to `<p>`, the line, `</p>` for
/// each line that is not blank and to nothing for each that is.
pub proof fn lemma_plain_source_renders_paragraphs(s: Seq<char>)
    requires
        s.len() > 0,
        plain_lines(s, 0),
    ensures
        document(s) == Ok::<Seq<BlockView>, Reject>(line_blocks(s, 0)),
        rendering(s) == line_paragraphs(s, 0),
{
    lemma_plain_lines_are_line_blocks(s, 0);
    lemma_line_blocks_are_paragraphs(s, 0);
    lemma_plain_line_is_line_block(s, 0, line_end(s, 0));
}

} // verus!
