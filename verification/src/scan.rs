//! The recognizers: each rule of the grammar, run on a source held as
//! characters, from a position in it.
use vstd::prelude::*;
use crate::grammar::{
    block, blocks, boldtext, code_block, code_block_body, code_block_lang, delimited, document,
    has_char, has_tag, header, header_tag, image, inline_code, inlines, italics,
    lemma_block_advances, lemma_inline_advances, lemma_list_element_advances, lemma_span_end_is,
    link, list, list_element, list_elements, markdown_inline, markdown_text, ordered_list_tag,
    plaintext, reference, reserved_at, span_end, stops, unordered_list_tag, ErrorKind, Outcome,
    Reject, Stop,
};
use crate::BlockView;
use crate::InlineView;
use crate::text::string_of;
use crate::Markdown;
use crate::MarkdownInline;
use crate::MarkdownText;

verus! {

/// A refusal as the recognizers report it.
#[derive(Clone, Copy, Debug)]
pub struct Failure {
    pub at: usize,
    pub code: ErrorKind,
}

impl View for Failure {
    type V = Reject;

    open spec fn view(&self) -> Reject {
        Reject { at: self.at as int, code: self.code }
    }
}

/// A stretch of the source, from the first position up to the second.
pub type Span = (usize, usize);

/// The result `r` of a recognizer is the outcome `o` of its rule: the same
/// end and the same value, or the same refusal.
pub open spec fn agrees<T: DeepView>(r: Result<(usize, T), Failure>, o: Outcome<T::V>) -> bool {
    match r {
        Ok((end, value)) => o == Ok::<(int, T::V), Reject>((end as int, value.deep_view())),
        Err(f) => o == Err::<(int, T::V), Reject>(f@),
    }
}

/// As [`agrees`], for a recognizer whose value is a stretch of the source
/// `s`.
pub open spec fn agrees_span(s: Seq<char>, r: Result<(usize, Span), Failure>, o: Outcome<Seq<char>>) -> bool {
    match r {
        Ok((end, (from, to))) => {
            &&& from <= to <= end
            &&& o == Ok::<(int, Seq<char>), Reject>((end as int, s.subrange(from as int, to as int)))
        },
        Err(f) => o == Err::<(int, Seq<char>), Reject>(f@),
    }
}

/// The positions that `r` names lie within a source of length `len`.
pub open spec fn within<T>(r: Result<(usize, T), Failure>, len: nat) -> bool {
    match r {
        Ok((end, _)) => end <= len,
        Err(f) => f.at <= len,
    }
}

/// Whether `src` holds `c` at `pos`.
fn char_at(src: &[char], pos: usize, c: char) -> (b: bool)
    ensures
        b == has_char(src@, pos as int, c),
{
    pos < src.len() && src[pos] == c
}

/// Whether a reserved prefix stands at `pos`.
fn reserved(src: &[char], pos: usize) -> (b: bool)
    requires
        pos < src.len(),
    ensures
        b == reserved_at(src@, pos as int),
{
    let c = src[pos];
    c == '*' || c == '`' || c == '[' || c == '\n' || (c == '!' && pos + 1 < src.len() && src[pos
        + 1] == '[')
}

/// Whether a run that has reached `pos` ends there.
fn stops_at(src: &[char], pos: usize, stop: Stop) -> (b: bool)
    requires
        pos < src.len(),
    ensures
        b == stops(stop, src@, pos as int),
{
    match stop {
        Stop::At(c) => src[pos] == c,
        Stop::Unless(c) => src[pos] != c,
        Stop::NonDigit => !('0' <= src[pos] && src[pos] <= '9'),
        Stop::Reserved => reserved(src, pos),
    }
}

/// Runs from `pos` to where the run ends.
pub fn scan(src: &[char], pos: usize, stop: Stop) -> (end: usize)
    requires
        pos <= src.len(),
    ensures
        end == span_end(src@, pos as int, stop),
        pos <= end <= src.len(),
{
    let mut end = pos;
    while end < src.len() && !stops_at(src, end, stop)
        invariant
            pos <= end <= src.len(),
            forall|k: int| pos <= k < end ==> !stops(stop, src@, k),
        decreases src.len() - end,
    {
        end += 1;
    }
    proof {
        lemma_span_end_is(src@, pos as int, end as int, stop);
    }
    end
}

/// Looks for `tag` at `pos`; where it stands there, gives the position
/// after it.
pub fn tag_at(src: &[char], pos: usize, tag: &str) -> (after: Option<usize>)
    requires
        pos <= src.len(),
    ensures
        after is Some == has_tag(src@, pos as int, tag@),
        after matches Some(end) ==> end == pos + tag@.len() && end <= src.len(),
{
    let mut end = pos;
    for c in it: tag.chars()
        invariant
            it.seq() == tag@,
            pos <= end <= src.len(),
            end == pos + it.index(),
            src@.subrange(pos as int, end as int) == tag@.take(it.index() as int),
    {
        if end >= src.len() || src[end] != c {
            proof {
                let k = it.index() as int;
                if has_tag(src@, pos as int, tag@) {
                    assert(src@.subrange(pos as int, pos + tag@.len())[k] == tag@[k]);
                }
            }
            return None;
        }
        end += 1;
    }
    proof {
        assert(tag@.take(tag@.len() as int) == tag@);
    }
    Some(end)
}

/// `open`, a non-empty run free of `stop`, `close`: the stretch between
/// the two markers.
pub fn delimited_at(src: &[char], pos: usize, open: &str, stop: char, close: &str) -> (r: Result<
    (usize, Span),
    Failure,
>)
    requires
        pos <= src.len(),
    ensures
        agrees_span(src@, r, delimited(src@, pos as int, open@, stop, close@)),
        within(r, src@.len()),
        r matches Ok((_, span)) ==> pos <= span.0,
{
    let from = match tag_at(src, pos, open) {
        Some(from) => from,
        None => { return Err(Failure { at: pos, code: ErrorKind::Tag }); },
    };
    let to = scan(src, from, Stop::At(stop));
    if to == from {
        return Err(Failure { at: from, code: ErrorKind::IsNot });
    }
    match tag_at(src, to, close) {
        Some(end) => Ok((end, (from, to))),
        None => Err(Failure { at: to, code: ErrorKind::Tag }),
    }
}

} // verus!

verus! {

/// As [`agrees`], for a recognizer whose value is two stretches of the
/// source `s`.
pub open spec fn agrees_spans(
    s: Seq<char>,
    r: Result<(usize, (Span, Span)), Failure>,
    o: Outcome<(Seq<char>, Seq<char>)>,
) -> bool {
    match r {
        Ok((end, (first, second))) => {
            &&& first.0 <= first.1 <= end
            &&& second.0 <= second.1 <= end
            &&& o == Ok::<(int, (Seq<char>, Seq<char>)), Reject>(
                (
                    end as int,
                    (
                        s.subrange(first.0 as int, first.1 as int),
                        s.subrange(second.0 as int, second.1 as int),
                    ),
                ),
            )
        },
        Err(f) => o == Err::<(int, (Seq<char>, Seq<char>)), Reject>(f@),
    }
}

/// Bold text: the position after it, and the stretch of its content.
pub fn boldtext_at(src: &[char], pos: usize) -> (r: Result<(usize, Span), Failure>)
    requires
        pos <= src.len(),
    ensures
        agrees_span(src@, r, boldtext(src@, pos as int)),
        within(r, src@.len()),
{
    delimited_at(src, pos, "**", '*', "**")
}

/// Italic text: the position after it, and the stretch of its content.
pub fn italics_at(src: &[char], pos: usize) -> (r: Result<(usize, Span), Failure>)
    requires
        pos <= src.len(),
    ensures
        agrees_span(src@, r, italics(src@, pos as int)),
        within(r, src@.len()),
{
    delimited_at(src, pos, "*", '*', "*")
}

/// Inline code: the position after it, and the stretch of its content.
pub fn inline_code_at(src: &[char], pos: usize) -> (r: Result<(usize, Span), Failure>)
    requires
        pos <= src.len(),
    ensures
        agrees_span(src@, r, inline_code(src@, pos as int)),
        within(r, src@.len()),
{
    delimited_at(src, pos, "`", '`', "`")
}

/// `open` label `](` target `)`.
pub fn reference_at(src: &[char], pos: usize, open: &str) -> (r: Result<
    (usize, (Span, Span)),
    Failure,
>)
    requires
        pos <= src.len(),
    ensures
        agrees_spans(src@, r, reference(src@, pos as int, open@)),
        within(r, src@.len()),
{
    let (mid, label) = match delimited_at(src, pos, open, ']', "]") {
        Ok(found) => found,
        Err(f) => { return Err(f); },
    };
    match delimited_at(src, mid, "(", ')', ")") {
        Ok((end, target)) => Ok((end, (label, target))),
        Err(f) => Err(f),
    }
}

/// A link: the position after it, and the stretches of its label and its
/// url.
pub fn link_at(src: &[char], pos: usize) -> (r: Result<(usize, (Span, Span)), Failure>)
    requires
        pos <= src.len(),
    ensures
        agrees_spans(src@, r, link(src@, pos as int)),
        within(r, src@.len()),
{
    reference_at(src, pos, "[")
}

/// An image: the position after it, and the stretches of its alternative
/// text and its url.
pub fn image_at(src: &[char], pos: usize) -> (r: Result<(usize, (Span, Span)), Failure>)
    requires
        pos <= src.len(),
    ensures
        agrees_spans(src@, r, image(src@, pos as int)),
        within(r, src@.len()),
{
    reference_at(src, pos, "![")
}

/// Plain text: the run from `pos` to the next reserved prefix or the end
/// of the source, where that run is not empty.
pub fn plaintext_at(src: &[char], pos: usize) -> (r: Result<(usize, Span), Failure>)
    requires
        pos <= src.len(),
    ensures
        agrees_span(src@, r, plaintext(src@, pos as int)),
        within(r, src@.len()),
        r matches Ok((end, span)) ==> span.0 == pos && span.1 == end,
{
    if pos >= src.len() {
        Err(Failure { at: pos, code: ErrorKind::Eof })
    } else if reserved(src, pos) {
        Err(Failure { at: pos, code: ErrorKind::Not })
    } else {
        let end = scan(src, pos, Stop::Reserved);
        Ok((end, (pos, end)))
    }
}

/// One inline node, by the first alternative that matches.
pub fn inline_at(src: &[char], pos: usize) -> (r: Result<(usize, MarkdownInline), Failure>)
    requires
        pos <= src.len(),
    ensures
        agrees(r, markdown_inline(src@, pos as int)),
        within(r, src@.len()),
        r matches Ok((end, _)) ==> pos < end,
{
    proof {
        lemma_inline_advances(src@, pos as int);
    }
    if let Ok((end, (from, to))) = italics_at(src, pos) {
        return Ok((end, MarkdownInline::Italic(string_of(src, from, to))));
    }
    if let Ok((end, (from, to))) = inline_code_at(src, pos) {
        return Ok((end, MarkdownInline::InlineCode(string_of(src, from, to))));
    }
    if let Ok((end, (from, to))) = boldtext_at(src, pos) {
        return Ok((end, MarkdownInline::Bold(string_of(src, from, to))));
    }
    if let Ok((end, (alt, url))) = image_at(src, pos) {
        return Ok(
            (end, MarkdownInline::Image(string_of(src, alt.0, alt.1), string_of(src, url.0, url.1))),
        );
    }
    if let Ok((end, (label, url))) = link_at(src, pos) {
        return Ok(
            (
                end,
                MarkdownInline::Link(string_of(src, label.0, label.1), string_of(src, url.0, url.1)),
            ),
        );
    }
    match plaintext_at(src, pos) {
        Ok((end, (from, to))) => Ok((end, MarkdownInline::Plaintext(string_of(src, from, to)))),
        Err(f) => Err(f),
    }
}

/// A line of inline content, up to and with its terminator.
pub fn markdown_text_at(src: &[char], pos: usize) -> (r: Result<(usize, MarkdownText), Failure>)
    requires
        pos <= src.len(),
    ensures
        agrees(r, markdown_text(src@, pos as int)),
        within(r, src@.len()),
        r matches Ok((end, _)) ==> pos < end,
{
    let mut nodes: Vec<MarkdownInline> = Vec::new();
    let mut at = pos;
    loop
        invariant
            pos <= at <= src.len(),
            inlines(src@, pos as int) == (
                inlines(src@, at as int).0,
                nodes.deep_view() + inlines(src@, at as int).1,
            ),
        ensures
            pos <= at <= src.len(),
            inlines(src@, pos as int) == (at as int, nodes.deep_view()),
        decreases src.len() - at,
    {
        match inline_at(src, at) {
            Ok((next, node)) => {
                proof {
                    let rest = inlines(src@, next as int).1;
                    assert(nodes.deep_view().push(node.deep_view()) + rest == nodes.deep_view() + (
                    seq![node.deep_view()] + rest));
                }
                let ghost before = nodes.deep_view();
                nodes.push(node);
                proof {
                    assert(nodes.deep_view() == before.push(node.deep_view()));
                }
                at = next;
            },
            Err(_) => {
                proof {
                    assert(nodes.deep_view() + Seq::<InlineView>::empty() == nodes.deep_view());
                }
                break ;
            },
        }
    }
    if char_at(src, at, '\n') {
        Ok((at + 1, nodes))
    } else {
        Err(Failure { at, code: ErrorKind::Tag })
    }
}

} // verus!

verus! {

/// The opening of a heading: the position after it, and the level.
pub fn header_tag_at(src: &[char], pos: usize) -> (r: Result<(usize, usize), Failure>)
    requires
        pos <= src.len(),
    ensures
        match r {
            Ok((end, level)) => header_tag(src@, pos as int) == Ok::<(int, nat), Reject>(
                (end as int, level as nat),
            ),
            Err(f) => header_tag(src@, pos as int) == Err::<(int, nat), Reject>(f@),
        },
        within(r, src@.len()),
{
    let end = scan(src, pos, Stop::Unless('#'));
    if end == pos {
        Err(Failure { at: pos, code: ErrorKind::TakeWhile1 })
    } else if !char_at(src, end, ' ') {
        Err(Failure { at: end, code: ErrorKind::Tag })
    } else {
        Ok((end + 1, end - pos))
    }
}

/// A heading: where it ends, its level and its text.
pub fn header_at(src: &[char], pos: usize) -> (r: Result<(usize, (usize, MarkdownText)), Failure>)
    requires
        pos <= src.len(),
    ensures
        match r {
            Ok((end, (level, text))) => header(src@, pos as int) == Ok::<
                (int, (nat, Seq<InlineView>)),
                Reject,
            >((end as int, (level as nat, text.deep_view()))),
            Err(f) => header(src@, pos as int) == Err::<(int, (nat, Seq<InlineView>)), Reject>(f@),
        },
        within(r, src@.len()),
{
    let (mid, level) = match header_tag_at(src, pos) {
        Ok(found) => found,
        Err(f) => { return Err(f); },
    };
    match markdown_text_at(src, mid) {
        Ok((end, text)) => Ok((end, (level, text))),
        Err(f) => Err(f),
    }
}

/// The opening of a bulleted item: the position after it, and its `-`.
pub fn unordered_list_tag_at(src: &[char], pos: usize) -> (r: Result<(usize, Span), Failure>)
    requires
        pos <= src.len(),
    ensures
        agrees_span(src@, r, unordered_list_tag(src@, pos as int)),
        within(r, src@.len()),
{
    if !char_at(src, pos, '-') {
        Err(Failure { at: pos, code: ErrorKind::Tag })
    } else if !char_at(src, pos + 1, ' ') {
        Err(Failure { at: pos + 1, code: ErrorKind::Tag })
    } else {
        Ok((pos + 2, (pos, pos + 1)))
    }
}

/// The opening of a numbered item: the position after it, and its digits.
pub fn ordered_list_tag_at(src: &[char], pos: usize) -> (r: Result<(usize, Span), Failure>)
    requires
        pos <= src.len(),
    ensures
        agrees_span(src@, r, ordered_list_tag(src@, pos as int)),
        within(r, src@.len()),
{
    let end = scan(src, pos, Stop::NonDigit);
    if end == pos {
        Err(Failure { at: pos, code: ErrorKind::TakeWhile1 })
    } else if !char_at(src, end, '.') {
        Err(Failure { at: end, code: ErrorKind::Tag })
    } else if !char_at(src, end + 1, ' ') {
        Err(Failure { at: end + 1, code: ErrorKind::Tag })
    } else {
        Ok((end + 2, (pos, end)))
    }
}

/// A list item, numbered or bulleted: where it ends, and its text.
pub fn list_element_at(src: &[char], pos: usize, ordered: bool) -> (r: Result<
    (usize, MarkdownText),
    Failure,
>)
    requires
        pos <= src.len(),
    ensures
        agrees(r, list_element(src@, pos as int, ordered)),
        within(r, src@.len()),
        r matches Ok((end, _)) ==> pos < end,
{
    let opening = if ordered {
        ordered_list_tag_at(src, pos)
    } else {
        unordered_list_tag_at(src, pos)
    };
    proof {
        lemma_list_element_advances(src@, pos as int, ordered);
    }
    match opening {
        Ok((mid, _)) => markdown_text_at(src, mid),
        Err(f) => Err(f),
    }
}

/// A list, numbered or bulleted: where it ends, and the texts of its
/// items.
pub fn list_at(src: &[char], pos: usize, ordered: bool) -> (r: Result<
    (usize, Vec<MarkdownText>),
    Failure,
>)
    requires
        pos <= src.len(),
    ensures
        agrees(r, list(src@, pos as int, ordered)),
        within(r, src@.len()),
        r matches Ok((end, items)) ==> pos < end && items.len() > 0,
{
    let (first_end, first) = match list_element_at(src, pos, ordered) {
        Ok(found) => found,
        Err(f) => { return Err(f); },
    };
    let mut items: Vec<MarkdownText> = Vec::new();
    items.push(first);
    let mut at = first_end;
    proof {
        let rest = list_elements(src@, at as int, ordered).1;
        assert(items.deep_view() == seq![first.deep_view()]);
    }
    loop
        invariant
            pos < at <= src.len(),
            items.len() > 0,
            list_elements(src@, pos as int, ordered) == (
                list_elements(src@, at as int, ordered).0,
                items.deep_view() + list_elements(src@, at as int, ordered).1,
            ),
        ensures
            pos < at <= src.len(),
            items.len() > 0,
            list_elements(src@, pos as int, ordered) == (at as int, items.deep_view()),
        decreases src.len() - at,
    {
        match list_element_at(src, at, ordered) {
            Ok((next, item)) => {
                proof {
                    let rest = list_elements(src@, next as int, ordered).1;
                    assert(items.deep_view().push(item.deep_view()) + rest == items.deep_view() + (
                    seq![item.deep_view()] + rest));
                }
                let ghost before = items.deep_view();
                items.push(item);
                proof {
                    assert(items.deep_view() == before.push(item.deep_view()));
                }
                at = next;
            },
            Err(_) => {
                proof {
                    assert(items.deep_view() + Seq::<Seq<InlineView>>::empty()
                        == items.deep_view());
                }
                break ;
            },
        }
    }
    Ok((at, items))
}

/// The opening fence of a code block: where its line's tag ends, and the
/// language.
pub fn code_block_lang_at(src: &[char], pos: usize) -> (r: Result<(usize, String), Failure>)
    requires
        pos <= src.len(),
    ensures
        agrees(r, code_block_lang(src@, pos as int)),
        within(r, src@.len()),
{
    let after = match tag_at(src, pos, "```") {
        Some(after) => after,
        None => { return Err(Failure { at: pos, code: ErrorKind::Tag }); },
    };
    proof {
        reveal_strlit("```");
    }
    match plaintext_at(src, after) {
        Ok((end, (from, to))) => Ok((end, string_of(src, from, to))),
        Err(_) => Ok((after, String::from_str("__UNKNOWN__"))),
    }
}

/// The body of a code block, from the end of the opening line to the
/// closing fence.
pub fn code_block_body_at(src: &[char], pos: usize) -> (r: Result<(usize, Span), Failure>)
    requires
        pos <= src.len(),
    ensures
        agrees_span(src@, r, code_block_body(src@, pos as int)),
        within(r, src@.len()),
{
    delimited_at(src, pos, "\n", '`', "```")
}

/// A fenced code block: where it ends, its language and its body.
pub fn code_block_at(src: &[char], pos: usize) -> (r: Result<(usize, (String, Span)), Failure>)
    requires
        pos <= src.len(),
    ensures
        match r {
            Ok((end, (lang, body))) => {
                &&& body.0 <= body.1 <= end
                &&& code_block(src@, pos as int) == Ok::<(int, (Seq<char>, Seq<char>)), Reject>(
                    (end as int, (lang@, src@.subrange(body.0 as int, body.1 as int))),
                )
            },
            Err(f) => code_block(src@, pos as int) == Err::<
                (int, (Seq<char>, Seq<char>)),
                Reject,
            >(f@),
        },
        within(r, src@.len()),
{
    let (mid, lang) = match code_block_lang_at(src, pos) {
        Ok(found) => found,
        Err(f) => { return Err(f); },
    };
    match code_block_body_at(src, mid) {
        Ok((end, body)) => Ok((end, (lang, body))),
        Err(f) => Err(f),
    }
}

/// One block, by the first alternative that matches.
pub fn block_at(src: &[char], pos: usize) -> (r: Result<(usize, Markdown), Failure>)
    requires
        pos <= src.len(),
    ensures
        agrees(r, block(src@, pos as int)),
        within(r, src@.len()),
        r matches Ok((end, _)) ==> pos < end,
{
    proof {
        lemma_block_advances(src@, pos as int);
    }
    if let Ok((end, (level, text))) = header_at(src, pos) {
        return Ok((end, Markdown::Heading(level, text)));
    }
    if let Ok((end, items)) = list_at(src, pos, false) {
        return Ok((end, Markdown::UnorderedList(items)));
    }
    if let Ok((end, items)) = list_at(src, pos, true) {
        return Ok((end, Markdown::OrderedList(items)));
    }
    if let Ok((end, (lang, (from, to)))) = code_block_at(src, pos) {
        return Ok((end, Markdown::Codeblock(lang, string_of(src, from, to))));
    }
    match markdown_text_at(src, pos) {
        Ok((end, text)) => Ok((end, Markdown::Line(text))),
        Err(f) => Err(f),
    }
}

/// A whole document: its blocks, or the refusal of the block rule where
/// it found none.
pub fn document_of(src: &[char]) -> (r: Result<Vec<Markdown>, Failure>)
    ensures
        match r {
            Ok(found) => document(src@) == Ok::<Seq<BlockView>, Reject>(found.deep_view()),
            Err(f) => document(src@) == Err::<Seq<BlockView>, Reject>(f@),
        },
        r matches Err(f) ==> f.at <= src.len(),
{
    let mut found: Vec<Markdown> = Vec::new();
    let mut at: usize = 0;
    proof {
        assert(found.deep_view() + blocks(src@, 0).1 == blocks(src@, 0).1);
    }
    loop
        invariant
            at <= src.len(),
            blocks(src@, 0) == (
                blocks(src@, at as int).0,
                found.deep_view() + blocks(src@, at as int).1,
            ),
        decreases src.len() - at,
    {
        match block_at(src, at) {
            Ok((next, first)) => {
                proof {
                    let rest = blocks(src@, next as int).1;
                    assert(found.deep_view().push(first.deep_view()) + rest == found.deep_view() + (
                    seq![first.deep_view()] + rest));
                }
                let ghost before = found.deep_view();
                found.push(first);
                proof {
                    assert(found.deep_view() == before.push(first.deep_view()));
                }
                at = next;
            },
            Err(f) => {
                proof {
                    assert(found.deep_view() + Seq::<BlockView>::empty() == found.deep_view());
                }
                if found.len() > 0 && at == src.len() {
                    return Ok(found);
                } else {
                    return Err(f);
                }
            },
        }
    }
}

} // verus!
