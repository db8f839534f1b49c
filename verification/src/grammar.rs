//! The grammar of the dialect, as functions of a source and a position in it.
//!
//! Every rule reads the source `s` from position `i` on and either matches,
//! giving the position where the match ends and the value it stands for, or
//! is turned away, giving the position and the kind of the refusal. Rules
//! that offer alternatives try them in a fixed order; the first match wins,
//! and when none matches the refusal of the last alternative is reported.
use vstd::prelude::*;
use crate::BlockView;
use crate::InlineView;

verus! {

/// Why a rule was turned away.
#[derive(Clone, Copy, Debug, PartialEq, Eq, Structural)]
pub enum ErrorKind {
    /// A fixed marker was expected and is not there.
    Tag,
    /// Delimited content was expected and is empty.
    IsNot,
    /// A run of marker characters or digits was expected and is empty.
    TakeWhile1,
    /// Plain text was expected and a reserved prefix is there.
    Not,
    /// A character was expected and the input has ended.
    Eof,
}

/// A refusal: where in the source, and why.
pub struct Reject {
    pub at: int,
    pub code: ErrorKind,
}

/// What a rule gives: the end of the match and its value, or a refusal.
pub type Outcome<T> = Result<(int, T), Reject>;

/// Where a run of characters ends.
#[derive(Clone, Copy)]
pub enum Stop {
    /// Before the first occurrence of this character.
    At(char),
    /// Before the first character other than this one.
    Unless(char),
    /// Before the first character that is no decimal digit.
    NonDigit,
    /// Before the first reserved prefix.
    Reserved,
}

/// The sentinel recorded for a code block without a language tag.
pub open spec fn unknown_language() -> Seq<char> {
    "__UNKNOWN__"@
}

/// `s` holds the character `c` at position `i`.
pub open spec fn has_char(s: Seq<char>, i: int, c: char) -> bool {
    0 <= i < s.len() && s[i] == c
}

/// `s` holds the whole of `tag` from position `i` on.
pub open spec fn has_tag(s: Seq<char>, i: int, tag: Seq<char>) -> bool {
    0 <= i && i + tag.len() <= s.len() && s.subrange(i, i + tag.len()) == tag
}

/// A decimal digit, `0` to `9`.
pub open spec fn is_digit(c: char) -> bool {
    '0' <= c && c <= '9'
}

/// A prefix that plain text may not begin with stands at position `i`: one
/// of `*`, `` ` ``, `[`, `![` and the line terminator.
pub open spec fn reserved_at(s: Seq<char>, i: int) -> bool {
    ||| has_char(s, i, '*')
    ||| has_char(s, i, '`')
    ||| has_char(s, i, '[')
    ||| (has_char(s, i, '!') && has_char(s, i + 1, '['))
    ||| has_char(s, i, '\n')
}

/// A run that has reached position `i` within the source goes no further.
pub open spec fn stops(stop: Stop, s: Seq<char>, i: int) -> bool
    recommends
        0 <= i < s.len(),
{
    match stop {
        Stop::At(c) => s[i] == c,
        Stop::Unless(c) => s[i] != c,
        Stop::NonDigit => !is_digit(s[i]),
        Stop::Reserved => reserved_at(s, i),
    }
}

/// The end of the longest run from `i`: the first position at or after `i`
/// where the run stops or the source ends.
pub open spec fn span_end(s: Seq<char>, i: int, stop: Stop) -> int
    decreases s.len() - i,
{
    if 0 <= i < s.len() && !stops(stop, s, i) {
        span_end(s, i + 1, stop)
    } else {
        i
    }
}

/// `open`, then a non-empty run free of `stop`, then `close`; the value is
/// the run.
pub open spec fn delimited(
    s: Seq<char>,
    i: int,
    open: Seq<char>,
    stop: char,
    close: Seq<char>,
) -> Outcome<Seq<char>> {
    let from = i + open.len();
    let to = span_end(s, from, Stop::At(stop));
    if !has_tag(s, i, open) {
        Err(Reject { at: i, code: ErrorKind::Tag })
    } else if to == from {
        Err(Reject { at: from, code: ErrorKind::IsNot })
    } else if !has_tag(s, to, close) {
        Err(Reject { at: to, code: ErrorKind::Tag })
    } else {
        Ok((to + close.len(), s.subrange(from, to)))
    }
}

/// Bold text: `**`, content free of `*`, `**`.
pub open spec fn boldtext(s: Seq<char>, i: int) -> Outcome<Seq<char>> {
    delimited(s, i, "**"@, '*', "**"@)
}

/// Italic text: `*`, content free of `*`, `*`.
pub open spec fn italics(s: Seq<char>, i: int) -> Outcome<Seq<char>> {
    delimited(s, i, "*"@, '*', "*"@)
}

/// Inline code: a backtick, content free of backticks, a backtick.
pub open spec fn inline_code(s: Seq<char>, i: int) -> Outcome<Seq<char>> {
    delimited(s, i, "`"@, '`', "`"@)
}

/// `open` label `](` target `)`: the shape that links and images share.
pub open spec fn reference(s: Seq<char>, i: int, open: Seq<char>) -> Outcome<
    (Seq<char>, Seq<char>),
> {
    match delimited(s, i, open, ']', "]"@) {
        Err(e) => Err(e),
        Ok((mid, label)) => match delimited(s, mid, "("@, ')', ")"@) {
            Err(e) => Err(e),
            Ok((end, target)) => Ok((end, (label, target))),
        },
    }
}

/// A link, `[label](url)`; the value is the label and the url.
pub open spec fn link(s: Seq<char>, i: int) -> Outcome<(Seq<char>, Seq<char>)> {
    reference(s, i, "["@)
}

/// An image, `![alt](url)`; the value is the alternative text and the url.
pub open spec fn image(s: Seq<char>, i: int) -> Outcome<(Seq<char>, Seq<char>)> {
    reference(s, i, "!["@)
}

/// Plain text: the longest run, of one character at least, that meets no
/// reserved prefix.
pub open spec fn plaintext(s: Seq<char>, i: int) -> Outcome<Seq<char>> {
    if reserved_at(s, i) {
        Err(Reject { at: i, code: ErrorKind::Not })
    } else if !(0 <= i < s.len()) {
        Err(Reject { at: i, code: ErrorKind::Eof })
    } else {
        let end = span_end(s, i, Stop::Reserved);
        Ok((end, s.subrange(i, end)))
    }
}

/// One inline node. The alternatives, in order: italic, inline code, bold,
/// image, link, plain text.
pub open spec fn markdown_inline(s: Seq<char>, i: int) -> Outcome<InlineView> {
    if let Ok((end, t)) = italics(s, i) {
        Ok((end, InlineView::Italic(t)))
    } else if let Ok((end, t)) = inline_code(s, i) {
        Ok((end, InlineView::InlineCode(t)))
    } else if let Ok((end, t)) = boldtext(s, i) {
        Ok((end, InlineView::Bold(t)))
    } else if let Ok((end, (alt, url))) = image(s, i) {
        Ok((end, InlineView::Image(alt, url)))
    } else if let Ok((end, (label, url))) = link(s, i) {
        Ok((end, InlineView::Link(label, url)))
    } else {
        match plaintext(s, i) {
            Ok((end, t)) => Ok((end, InlineView::Plaintext(t))),
            Err(e) => Err(e),
        }
    }
}

/// Inline nodes, as many as follow one another from `i`: where they end,
/// and the nodes. A node that matches ends after the place where it began
/// ([`lemma_inline_advances`]), so the repetition is never cut short by the
/// test that it does.
pub open spec fn inlines(s: Seq<char>, i: int) -> (int, Seq<InlineView>)
    decreases s.len() - i,
{
    match markdown_inline(s, i) {
        Ok((next, node)) => {
            if i < next <= s.len() {
                let (end, rest) = inlines(s, next);
                (end, seq![node] + rest)
            } else {
                (i, Seq::empty())
            }
        },
        Err(_) => (i, Seq::empty()),
    }
}

/// A line of inline content: any number of inline nodes, then the line
/// terminator, which is not optional.
pub open spec fn markdown_text(s: Seq<char>, i: int) -> Outcome<Seq<InlineView>> {
    let (end, nodes) = inlines(s, i);
    if has_char(s, end, '\n') {
        Ok((end + 1, nodes))
    } else {
        Err(Reject { at: end, code: ErrorKind::Tag })
    }
}

/// The opening of a heading: one `#` or more, then one space; the value is
/// the number of `#`.
pub open spec fn header_tag(s: Seq<char>, i: int) -> Outcome<nat> {
    let end = span_end(s, i, Stop::Unless('#'));
    if end == i {
        Err(Reject { at: i, code: ErrorKind::TakeWhile1 })
    } else if !has_char(s, end, ' ') {
        Err(Reject { at: end, code: ErrorKind::Tag })
    } else {
        Ok((end + 1, (end - i) as nat))
    }
}

/// A heading: its opening, then a line of inline content.
pub open spec fn header(s: Seq<char>, i: int) -> Outcome<(nat, Seq<InlineView>)> {
    match header_tag(s, i) {
        Err(e) => Err(e),
        Ok((mid, level)) => match markdown_text(s, mid) {
            Err(e) => Err(e),
            Ok((end, text)) => Ok((end, (level, text))),
        },
    }
}

/// The opening of a bulleted item: `-`, then one space; the value is the
/// `-`.
pub open spec fn unordered_list_tag(s: Seq<char>, i: int) -> Outcome<Seq<char>> {
    if !has_char(s, i, '-') {
        Err(Reject { at: i, code: ErrorKind::Tag })
    } else if !has_char(s, i + 1, ' ') {
        Err(Reject { at: i + 1, code: ErrorKind::Tag })
    } else {
        Ok((i + 2, s.subrange(i, i + 1)))
    }
}

/// The opening of a numbered item: one digit or more, `.`, one space; the
/// value is the digits, which nothing reads as a number.
pub open spec fn ordered_list_tag(s: Seq<char>, i: int) -> Outcome<Seq<char>> {
    let end = span_end(s, i, Stop::NonDigit);
    if end == i {
        Err(Reject { at: i, code: ErrorKind::TakeWhile1 })
    } else if !has_char(s, end, '.') {
        Err(Reject { at: end, code: ErrorKind::Tag })
    } else if !has_char(s, end + 1, ' ') {
        Err(Reject { at: end + 1, code: ErrorKind::Tag })
    } else {
        Ok((end + 2, s.subrange(i, end)))
    }
}

/// The opening of a list item, numbered or bulleted.
pub open spec fn list_tag(s: Seq<char>, i: int, ordered: bool) -> Outcome<Seq<char>> {
    if ordered {
        ordered_list_tag(s, i)
    } else {
        unordered_list_tag(s, i)
    }
}

/// A list item: its opening, then a line of inline content.
pub open spec fn list_element(s: Seq<char>, i: int, ordered: bool) -> Outcome<Seq<InlineView>> {
    match list_tag(s, i, ordered) {
        Err(e) => Err(e),
        Ok((mid, _)) => markdown_text(s, mid),
    }
}

/// A bulleted item.
pub open spec fn unordered_list_element(s: Seq<char>, i: int) -> Outcome<Seq<InlineView>> {
    list_element(s, i, false)
}

/// A numbered item.
pub open spec fn ordered_list_element(s: Seq<char>, i: int) -> Outcome<Seq<InlineView>> {
    list_element(s, i, true)
}

/// List items, as many as follow one another from `i`: where they end, and
/// their texts. An item that matches ends after the place where it began
/// ([`lemma_list_element_advances`]).
pub open spec fn list_elements(s: Seq<char>, i: int, ordered: bool) -> (
    int,
    Seq<Seq<InlineView>>,
)
    decreases s.len() - i,
{
    match list_element(s, i, ordered) {
        Ok((next, item)) => {
            if i < next <= s.len() {
                let (end, rest) = list_elements(s, next, ordered);
                (end, seq![item] + rest)
            } else {
                (i, Seq::empty())
            }
        },
        Err(_) => (i, Seq::empty()),
    }
}

/// A list: one item or more. Without a first item, its refusal is the
/// list's.
pub open spec fn list(s: Seq<char>, i: int, ordered: bool) -> Outcome<Seq<Seq<InlineView>>> {
    match list_element(s, i, ordered) {
        Err(e) => Err(e),
        Ok(_) => Ok(list_elements(s, i, ordered)),
    }
}

/// A bulleted list.
pub open spec fn unordered_list(s: Seq<char>, i: int) -> Outcome<Seq<Seq<InlineView>>> {
    list(s, i, false)
}

/// A numbered list. The numbers need not count up, nor start at one.
pub open spec fn ordered_list(s: Seq<char>, i: int) -> Outcome<Seq<Seq<InlineView>>> {
    list(s, i, true)
}

/// The opening fence of a code block and its language tag: three
/// backticks, then plain text if any follows, else the sentinel
/// [`unknown_language`].
pub open spec fn code_block_lang(s: Seq<char>, i: int) -> Outcome<Seq<char>> {
    if !has_tag(s, i, "```"@) {
        Err(Reject { at: i, code: ErrorKind::Tag })
    } else {
        match plaintext(s, i + 3) {
            Ok(found) => Ok(found),
            Err(_) => Ok((i + 3, unknown_language())),
        }
    }
}

/// The body of a code block: a line terminator, a non-empty run free of
/// backticks, the closing fence; the value is the run.
pub open spec fn code_block_body(s: Seq<char>, i: int) -> Outcome<Seq<char>> {
    delimited(s, i, "\n"@, '`', "```"@)
}

/// A fenced code block; the value is the language and the body.
pub open spec fn code_block(s: Seq<char>, i: int) -> Outcome<(Seq<char>, Seq<char>)> {
    match code_block_lang(s, i) {
        Err(e) => Err(e),
        Ok((mid, lang)) => match code_block_body(s, mid) {
            Err(e) => Err(e),
            Ok((end, body)) => Ok((end, (lang, body))),
        },
    }
}

/// One block. The alternatives, in order: heading, bulleted list, numbered
/// list, code block, line.
pub open spec fn block(s: Seq<char>, i: int) -> Outcome<BlockView> {
    if let Ok((end, (level, text))) = header(s, i) {
        Ok((end, BlockView::Heading(level, text)))
    } else if let Ok((end, items)) = unordered_list(s, i) {
        Ok((end, BlockView::UnorderedList(items)))
    } else if let Ok((end, items)) = ordered_list(s, i) {
        Ok((end, BlockView::OrderedList(items)))
    } else if let Ok((end, (lang, body))) = code_block(s, i) {
        Ok((end, BlockView::Codeblock(lang, body)))
    } else {
        match markdown_text(s, i) {
            Ok((end, text)) => Ok((end, BlockView::Line(text))),
            Err(e) => Err(e),
        }
    }
}

/// Blocks, as many as follow one another from `i`: where they end, and the
/// blocks. A block that matches ends after the place where it began
/// ([`lemma_block_advances`]).
pub open spec fn blocks(s: Seq<char>, i: int) -> (int, Seq<BlockView>)
    decreases s.len() - i,
{
    match block(s, i) {
        Ok((next, first)) => {
            if i < next <= s.len() {
                let (end, rest) = blocks(s, next);
                (end, seq![first] + rest)
            } else {
                (i, Seq::empty())
            }
        },
        Err(_) => (i, Seq::empty()),
    }
}

/// The refusal that an outcome holds. [`document`] asks it of the block
/// rule only where that rule was turned away ([`lemma_blocks_end`]).
pub open spec fn refusal<T>(o: Outcome<T>) -> Reject
    recommends
        o is Err,
{
    o->Err_0
}

/// A whole document: one block or more, which between them leave nothing
/// of the source over. Where no block matches at the start, or the blocks
/// end before the source does, the refusal is that of the block rule at
/// the place where it found none.
pub open spec fn document(s: Seq<char>) -> Result<Seq<BlockView>, Reject> {
    let (end, found) = blocks(s, 0);
    if found.len() > 0 && end == s.len() {
        Ok(found)
    } else {
        Err(refusal(block(s, end)))
    }
}

/// A run from `i` ends within the source, at or after `i`.
pub proof fn lemma_span_end_bounds(s: Seq<char>, i: int, stop: Stop)
    requires
        0 <= i <= s.len(),
    ensures
        i <= span_end(s, i, stop) <= s.len(),
    decreases s.len() - i,
{
    if i < s.len() && !stops(stop, s, i) {
        lemma_span_end_bounds(s, i + 1, stop);
    }
}

/// Within a run nothing stops it, and where it ends it stops or the source
/// ends.
pub proof fn lemma_span_end_run(s: Seq<char>, i: int, stop: Stop)
    requires
        0 <= i <= s.len(),
    ensures
        forall|k: int| i <= k < span_end(s, i, stop) ==> !stops(stop, s, k),
        span_end(s, i, stop) == s.len() || stops(stop, s, span_end(s, i, stop)),
    decreases s.len() - i,
{
    if i < s.len() && !stops(stop, s, i) {
        lemma_span_end_run(s, i + 1, stop);
    }
}

/// A run from `i` ends at `j` when it stops nowhere before `j`, and at `j`
/// stops or meets the end of the source.
pub proof fn lemma_span_end_is(s: Seq<char>, i: int, j: int, stop: Stop)
    requires
        0 <= i <= j <= s.len(),
        forall|k: int| i <= k < j ==> !stops(stop, s, k),
        j == s.len() || stops(stop, s, j),
    ensures
        span_end(s, i, stop) == j,
    decreases j - i,
{
    if i < j {
        lemma_span_end_is(s, i + 1, j, stop);
    }
}

/// A match of [`delimited`] ends within the source, after the place where
/// it began; a refusal lies within the source.
pub proof fn lemma_delimited_bounds(s: Seq<char>, i: int, open: Seq<char>, stop: char, close: Seq<char>)
    requires
        0 <= i <= s.len(),
    ensures
        match delimited(s, i, open, stop, close) {
            Ok((end, _)) => i < end <= s.len(),
            Err(e) => i <= e.at <= s.len(),
        },
{
    if has_tag(s, i, open) {
        lemma_span_end_bounds(s, i + open.len(), Stop::At(stop));
    }
}

/// An inline node that matches ends within the source, after the place
/// where it began: it holds one character at least.
pub proof fn lemma_inline_advances(s: Seq<char>, i: int)
    requires
        0 <= i <= s.len(),
    ensures
        markdown_inline(s, i) matches Ok((end, _)) ==> i < end <= s.len(),
{
    lemma_delimited_bounds(s, i, "*"@, '*', "*"@);
    lemma_delimited_bounds(s, i, "`"@, '`', "`"@);
    lemma_delimited_bounds(s, i, "**"@, '*', "**"@);
    lemma_reference_bounds(s, i, "!["@);
    lemma_reference_bounds(s, i, "["@);
    lemma_plaintext_bounds(s, i);
}

/// A match of [`reference`] ends within the source, after the place where
/// it began; a refusal lies within the source.
pub proof fn lemma_reference_bounds(s: Seq<char>, i: int, open: Seq<char>)
    requires
        0 <= i <= s.len(),
    ensures
        match reference(s, i, open) {
            Ok((end, _)) => i < end <= s.len(),
            Err(e) => i <= e.at <= s.len(),
        },
{
    lemma_delimited_bounds(s, i, open, ']', "]"@);
    if let Ok((mid, _)) = delimited(s, i, open, ']', "]"@) {
        lemma_delimited_bounds(s, mid, "("@, ')', ")"@);
    }
}

/// Plain text that matches ends within the source, after the place where
/// it began.
pub proof fn lemma_plaintext_bounds(s: Seq<char>, i: int)
    requires
        0 <= i <= s.len(),
    ensures
        plaintext(s, i) matches Ok((end, _)) ==> i < end <= s.len(),
{
    if i < s.len() && !reserved_at(s, i) {
        lemma_span_end_bounds(s, i + 1, Stop::Reserved);
    }
}

/// The inline nodes from `i` end within the source, at or after `i`, and
/// where they end no further node matches.
pub proof fn lemma_inlines_end(s: Seq<char>, i: int)
    requires
        0 <= i <= s.len(),
    ensures
        i <= inlines(s, i).0 <= s.len(),
        markdown_inline(s, inlines(s, i).0) is Err,
    decreases s.len() - i,
{
    lemma_inline_advances(s, i);
    if let Ok((next, _)) = markdown_inline(s, i) {
        lemma_inlines_end(s, next);
    }
}

/// A line of inline content that matches ends within the source, after the
/// place where it began; a refusal lies within the source.
pub proof fn lemma_markdown_text_bounds(s: Seq<char>, i: int)
    requires
        0 <= i <= s.len(),
    ensures
        match markdown_text(s, i) {
            Ok((end, _)) => i < end <= s.len(),
            Err(e) => i <= e.at <= s.len(),
        },
{
    lemma_inlines_end(s, i);
}

/// A list item that matches ends within the source, after the place where
/// it began.
pub proof fn lemma_list_element_advances(s: Seq<char>, i: int, ordered: bool)
    requires
        0 <= i <= s.len(),
    ensures
        list_element(s, i, ordered) matches Ok((end, _)) ==> i < end <= s.len(),
{
    lemma_span_end_bounds(s, i, Stop::NonDigit);
    if let Ok((mid, _)) = list_tag(s, i, ordered) {
        lemma_markdown_text_bounds(s, mid);
    }
}

/// The list items from `i` end within the source, at or after `i`, and
/// where they end no further item matches.
pub proof fn lemma_list_elements_end(s: Seq<char>, i: int, ordered: bool)
    requires
        0 <= i <= s.len(),
    ensures
        i <= list_elements(s, i, ordered).0 <= s.len(),
        list_element(s, list_elements(s, i, ordered).0, ordered) is Err,
        list_element(s, i, ordered) is Ok ==> i < list_elements(s, i, ordered).0
            && list_elements(s, i, ordered).1.len() > 0,
    decreases s.len() - i,
{
    lemma_list_element_advances(s, i, ordered);
    if let Ok((next, _)) = list_element(s, i, ordered) {
        lemma_list_elements_end(s, next, ordered);
    }
}

/// A block that matches ends within the source, after the place where it
/// began: it holds one character at least.
pub proof fn lemma_block_advances(s: Seq<char>, i: int)
    requires
        0 <= i <= s.len(),
    ensures
        block(s, i) matches Ok((end, _)) ==> i < end <= s.len(),
{
    lemma_span_end_bounds(s, i, Stop::Unless('#'));
    if let Ok((mid, _)) = header_tag(s, i) {
        lemma_markdown_text_bounds(s, mid);
    }
    lemma_list_elements_end(s, i, false);
    lemma_list_elements_end(s, i, true);
    reveal_strlit("```");
    if let Ok((mid, _)) = code_block_lang(s, i) {
        lemma_plaintext_bounds(s, i + 3);
        lemma_delimited_bounds(s, mid, "\n"@, '`', "```"@);
    }
    lemma_markdown_text_bounds(s, i);
}

/// The blocks from `i` end within the source, at or after `i`, and where
/// they end no further block matches.
pub proof fn lemma_blocks_end(s: Seq<char>, i: int)
    requires
        0 <= i <= s.len(),
    ensures
        i <= blocks(s, i).0 <= s.len(),
        block(s, blocks(s, i).0) is Err,
    decreases s.len() - i,
{
    lemma_block_advances(s, i);
    if let Ok((next, _)) = block(s, i) {
        lemma_blocks_end(s, next);
    }
}

} // verus!
