//! Markdown to styled lines: a fold over the events of `pulldown_cmark`, with
//! code blocks framed and highlighted by `syntect`, and tables laid out in
//! columns.
use vstd::prelude::*;

use crate::highlight::{hl_line_view, hl_view, piece_view, strings_view, syntax_highlight, HlPiece, HlRange, Highlighter};
use crate::style::{
    lines_view, plain, repeat, repeat_char, spans_view, with_fg, Color, Line, LineV, Span, SpanV,
    Style, Theme,
};
use crate::util::{
    chars_of, display_width, lines_of, push_all, slice_of, lowered, spec_str_width, std_lines,
    str_to_lowercase, string_of, trim, trim_range, truncate_by_width, truncated,
    wrap_text, wrapped_text,
};

verus! {

// ---------------------------------------------------------------------------
// Events
// ---------------------------------------------------------------------------

/// The start of an element, as the renderer tells elements apart.
#[derive(Debug)]
pub enum MdTag {
    Paragraph,
    Heading,
    BlockQuote,
    /// A code block: its info string when fenced, `None` when indented.
    CodeBlock(Option<String>),
    /// A list: the number of its first item when ordered.
    List(Option<u64>),
    Item,
    Emphasis,
    Strong,
    Strikethrough,
    Table,
    TableHead,
    TableRow,
    TableCell,
    Other,
}

/// The end of an element.
#[derive(Debug)]
pub enum MdTagEnd {
    Paragraph,
    Heading,
    BlockQuote,
    CodeBlock,
    List,
    Item,
    Emphasis,
    Strong,
    Strikethrough,
    Table,
    TableHead,
    TableRow,
    TableCell,
    Other,
}

/// A parser event.
#[derive(Debug)]
pub enum MdEvent {
    Start(MdTag),
    End(MdTagEnd),
    Text(String),
    /// Inline code.
    Code(String),
    SoftBreak,
    HardBreak,
    Rule,
    TaskListMarker(bool),
    Other,
}

#[verifier::external_type_specification]
#[verifier::external_body]
pub struct ExCmarkEvent<'a>(pulldown_cmark::Event<'a>);

#[verifier::external_type_specification]
#[verifier::external_body]
pub struct ExCmarkTag<'a>(pulldown_cmark::Tag<'a>);

#[verifier::external_type_specification]
#[verifier::external_body]
pub struct ExCmarkTagEnd(pulldown_cmark::TagEnd);

#[verifier::external_type_specification]
#[verifier::external_body]
pub struct ExCmarkCodeKind<'a>(pulldown_cmark::CodeBlockKind<'a>);

/// Converts a `pulldown_cmark::Tag` of a block, one variant to one variant;
/// the inline and table tags go on to `from_cmark_inline_tag`.
#[verifier::external_body]
fn from_cmark_tag(t: pulldown_cmark::Tag) -> MdTag {
    match t {
        pulldown_cmark::Tag::Paragraph => MdTag::Paragraph,
        pulldown_cmark::Tag::Heading { .. } => MdTag::Heading,
        pulldown_cmark::Tag::BlockQuote(_) => MdTag::BlockQuote,
        pulldown_cmark::Tag::CodeBlock(kind) => MdTag::CodeBlock(from_cmark_code_kind(kind)),
        pulldown_cmark::Tag::List(start) => MdTag::List(start),
        pulldown_cmark::Tag::Item => MdTag::Item,
        other => from_cmark_inline_tag(other),
    }
}

/// Converts a `pulldown_cmark::CodeBlockKind`: the info string of a fenced
/// block, `None` for an indented one.
#[verifier::external_body]
fn from_cmark_code_kind(k: pulldown_cmark::CodeBlockKind) -> Option<String> {
    match k {
        pulldown_cmark::CodeBlockKind::Fenced(info) => Some(info.to_string()),
        pulldown_cmark::CodeBlockKind::Indented => None,
    }
}

/// Converts an inline or table `pulldown_cmark::Tag`, one variant to one
/// variant (the tags the renderer ignores to `Other`).
#[verifier::external_body]
fn from_cmark_inline_tag(t: pulldown_cmark::Tag) -> MdTag {
    match t {
        pulldown_cmark::Tag::Emphasis => MdTag::Emphasis,
        pulldown_cmark::Tag::Strong => MdTag::Strong,
        pulldown_cmark::Tag::Strikethrough => MdTag::Strikethrough,
        pulldown_cmark::Tag::Table(_) => MdTag::Table,
        pulldown_cmark::Tag::TableHead => MdTag::TableHead,
        pulldown_cmark::Tag::TableRow => MdTag::TableRow,
        pulldown_cmark::Tag::TableCell => MdTag::TableCell,
        _ => MdTag::Other,
    }
}

/// Converts a `pulldown_cmark::TagEnd` of a block, one variant to one
/// variant; the inline and table ends go on to `from_cmark_inline_end`.
#[verifier::external_body]
fn from_cmark_tag_end(t: pulldown_cmark::TagEnd) -> MdTagEnd {
    match t {
        pulldown_cmark::TagEnd::Paragraph => MdTagEnd::Paragraph,
        pulldown_cmark::TagEnd::Heading(_) => MdTagEnd::Heading,
        pulldown_cmark::TagEnd::BlockQuote(_) => MdTagEnd::BlockQuote,
        pulldown_cmark::TagEnd::CodeBlock => MdTagEnd::CodeBlock,
        pulldown_cmark::TagEnd::List(_) => MdTagEnd::List,
        pulldown_cmark::TagEnd::Item => MdTagEnd::Item,
        other => from_cmark_inline_end(other),
    }
}

/// Converts an inline or table `pulldown_cmark::TagEnd`, one variant to one
/// variant.
#[verifier::external_body]
fn from_cmark_inline_end(t: pulldown_cmark::TagEnd) -> MdTagEnd {
    match t {
        pulldown_cmark::TagEnd::Emphasis => MdTagEnd::Emphasis,
        pulldown_cmark::TagEnd::Strong => MdTagEnd::Strong,
        pulldown_cmark::TagEnd::Strikethrough => MdTagEnd::Strikethrough,
        pulldown_cmark::TagEnd::Table => MdTagEnd::Table,
        pulldown_cmark::TagEnd::TableHead => MdTagEnd::TableHead,
        pulldown_cmark::TagEnd::TableRow => MdTagEnd::TableRow,
        pulldown_cmark::TagEnd::TableCell => MdTagEnd::TableCell,
        _ => MdTagEnd::Other,
    }
}

/// Converts a `pulldown_cmark::Event`, one variant to one variant.
#[verifier::external_body]
fn from_cmark_event(e: pulldown_cmark::Event) -> MdEvent {
    match e {
        pulldown_cmark::Event::Start(t) => MdEvent::Start(from_cmark_tag(t)),
        pulldown_cmark::Event::End(t) => MdEvent::End(from_cmark_tag_end(t)),
        pulldown_cmark::Event::Text(t) => MdEvent::Text(t.to_string()),
        pulldown_cmark::Event::Code(t) => MdEvent::Code(t.to_string()),
        pulldown_cmark::Event::SoftBreak => MdEvent::SoftBreak,
        pulldown_cmark::Event::HardBreak => MdEvent::HardBreak,
        pulldown_cmark::Event::Rule => MdEvent::Rule,
        pulldown_cmark::Event::TaskListMarker(b) => MdEvent::TaskListMarker(b),
        _ => MdEvent::Other,
    }
}

/// The events `pulldown_cmark` produces for a text, with tables and
/// strikethrough switched on or off.
pub uninterp spec fn markdown_events(text: Seq<char>, tables: bool, strikethrough: bool) -> Seq<MdEvent>;

/// `pulldown_cmark::Parser::new_ext`: the events of the CommonMark parse of
/// `text`, with the table and strikethrough extensions as asked. The events
/// depend on these arguments alone.
#[verifier::external_body]
fn parse_markdown(text: &str, tables: bool, strikethrough: bool) -> (r: Vec<MdEvent>)
    ensures
        r@ == markdown_events(text@, tables, strikethrough),
{
    let mut opts = pulldown_cmark::Options::empty();
    opts.set(pulldown_cmark::Options::ENABLE_TABLES, tables);
    opts.set(pulldown_cmark::Options::ENABLE_STRIKETHROUGH, strikethrough);
    pulldown_cmark::Parser::new_ext(text, opts).map(from_cmark_event).collect()
}

// ---------------------------------------------------------------------------
// The renderer as a state machine over the events
// ---------------------------------------------------------------------------

/// A table being read: the header cells, the finished rows, the row and
/// the cell under way.
pub struct TableView {
    pub header: Seq<Seq<char>>,
    pub rows: Seq<Seq<Seq<char>>>,
    pub cur_row: Seq<Seq<char>>,
    pub cur_cell: Seq<char>,
    pub in_head: bool,
}

/// The state of the renderer between two events.
pub struct MdState {
    /// The finished lines.
    pub out: Seq<LineV>,
    /// The spans of the line under way.
    pub spans: LineV,
    /// The marker the next text of the line starts with (list bullet, quote bar).
    pub prefix: Seq<char>,
    pub bold: bool,
    pub italic: bool,
    pub strike: bool,
    /// Block quote depth.
    pub quote: u32,
    pub heading: bool,
    pub table: Option<TableView>,
    /// The code block being read: its language and its text so far.
    pub code: Option<(Seq<char>, Seq<char>)>,
    /// The open lists, innermost last: the next item number of an ordered one.
    pub list: Seq<Option<u64>>,
}

/// The state before the first event.
pub open spec fn md_init() -> MdState {
    MdState {
        out: Seq::empty(),
        spans: Seq::empty(),
        prefix: Seq::empty(),
        bold: false,
        italic: false,
        strike: false,
        quote: 0,
        heading: false,
        table: None,
        code: None,
        list: Seq::empty(),
    }
}

/// The style of text at this point: the modifiers in force, and the dim
/// colour inside a quote or a heading.
pub open spec fn text_style(st: MdState, theme: Theme) -> Style {
    Style {
        fg: if st.quote > 0 || st.heading { Some(theme.dim) } else { None },
        bg: None,
        bold: st.bold,
        italic: st.italic,
        crossed_out: st.strike,
    }
}

/// The spans and prefix once a pending prefix starts the line (in `color`).
pub open spec fn lay_prefix(st: MdState, color: Color) -> (LineV, Seq<char>) {
    if st.spans.len() == 0 && st.prefix.len() > 0 {
        (seq![(st.prefix, with_fg(plain(), color))], Seq::empty())
    } else {
        (st.spans, st.prefix)
    }
}

/// Text: into the code block or the table cell under way, else a span of
/// the line (after the pending prefix).
pub open spec fn push_text(st: MdState, t: Seq<char>, theme: Theme) -> MdState {
    match st.code {
        Some((lang, c)) => MdState { code: Some((lang, c + t)), ..st },
        None => match st.table {
            Some(tb) => MdState {
                table: Some(TableView {
                    cur_cell: tb.cur_cell + if t.contains('\n') { seq![' '] } else { t },
                    ..tb
                }),
                ..st
            },
            None => {
                let (spans, prefix) = lay_prefix(st, if st.quote > 0 { theme.quote } else { theme.accent });
                MdState { spans: spans.push((t, text_style(st, theme))), prefix, ..st }
            },
        },
    }
}

/// The background of inline code.
pub open spec fn code_bg() -> Color {
    Color::Rgb(46, 52, 64)
}

/// Inline code: a span padded with a space on each side.
pub open spec fn inline_code(st: MdState, t: Seq<char>, theme: Theme) -> MdState {
    let (spans, prefix) = lay_prefix(st, theme.accent);
    MdState {
        spans: spans.push(
            (seq![' '] + t + seq![' '], Style { fg: Some(theme.accent), bg: Some(code_bg()), ..plain() }),
        ),
        prefix,
        ..st
    }
}

/// Ends the line under way: its spans become a line when there are any;
/// the prefix and the modifiers are cleared.
pub open spec fn flush_line(st: MdState) -> MdState {
    MdState {
        out: if st.spans.len() > 0 { st.out.push(st.spans) } else { st.out },
        spans: Seq::empty(),
        prefix: Seq::empty(),
        bold: false,
        italic: false,
        strike: false,
        ..st
    }
}

/// An empty line after a line that is not empty.
pub open spec fn blank(st: MdState) -> MdState {
    if st.out.len() > 0 && st.out.last().len() > 0 {
        MdState { out: st.out.push(Seq::empty()), ..st }
    } else {
        st
    }
}

/// Extends the pending prefix, while the line has no span yet.
pub open spec fn push_prefix(st: MdState, p: Seq<char>) -> MdState {
    if st.spans.len() == 0 {
        MdState { prefix: st.prefix + p, ..st }
    } else {
        st
    }
}

/// Two spaces per level.
pub open spec fn indent(depth: nat) -> Seq<char> {
    repeat(' ', 2 * depth)
}

/// The prefix that carries a block over a hard line break.
pub open spec fn block_prefix(st: MdState) -> Seq<char> {
    indent(st.list.len()) + if st.quote > 0 { "│ "@ } else { Seq::empty() }
}

/// The decimal digit `d`.
pub open spec fn digit(d: nat) -> char {
    if d == 0 { '0' } else if d == 1 { '1' } else if d == 2 { '2' } else if d == 3 { '3' } else if d == 4 { '4' }
    else if d == 5 { '5' } else if d == 6 { '6' } else if d == 7 { '7' } else if d == 8 { '8' } else { '9' }
}

/// The decimal form of `n`.
pub open spec fn decimal(n: nat) -> Seq<char>
    decreases n,
{
    if n < 10 {
        seq![digit(n)]
    } else {
        decimal(n / 10).push(digit(n % 10))
    }
}

/// Index of the first space or comma of `s` (its length when none).
pub open spec fn first_sep(s: Seq<char>) -> nat
    decreases s.len(),
{
    if s.len() == 0 || s[0] == ' ' || s[0] == ',' {
        0
    } else {
        1 + first_sep(s.drop_first())
    }
}

/// The language of a code block: the info string up to its first space or
/// comma; none for an indented block.
pub open spec fn lang_of(info: Option<String>) -> Seq<char> {
    match info {
        Some(s) => s@.take(first_sep(s@) as int),
        None => Seq::empty(),
    }
}

/// A list item: the line starts with the bullet, or the number of an
/// ordered list (which moves on to the next number).
pub open spec fn item_start(st: MdState) -> MdState {
    let depth: nat = if st.list.len() > 0 { (st.list.len() - 1) as nat } else { 0 };
    if st.list.len() > 0 && st.list.last() is Some {
        let n = st.list.last()->0;
        MdState {
            prefix: indent(depth) + decimal(n as nat) + ". "@,
            list: st.list.update(st.list.len() - 1, Some(if n < u64::MAX { (n + 1) as u64 } else { n })),
            ..st
        }
    } else {
        MdState { prefix: indent(depth) + "• "@, ..st }
    }
}

/// The decimal form of a number is not empty and starts with a digit.
proof fn lemma_decimal_starts_with_digit(n: nat)
    ensures
        decimal(n).len() > 0,
        decimal(n)[0] != ' ',
    decreases n,
{
    if n >= 10 {
        lemma_decimal_starts_with_digit(n / 10);
    }
}

/// A list item is indented by two spaces for every list that encloses its
/// own list: its prefix starts with exactly `2 * (open lists - 1)` spaces,
/// then the bullet or the number. A nested item thus stands two columns
/// further in than the items of the list around it.
pub proof fn lemma_item_indent(st: MdState)
    requires
        st.list.len() > 0,
    ensures
        ({
            let p = start_tag(st, MdTag::Item).prefix;
            let d = 2 * (st.list.len() - 1);
            &&& p.len() > d
            &&& forall|i: int| 0 <= i < d ==> p[i] == ' '
            &&& p[d] != ' '
        }),
{
    let d = 2 * (st.list.len() - 1);
    let f = flush_line(st);
    let p = start_tag(st, MdTag::Item).prefix;
    reveal_strlit("• ");
    lemma_decimal_starts_with_digit(0);
    if f.list.last() is Some {
        let n = f.list.last()->0;
        lemma_decimal_starts_with_digit(n as nat);
        assert(p == indent((st.list.len() - 1) as nat) + decimal(n as nat) + ". "@);
        assert(p[d] == decimal(n as nat)[0]);
    } else {
        assert(p == indent((st.list.len() - 1) as nat) + "• "@);
        assert(p[d] == '•');
    }
}

/// A table with nothing read yet.
pub open spec fn empty_table() -> TableView {
    TableView { header: Seq::empty(), rows: Seq::empty(), cur_row: Seq::empty(), cur_cell: Seq::empty(), in_head: false }
}

/// The start of an element.
pub open spec fn start_tag(st: MdState, tag: MdTag) -> MdState {
    match tag {
        MdTag::Heading => push_prefix(MdState { heading: true, ..st }, "◆ "@),
        MdTag::BlockQuote => push_prefix(
            MdState { quote: if st.quote < u32::MAX { (st.quote + 1) as u32 } else { st.quote }, ..st },
            "│ "@,
        ),
        MdTag::CodeBlock(info) => MdState { code: Some((lang_of(info), Seq::empty())), ..flush_line(st) },
        MdTag::List(start) => blank(MdState { list: st.list.push(start), ..st }),
        MdTag::Item => item_start(flush_line(st)),
        MdTag::Emphasis => MdState { italic: true, ..st },
        MdTag::Strong => MdState { bold: true, ..st },
        MdTag::Strikethrough => MdState { strike: true, ..st },
        MdTag::Table => MdState { table: Some(empty_table()), ..st },
        MdTag::TableHead => match st.table {
            Some(t) => MdState { table: Some(TableView { in_head: true, ..t }), ..st },
            None => st,
        },
        _ => st,
    }
}

/// A span made bold and in the accent colour.
pub open spec fn accent_bold(sp: SpanV, theme: Theme) -> SpanV {
    (sp.0, Style { fg: Some(theme.accent), bold: true, ..sp.1 })
}

/// The last finished line made bold and in the accent colour.
pub open spec fn restyle_last(out: Seq<LineV>, theme: Theme) -> Seq<LineV> {
    if out.len() > 0 {
        out.update(out.len() - 1, out.last().map_values(|sp: SpanV| accent_bold(sp, theme)))
    } else {
        out
    }
}

/// The end of an element.
pub open spec fn end_tag(st: MdState, tag: MdTagEnd, width: nat, theme: Theme, hl: bool) -> MdState {
    match tag {
        MdTagEnd::Paragraph => blank(flush_line(st)),
        MdTagEnd::Heading => blank(MdState { out: restyle_last(st.out, theme), heading: false, ..st }),
        MdTagEnd::BlockQuote => blank(
            flush_line(MdState { quote: if st.quote > 0 { (st.quote - 1) as u32 } else { 0 }, ..st }),
        ),
        MdTagEnd::CodeBlock => match st.code {
            Some((lang, code)) => {
                let s1 = blank(MdState { code: None, ..st });
                blank(MdState { out: s1.out + code_block_lines(code, lang, width, theme, hl), ..s1 })
            },
            None => st,
        },
        MdTagEnd::List => blank(
            MdState { list: if st.list.len() > 0 { st.list.drop_last() } else { st.list }, ..st },
        ),
        MdTagEnd::Item => flush_line(st),
        MdTagEnd::Emphasis => MdState { italic: false, ..st },
        MdTagEnd::Strong => MdState { bold: false, ..st },
        MdTagEnd::Strikethrough => MdState { strike: false, ..st },
        MdTagEnd::TableHead => match st.table {
            Some(t) => MdState {
                table: Some(TableView { header: t.cur_row, cur_row: Seq::empty(), in_head: false, ..t }),
                ..st
            },
            None => st,
        },
        MdTagEnd::TableRow => match st.table {
            Some(t) => MdState {
                table: Some(TableView {
                    rows: if t.cur_row.len() > 0 { t.rows.push(t.cur_row) } else { t.rows },
                    cur_row: Seq::empty(),
                    ..t
                }),
                ..st
            },
            None => st,
        },
        MdTagEnd::TableCell => match st.table {
            Some(t) => MdState {
                table: Some(TableView { cur_row: t.cur_row.push(trim(t.cur_cell)), cur_cell: Seq::empty(), ..t }),
                ..st
            },
            None => st,
        },
        MdTagEnd::Table => match st.table {
            Some(t) => blank(MdState { out: st.out + table_lines(t, width, theme), table: None, ..st }),
            None => st,
        },
        _ => st,
    }
}

/// A horizontal rule `width - 2` columns long.
pub open spec fn rule_line(width: nat, theme: Theme) -> LineV {
    seq![(repeat('─', (width - 2) as nat), with_fg(plain(), theme.faint))]
}

/// One event.
pub open spec fn md_step(st: MdState, ev: MdEvent, width: nat, theme: Theme, hl: bool) -> MdState {
    match ev {
        MdEvent::Start(tag) => start_tag(st, tag),
        MdEvent::End(tag) => end_tag(st, tag, width, theme, hl),
        MdEvent::Text(t) => push_text(st, t@, theme),
        MdEvent::Code(t) => inline_code(st, t@, theme),
        MdEvent::SoftBreak => push_text(st, " "@, theme),
        MdEvent::HardBreak => MdState { prefix: block_prefix(st), ..flush_line(st) },
        MdEvent::Rule => {
            let s1 = flush_line(st);
            blank(MdState { out: s1.out.push(rule_line(width, theme)), ..s1 })
        },
        MdEvent::TaskListMarker(checked) => push_prefix(st, if checked { "[x] "@ } else { "[ ] "@ }),
        MdEvent::Other => st,
    }
}

/// The state after the events `evs`.
pub open spec fn md_fold(evs: Seq<MdEvent>, width: nat, theme: Theme, hl: bool) -> MdState
    decreases evs.len(),
{
    if evs.len() == 0 {
        md_init()
    } else {
        md_step(md_fold(evs.drop_last(), width, theme, hl), evs.last(), width, theme, hl)
    }
}

/// The lines of the events `evs`: the finished lines once the last line is ended.
pub open spec fn md_render(evs: Seq<MdEvent>, width: nat, theme: Theme, hl: bool) -> Seq<LineV> {
    flush_line(md_fold(evs, width, theme, hl)).out
}

// ---------------------------------------------------------------------------
// Code blocks
// ---------------------------------------------------------------------------

/// The language label of a code block.
pub open spec fn code_label(lang: Seq<char>) -> Seq<char> {
    if lang.len() == 0 { "code"@ } else { lang }
}

/// The top border: the label, then a rule to the right edge when it fits.
pub open spec fn code_top(lang: Seq<char>, width: nat) -> Seq<char> {
    let top = "╭─ "@ + code_label(lang) + " "@;
    let w = spec_str_width(top) as nat;
    if width > w {
        top + repeat('─', (width - w) as nat) + seq!['╮']
    } else {
        top
    }
}

/// The bottom border.
pub open spec fn code_bottom(width: nat) -> Seq<char> {
    if width > 2 {
        seq!['╰'] + repeat('─', (width - 2) as nat) + seq!['╯']
    } else {
        seq!['╰']
    }
}

/// The columns left for code inside the frame.
pub open spec fn code_inner(width: nat) -> nat {
    if width > 5 { (width - 4) as nat } else { 1 }
}

/// The token a code block's language is looked up by.
pub open spec fn lang_token(lang: Seq<char>) -> Seq<char> {
    lowered(trim(lang))
}

/// The highlighting of a code block (`None`: shown plain).
pub open spec fn highlight_for(code: Seq<char>, lang: Seq<char>, hl: bool) -> Option<Seq<Option<Seq<HlPiece>>>> {
    if hl && lang_token(lang).len() > 0 {
        syntax_highlight(lang_token(lang), std_lines(code))
    } else {
        None
    }
}

/// The spans of highlighted pieces: each cut to `inner` columns, empty ones left out.
pub open spec fn piece_spans(ps: Seq<HlPiece>, inner: nat) -> LineV
    decreases ps.len(),
{
    if ps.len() == 0 {
        Seq::empty()
    } else {
        let p = ps.last();
        let t = truncated(p.0, inner);
        let st = Style { fg: Some(p.1), bold: p.2, italic: p.3, ..plain() };
        if t.len() == 0 {
            piece_spans(ps.drop_last(), inner)
        } else {
            piece_spans(ps.drop_last(), inner).push((t, st))
        }
    }
}

/// The left bar of a code line.
pub open spec fn code_bar(theme: Theme) -> SpanV {
    ("│ "@, with_fg(plain(), theme.code))
}

/// A highlighted code line.
pub open spec fn hl_code_line(o: Option<Seq<HlPiece>>, inner: nat, theme: Theme) -> LineV {
    seq![code_bar(theme)] + match o {
        Some(ps) => piece_spans(ps, inner),
        None => Seq::empty(),
    }
}

/// A plain code line.
pub open spec fn plain_code_line(l: Seq<char>, theme: Theme) -> LineV {
    seq![code_bar(theme), (l, plain())]
}

/// The lines of a code block between its borders.
pub open spec fn code_body(code: Seq<char>, lang: Seq<char>, width: nat, theme: Theme, hl: bool) -> Seq<LineV> {
    let inner = code_inner(width);
    match highlight_for(code, lang, hl) {
        Some(hs) => hs.map_values(|o: Option<Seq<HlPiece>>| hl_code_line(o, inner, theme)),
        None => wrapped_text(code, inner as int).map_values(|l: Seq<char>| plain_code_line(l, theme)),
    }
}

/// A framed code block.
pub open spec fn code_block_lines(code: Seq<char>, lang: Seq<char>, width: nat, theme: Theme, hl: bool) -> Seq<LineV> {
    seq![seq![(code_top(lang, width), with_fg(plain(), theme.code))]] + code_body(code, lang, width, theme, hl)
        + seq![seq![(code_bottom(width), with_fg(plain(), theme.code))]]
}

// ---------------------------------------------------------------------------
// Tables
// ---------------------------------------------------------------------------

/// The most cells in a row.
pub open spec fn max_row_len(rows: Seq<Seq<Seq<char>>>) -> nat
    decreases rows.len(),
{
    if rows.len() == 0 {
        0
    } else {
        let m = max_row_len(rows.drop_last());
        if rows.last().len() > m { rows.last().len() } else { m }
    }
}

/// The number of columns.
pub open spec fn ncols(t: TableView) -> nat {
    let m = max_row_len(t.rows);
    if t.header.len() > m { t.header.len() } else { m }
}

/// The widest a column may grow.
pub open spec fn col_cap(width: nat, n: nat) -> nat {
    let c = (if width > 2 { (width - 2) as nat } else { 0 }) / n;
    if c > 4 { c } else { 4 }
}

/// The width of cell `i` of a row (zero when the row is shorter).
pub open spec fn cell_width(cells: Seq<Seq<char>>, i: int) -> nat {
    if 0 <= i < cells.len() { spec_str_width(cells[i]) as nat } else { 0 }
}

/// A cell's width capped at `cap`, with its two columns of padding.
pub open spec fn capped(w: nat, cap: nat) -> nat {
    (if w < cap { w } else { cap }) + 2
}

/// The width of column `i` over the rows `rows`, starting from `base`.
pub open spec fn col_width_rows(rows: Seq<Seq<Seq<char>>>, i: int, cap: nat, base: nat) -> nat
    decreases rows.len(),
{
    if rows.len() == 0 {
        base
    } else {
        let m = col_width_rows(rows.drop_last(), i, cap, base);
        let c = capped(cell_width(rows.last(), i), cap);
        if c > m { c } else { m }
    }
}

/// The width of column `i`.
pub open spec fn col_width(t: TableView, i: int, cap: nat) -> nat {
    col_width_rows(t.rows, i, cap, capped(cell_width(t.header, i), cap))
}

/// The widths of all columns.
pub open spec fn col_widths(t: TableView, width: nat) -> Seq<nat> {
    let n = ncols(t);
    Seq::new(n, |i: int| col_width(t, i, col_cap(width, n)))
}

/// Cell `i` of a row (empty when the row is shorter).
pub open spec fn cell_at(cells: Seq<Seq<char>>, i: int) -> Seq<char> {
    if 0 <= i < cells.len() { cells[i] } else { Seq::empty() }
}

/// `a - b`, or zero.
pub open spec fn monus(a: nat, b: nat) -> nat {
    if a > b { (a - b) as nat } else { 0 }
}

/// A header cell, centred in `w` columns, with a space on each side.
pub open spec fn header_cell(cell: Seq<char>, w: nat) -> Seq<char> {
    let t = truncated(cell, (w - 2) as nat);
    let tw = spec_str_width(t) as nat;
    let pad = monus(w, tw) / 2;
    seq![' '] + repeat(' ', pad) + t + repeat(' ', monus(monus(w, pad), tw)) + seq![' ']
}

/// A body cell, left-aligned in `w` columns after a space.
pub open spec fn body_cell(cell: Seq<char>, w: nat) -> Seq<char> {
    let t = truncated(cell, (w - 2) as nat);
    seq![' '] + t + repeat(' ', monus(w, spec_str_width(t) as nat))
}

/// The column separator.
pub open spec fn bar(theme: Theme) -> SpanV {
    ("│"@, with_fg(plain(), theme.faint))
}

/// The header line over the first `ws.len()` columns.
pub open spec fn header_spans(header: Seq<Seq<char>>, ws: Seq<nat>, theme: Theme) -> LineV
    decreases ws.len(),
{
    if ws.len() == 0 {
        seq![bar(theme)]
    } else {
        let i = ws.len() - 1;
        header_spans(header, ws.drop_last(), theme) + seq![
            (header_cell(cell_at(header, i), ws.last()), Style { fg: Some(theme.dim), bold: true, ..plain() }),
            bar(theme),
        ]
    }
}

/// A body line over the first `ws.len()` columns.
pub open spec fn row_spans(row: Seq<Seq<char>>, ws: Seq<nat>, theme: Theme) -> LineV
    decreases ws.len(),
{
    if ws.len() == 0 {
        seq![bar(theme)]
    } else {
        let i = ws.len() - 1;
        row_spans(row, ws.drop_last(), theme) + seq![(body_cell(cell_at(row, i), ws.last()), plain()), bar(theme)]
    }
}

/// Each column's rule followed by `+`.
pub open spec fn sep_pieces(ws: Seq<nat>) -> Seq<char>
    decreases ws.len(),
{
    if ws.len() == 0 {
        Seq::empty()
    } else {
        sep_pieces(ws.drop_last()) + repeat('─', ws.last() + 2) + seq!['+']
    }
}

/// The line under the header.
pub open spec fn sep_line(ws: Seq<nat>) -> Seq<char> {
    seq!['+'] + sep_pieces(ws).drop_last()
}

/// A table laid out in columns: header, separator, rows; nothing for a
/// table without cells.
pub open spec fn table_lines(t: TableView, width: nat, theme: Theme) -> Seq<LineV> {
    if (t.header.len() == 0 && t.rows.len() == 0) || ncols(t) == 0 {
        Seq::empty()
    } else {
        let ws = col_widths(t, width);
        seq![header_spans(t.header, ws, theme), seq![(sep_line(ws), with_fg(plain(), theme.faint))]]
            + t.rows.map_values(|r: Seq<Seq<char>>| row_spans(r, ws, theme))
    }
}

// ---------------------------------------------------------------------------
// The renderer
// ---------------------------------------------------------------------------

/// The texts of character vectors.
pub open spec fn cells_view(v: Seq<Vec<char>>) -> Seq<Seq<char>> {
    v.map_values(|c: Vec<char>| c@)
}

/// The texts of rows of character vectors.
pub open spec fn rows_view(v: Seq<Vec<Vec<char>>>) -> Seq<Seq<Seq<char>>> {
    v.map_values(|r: Vec<Vec<char>>| cells_view(r@))
}

/// A table being read.
struct TableAcc {
    header: Vec<Vec<char>>,
    rows: Vec<Vec<Vec<char>>>,
    cur_row: Vec<Vec<char>>,
    cur_cell: Vec<char>,
    in_head: bool,
}

impl TableAcc {
    spec fn view_of(&self) -> TableView {
        TableView {
            header: cells_view(self.header@),
            rows: rows_view(self.rows@),
            cur_row: cells_view(self.cur_row@),
            cur_cell: self.cur_cell@,
            in_head: self.in_head,
        }
    }
}

spec fn opt_table(t: Option<TableAcc>) -> Option<TableView> {
    match t {
        Some(x) => Some(x.view_of()),
        None => None,
    }
}

spec fn opt_code(c: Option<(Vec<char>, Vec<char>)>) -> Option<(Seq<char>, Seq<char>)> {
    match c {
        Some((l, t)) => Some((l@, t@)),
        None => None,
    }
}

/// The renderer's state.
struct Ctx {
    out: Vec<Line>,
    spans: Vec<Span>,
    prefix: Vec<char>,
    bold: bool,
    italic: bool,
    strike: bool,
    quote: u32,
    heading: bool,
    table: Option<TableAcc>,
    code: Option<(Vec<char>, Vec<char>)>,
    list_stack: Vec<Option<u64>>,
}

impl Ctx {
    spec fn view_of(&self) -> MdState {
        MdState {
            out: lines_view(self.out@),
            spans: spans_view(self.spans@),
            prefix: self.prefix@,
            bold: self.bold,
            italic: self.italic,
            strike: self.strike,
            quote: self.quote,
            heading: self.heading,
            table: opt_table(self.table),
            code: opt_code(self.code),
            list: self.list_stack@,
        }
    }

    fn new() -> (c: Ctx)
        ensures
            c.view_of() == md_init(),
    {
        let c = Ctx {
            out: Vec::new(),
            spans: Vec::new(),
            prefix: Vec::new(),
            bold: false,
            italic: false,
            strike: false,
            quote: 0,
            heading: false,
            table: None,
            code: None,
            list_stack: Vec::new(),
        };
        proof {
            assert(lines_view(c.out@) =~= Seq::<LineV>::empty());
            assert(spans_view(c.spans@) =~= Seq::<SpanV>::empty());
        }
        c
    }

    fn text_style(&self, theme: Theme) -> (s: Style)
        ensures
            s == text_style(self.view_of(), theme),
    {
        Style {
            fg: if self.quote > 0 || self.heading { Some(theme.dim) } else { None },
            bg: None,
            bold: self.bold,
            italic: self.italic,
            crossed_out: self.strike,
        }
    }

    /// Appends a span to the line under way.
    fn push_span(&mut self, sp: Span)
        ensures
            final(self).view_of() == (MdState { spans: old(self).view_of().spans.push(sp@), ..old(self).view_of() }),
    {
        let ghost before = self.spans@;
        self.spans.push(sp);
        proof {
            assert(spans_view(self.spans@) =~= spans_view(before).push(sp@));
        }
    }

    /// Lays down the pending prefix as the first span of the line (in `color`).
    fn lay_prefix(&mut self, color: Color)
        ensures
            ({
                let (spans, prefix) = lay_prefix(old(self).view_of(), color);
                final(self).view_of() == (MdState { spans, prefix, ..old(self).view_of() })
            }),
    {
        if self.spans.len() == 0 && self.prefix.len() > 0 {
            let mut p: Vec<char> = Vec::new();
            std::mem::swap(&mut p, &mut self.prefix);
            let sp = Span::styled(string_of(p.as_slice()), Style::new().fg(color));
            let ghost before = self.spans@;
            self.spans.push(sp);
            proof {
                assert(before.len() == 0);
                assert(spans_view(self.spans@) =~= seq![sp@]);
                assert(self.prefix@ =~= Seq::<char>::empty());
            }
        }
    }

    fn push_text(&mut self, t: &[char], theme: Theme)
        ensures
            final(self).view_of() == push_text(old(self).view_of(), t@, theme),
    {
        match self.code.take() {
            Some((lang, mut c)) => {
                push_all(&mut c, t);
                self.code = Some((lang, c));
                return;
            },
            None => {},
        }
        match self.table.take() {
            Some(mut tb) => {
                if contains_newline(t) {
                    tb.cur_cell.push(' ');
                    proof {
                        assert(tb.cur_cell@ =~= old(self).table->0.cur_cell@ + seq![' ']);
                    }
                } else {
                    push_all(&mut tb.cur_cell, t);
                }
                self.table = Some(tb);
                return;
            },
            None => {},
        }
        let st = self.text_style(theme);
        let color = if self.quote > 0 { theme.quote } else { theme.accent };
        self.lay_prefix(color);
        self.push_span(Span::styled(string_of(t), st));
    }

    /// Inline code: a padded span with the code background.
    fn inline_code(&mut self, t: &[char], theme: Theme)
        ensures
            final(self).view_of() == inline_code(old(self).view_of(), t@, theme),
    {
        self.lay_prefix(theme.accent);
        let mut v: Vec<char> = Vec::new();
        v.push(' ');
        push_all(&mut v, t);
        v.push(' ');
        proof {
            assert(v@ =~= seq![' '] + t@ + seq![' ']);
        }
        let st = Style::new().fg(theme.accent).bg(Color::Rgb(46, 52, 64));
        self.push_span(Span::styled(string_of(v.as_slice()), st));
    }

    /// Ends the line under way.
    fn flush_line(&mut self)
        ensures
            final(self).view_of() == flush_line(old(self).view_of()),
    {
        if self.spans.len() > 0 {
            let mut sp: Vec<Span> = Vec::new();
            std::mem::swap(&mut sp, &mut self.spans);
            let ghost before = self.out@;
            let line = Line::from_spans(sp);
            self.out.push(line);
            proof {
                assert(lines_view(self.out@) =~= lines_view(before).push(line@));
            }
        }
        self.prefix.clear();
        self.bold = false;
        self.italic = false;
        self.strike = false;
        proof {
            assert(spans_view(self.spans@) =~= Seq::<SpanV>::empty());
            assert(self.prefix@ =~= Seq::<char>::empty());
        }
    }

    /// An empty line after a line that is not empty.
    fn blank(&mut self)
        ensures
            final(self).view_of() == blank(old(self).view_of()),
    {
        let n = self.out.len();
        if n > 0 && self.out[n - 1].spans.len() > 0 {
            let ghost before = self.out@;
            let line = Line::blank();
            self.out.push(line);
            proof {
                assert(lines_view(before).last() == before[n - 1]@);
                assert(lines_view(self.out@) =~= lines_view(before).push(line@));
            }
        } else {
            proof {
                if n > 0 {
                    assert(lines_view(self.out@).last() == self.out@[n - 1]@);
                }
            }
        }
    }

    /// Extends the pending prefix while the line has no span.
    fn push_prefix(&mut self, p: &[char])
        ensures
            final(self).view_of() == push_prefix(old(self).view_of(), p@),
    {
        if self.spans.len() == 0 {
            push_all(&mut self.prefix, p);
        }
    }

    /// Appends finished lines.
    fn append_lines(&mut self, mut lines: Vec<Line>)
        ensures
            final(self).view_of() == (MdState { out: old(self).view_of().out + lines_view(lines@), ..old(self).view_of() }),
    {
        let ghost before = self.out@;
        let ghost added = lines@;
        self.out.append(&mut lines);
        proof {
            assert(lines_view(self.out@) =~= lines_view(before) + lines_view(added));
        }
    }
}

/// Whether `t` holds a line break.
fn contains_newline(t: &[char]) -> (r: bool)
    ensures
        r == t@.contains('\n'),
{
    let mut i: usize = 0;
    while i < t.len()
        invariant
            0 <= i <= t@.len(),
            forall|j: int| 0 <= j < i ==> t@[j] != '\n',
        decreases t@.len() - i,
    {
        if t[i] == '\n' {
            return true;
        }
        i = i + 1;
    }
    false
}

/// The decimal digit `d`.
fn digit_char(d: u64) -> (c: char)
    requires
        d < 10,
    ensures
        c == digit(d as nat),
{
    if d == 0 { '0' } else if d == 1 { '1' } else if d == 2 { '2' } else if d == 3 { '3' } else if d == 4 { '4' }
    else if d == 5 { '5' } else if d == 6 { '6' } else if d == 7 { '7' } else if d == 8 { '8' } else { '9' }
}

/// Appends the decimal form of `n`.
pub(crate) fn push_decimal(v: &mut Vec<char>, n: u64)
    ensures
        final(v)@ == old(v)@ + decimal(n as nat),
    decreases n,
{
    if n < 10 {
        v.push(digit_char(n));
        assert(decimal(n as nat) =~= seq![digit(n as nat)]);
    } else {
        push_decimal(v, n / 10);
        v.push(digit_char(n % 10));
    }
}

/// `depth` levels of indentation.
fn indent_chars(depth: usize) -> (r: Vec<char>)
    ensures
        r@ == indent(depth as nat),
{
    let mut v: Vec<char> = Vec::new();
    let mut i: usize = 0;
    while i < depth
        invariant
            0 <= i <= depth,
            v@ == repeat(' ', 2 * i as nat),
        decreases depth - i,
    {
        v.push(' ');
        v.push(' ');
        proof {
            assert(v@ =~= repeat(' ', 2 * (i + 1) as nat));
        }
        i = i + 1;
    }
    v
}

/// The language of a fenced code block's info string.
fn lang_of_info(info: &Option<String>) -> (r: Vec<char>)
    ensures
        r@ == lang_of(*info),
{
    match info {
        Some(s) => {
            let cs = chars_of(s.as_str());
            let mut i: usize = 0;
            assert(cs@.skip(0) =~= cs@);
            while i < cs.len() && cs[i] != ' ' && cs[i] != ','
                invariant
                    0 <= i <= cs@.len(),
                    first_sep(cs@) == i + first_sep(cs@.skip(i as int)),
                decreases cs@.len() - i,
            {
                assert(cs@.skip(i as int).drop_first() =~= cs@.skip(i + 1));
                i = i + 1;
            }
            proof {
                assert(first_sep(cs@.skip(i as int)) == 0);
                assert(cs@.skip(0) =~= cs@);
            }
            slice_of(cs.as_slice(), 0, i)
        },
        None => Vec::new(),
    }
}

/// `cs` without leading and trailing white space.
fn trim_chars(cs: &Vec<char>) -> (r: Vec<char>)
    ensures
        r@ == trim(cs@),
{
    let (a, b) = trim_range(cs.as_slice(), 0, cs.len());
    assert(cs@.subrange(0, cs@.len() as int) =~= cs@);
    slice_of(cs.as_slice(), a, b)
}

impl Ctx {
    /// The prefix that carries the block over a hard line break.
    fn block_prefix(&self) -> (r: Vec<char>)
        ensures
            r@ == block_prefix(self.view_of()),
    {
        let mut p = indent_chars(self.list_stack.len());
        if self.quote > 0 {
            push_all(&mut p, chars_of("│ ").as_slice());
        } else {
            assert(p@ + Seq::<char>::empty() =~= p@);
        }
        p
    }

    /// Starts a list item: the bullet or the item number.
    fn item_start(&mut self)
        ensures
            final(self).view_of() == item_start(old(self).view_of()),
    {
        let n = self.list_stack.len();
        let depth = if n > 0 { n - 1 } else { 0 };
        let mut p = indent_chars(depth);
        if n > 0 && self.list_stack[n - 1].is_some() {
            let k = self.list_stack[n - 1].unwrap();
            push_decimal(&mut p, k);
            push_all(&mut p, chars_of(". ").as_slice());
            let next = if k < u64::MAX { k + 1 } else { k };
            self.list_stack.set(n - 1, Some(next));
        } else {
            push_all(&mut p, chars_of("• ").as_slice());
        }
        self.prefix = p;
    }

    fn start_tag(&mut self, tag: &MdTag)
        ensures
            final(self).view_of() == start_tag(old(self).view_of(), *tag),
    {
        match tag {
            MdTag::Heading => {
                self.heading = true;
                self.push_prefix(chars_of("◆ ").as_slice());
            },
            MdTag::BlockQuote => {
                if self.quote < u32::MAX {
                    self.quote = self.quote + 1;
                }
                self.push_prefix(chars_of("│ ").as_slice());
            },
            MdTag::CodeBlock(info) => {
                self.flush_line();
                let lang = lang_of_info(info);
                self.code = Some((lang, Vec::new()));
                proof {
                    assert(opt_code(self.code) == Some((lang_of(*info), Seq::<char>::empty())));
                }
            },
            MdTag::List(start) => {
                self.list_stack.push(*start);
                self.blank();
            },
            MdTag::Item => {
                self.flush_line();
                self.item_start();
            },
            MdTag::Emphasis => {
                self.italic = true;
            },
            MdTag::Strong => {
                self.bold = true;
            },
            MdTag::Strikethrough => {
                self.strike = true;
            },
            MdTag::Table => {
                let t = TableAcc {
                    header: Vec::new(),
                    rows: Vec::new(),
                    cur_row: Vec::new(),
                    cur_cell: Vec::new(),
                    in_head: false,
                };
                proof {
                    assert(t.view_of() == empty_table()) by {
                        assert(cells_view(t.header@) =~= Seq::<Seq<char>>::empty());
                        assert(rows_view(t.rows@) =~= Seq::<Seq<Seq<char>>>::empty());
                        assert(cells_view(t.cur_row@) =~= Seq::<Seq<char>>::empty());
                    }
                }
                self.table = Some(t);
            },
            MdTag::TableHead => {
                match self.table.take() {
                    Some(mut t) => {
                        t.in_head = true;
                        self.table = Some(t);
                    },
                    None => {},
                }
            },
            _ => {},
        }
    }

    /// Makes the last finished line bold and in the accent colour.
    fn restyle_last(&mut self, theme: Theme)
        ensures
            final(self).view_of() == (MdState { out: restyle_last(old(self).view_of().out, theme), ..old(self).view_of() }),
    {
        let n = self.out.len();
        if n == 0 {
            return;
        }
        let ghost before = self.out@;
        let mut last = self.out.pop().unwrap();
        let ghost old_last = last@;
        let mut spans: Vec<Span> = Vec::new();
        let mut i: usize = 0;
        while i < last.spans.len()
            invariant
                0 <= i <= last.spans@.len(),
                spans_view(last.spans@) == old_last,
                spans_view(spans@) == old_last.take(i as int).map_values(|sp: SpanV| accent_bold(sp, theme)),
            decreases last.spans@.len() - i,
        {
            let sp = &last.spans[i];
            let st = Style { fg: Some(theme.accent), bold: true, ..sp.style };
            let ghost prev = spans@;
            spans.push(Span::styled(sp.content.clone(), st));
            proof {
                assert(old_last[i as int] == last.spans@[i as int]@);
                assert(spans_view(spans@) =~= spans_view(prev).push(accent_bold(old_last[i as int], theme)));
                assert(old_last.take(i + 1).map_values(|sp: SpanV| accent_bold(sp, theme)) =~= old_last.take(
                    i as int,
                ).map_values(|sp: SpanV| accent_bold(sp, theme)).push(accent_bold(old_last[i as int], theme)));
            }
            i = i + 1;
        }
        let line = Line::from_spans(spans);
        self.out.push(line);
        proof {
            assert(old_last.take(old_last.len() as int) =~= old_last);
            assert(before.drop_last() =~= self.out@.drop_last());
            assert(lines_view(before).last() == old_last);
            assert(lines_view(self.out@) =~= lines_view(before).update(
                n - 1,
                old_last.map_values(|sp: SpanV| accent_bold(sp, theme)),
            ));
        }
    }
}

// ---------------------------------------------------------------------------
// Code blocks and tables
// ---------------------------------------------------------------------------

/// The language token of a code block's language.
fn lang_token_of(lang: &Vec<char>) -> (r: String)
    ensures
        r@ == lang_token(lang@),
{
    let t = trim_chars(lang);
    str_to_lowercase(string_of(t.as_slice()).as_str())
}

/// The lines of a code block's text (as `str::lines`).
fn code_lines(code: &Vec<char>) -> (r: Vec<String>)
    ensures
        strings_view(r@) == std_lines(code@),
{
    let ls = lines_of(code.as_slice());
    let mut out: Vec<String> = Vec::new();
    let mut i: usize = 0;
    while i < ls.len()
        invariant
            0 <= i <= ls@.len(),
            ls@.len() == std_lines(code@).len(),
            forall|k: int| 0 <= k < ls@.len() ==> #[trigger] ls@[k]@ == std_lines(code@)[k],
            strings_view(out@) == std_lines(code@).take(i as int),
        decreases ls@.len() - i,
    {
        let s = string_of(ls[i].as_slice());
        let ghost prev = out@;
        out.push(s);
        proof {
            assert(strings_view(out@) =~= strings_view(prev).push(s@));
            assert(std_lines(code@).take(i + 1) =~= std_lines(code@).take(i as int).push(std_lines(code@)[i as int]));
        }
        i = i + 1;
    }
    proof {
        assert(std_lines(code@).take(ls@.len() as int) =~= std_lines(code@));
    }
    out
}

/// The spans of the highlighted pieces of a code line.
fn piece_spans_of(ps: &Vec<HlRange>, inner: usize) -> (r: Vec<Span>)
    ensures
        spans_view(r@) == piece_spans(ps@.map_values(|p: HlRange| piece_view(p)), inner as nat),
{
    let ghost pv = ps@.map_values(|p: HlRange| piece_view(p));
    let mut out: Vec<Span> = Vec::new();
    let mut i: usize = 0;
    while i < ps.len()
        invariant
            0 <= i <= ps@.len(),
            pv == ps@.map_values(|p: HlRange| piece_view(p)),
            spans_view(out@) == piece_spans(pv.take(i as int), inner as nat),
        decreases ps@.len() - i,
    {
        let p = &ps[i];
        let t = truncate_by_width(p.text.as_str(), inner);
        proof {
            assert(pv.take(i + 1).drop_last() =~= pv.take(i as int));
            assert(pv.take(i + 1).last() == piece_view(*p));
        }
        if chars_of(t.as_str()).len() > 0 {
            let st = Style { fg: Some(p.color), bg: None, bold: p.bold, italic: p.italic, crossed_out: false };
            let ghost prev = out@;
            let sp = Span::styled(t, st);
            out.push(sp);
            proof {
                assert(spans_view(out@) =~= spans_view(prev).push(sp@));
            }
        }
        i = i + 1;
    }
    proof {
        assert(pv.take(ps@.len() as int) =~= pv);
    }
    out
}

/// The left bar of a code line.
fn code_bar_span(theme: Theme) -> (s: Span)
    ensures
        s@ == code_bar(theme),
{
    Span::styled(string_of(chars_of("│ ").as_slice()), Style::new().fg(theme.code))
}

/// A framed code block.
fn code_block(code: &Vec<char>, lang: &Vec<char>, width: usize, theme: Theme, hl: Option<&Highlighter>) -> (r: Vec<
    Line,
>)
    ensures
        lines_view(r@) == code_block_lines(code@, lang@, width as nat, theme, hl is Some),
{
    let inner: usize = if width > 5 { width - 4 } else { 1 };
    let mut top = chars_of("╭─ ");
    if lang.len() == 0 {
        push_all(&mut top, chars_of("code").as_slice());
    } else {
        push_all(&mut top, lang.as_slice());
    }
    push_all(&mut top, chars_of(" ").as_slice());
    let ghost top0 = top@;
    assert(top0 == "╭─ "@ + code_label(lang@) + " "@);
    let tw = display_width(string_of(top.as_slice()).as_str());
    if width > tw {
        push_all(&mut top, repeat_char('─', width - tw).as_slice());
        top.push('╮');
    }
    assert(top@ == code_top(lang@, width as nat));
    let mut out: Vec<Line> = Vec::new();
    let first = Line::single(Span::styled(string_of(top.as_slice()), Style::new().fg(theme.code)));
    out.push(first);
    let ghost head = seq![seq![(code_top(lang@, width as nat), with_fg(plain(), theme.code))]];
    assert(lines_view(out@) =~= head);
    let ghost body = code_body(code@, lang@, width as nat, theme, hl is Some);
    let highlighted = match hl {
        Some(h) => {
            let tok = lang_token_of(lang);
            if chars_of(tok.as_str()).len() > 0 {
                let ls = code_lines(code);
                h.highlight(tok.as_str(), &ls)
            } else {
                None
            }
        },
        None => None,
    };
    assert(hl_view(highlighted) == highlight_for(code@, lang@, hl is Some));
    match highlighted {
        Some(hs) => {
            let ghost hv = hs@.map_values(|o: Option<Vec<HlRange>>| hl_line_view(o));
            assert(body == hv.map_values(|o: Option<Seq<HlPiece>>| hl_code_line(o, inner as nat, theme)));
            let mut i: usize = 0;
            while i < hs.len()
                invariant
                    0 <= i <= hs@.len(),
                    hv == hs@.map_values(|o: Option<Vec<HlRange>>| hl_line_view(o)),
                    body == hv.map_values(|o: Option<Seq<HlPiece>>| hl_code_line(o, inner as nat, theme)),
                    lines_view(out@) == head + body.take(i as int),
                decreases hs@.len() - i,
            {
                let mut spans: Vec<Span> = Vec::new();
                spans.push(code_bar_span(theme));
                match &hs[i] {
                    Some(ps) => {
                        let mut rest = piece_spans_of(ps, inner);
                        let ghost a = spans@;
                        let ghost b = rest@;
                        spans.append(&mut rest);
                        proof {
                            assert(spans_view(spans@) =~= spans_view(a) + spans_view(b));
                        }
                    },
                    None => {},
                }
                let line = Line::from_spans(spans);
                proof {
                    assert(hv[i as int] == hl_line_view(hs@[i as int]));
                    assert(line@ =~= hl_code_line(hv[i as int], inner as nat, theme));
                }
                let ghost prev = out@;
                out.push(line);
                proof {
                    assert(lines_view(out@) =~= lines_view(prev).push(line@));
                    assert(body.take(i + 1) =~= body.take(i as int).push(body[i as int]));
                }
                i = i + 1;
            }
            assert(body.take(hs@.len() as int) =~= body);
        },
        None => {
            let ws = wrap_text(string_of(code.as_slice()).as_str(), inner);
            let ghost wv = ws@.map_values(|s: String| s@);
            assert(body == wv.map_values(|l: Seq<char>| plain_code_line(l, theme)));
            let mut i: usize = 0;
            while i < ws.len()
                invariant
                    0 <= i <= ws@.len(),
                    wv == ws@.map_values(|s: String| s@),
                    body == wv.map_values(|l: Seq<char>| plain_code_line(l, theme)),
                    lines_view(out@) == head + body.take(i as int),
                decreases ws@.len() - i,
            {
                let mut spans: Vec<Span> = Vec::new();
                spans.push(code_bar_span(theme));
                spans.push(Span::raw(ws[i].clone()));
                let line = Line::from_spans(spans);
                proof {
                    assert(line@ =~= plain_code_line(wv[i as int], theme));
                }
                let ghost prev = out@;
                out.push(line);
                proof {
                    assert(lines_view(out@) =~= lines_view(prev).push(line@));
                    assert(body.take(i + 1) =~= body.take(i as int).push(body[i as int]));
                }
                i = i + 1;
            }
            assert(body.take(ws@.len() as int) =~= body);
        },
    }
    let mut bottom: Vec<char> = Vec::new();
    bottom.push('╰');
    if width > 2 {
        push_all(&mut bottom, repeat_char('─', width - 2).as_slice());
        bottom.push('╯');
    }
    assert(bottom@ =~= code_bottom(width as nat));
    let last = Line::single(Span::styled(string_of(bottom.as_slice()), Style::new().fg(theme.code)));
    let ghost prev = out@;
    out.push(last);
    proof {
        assert(lines_view(out@) =~= lines_view(prev).push(last@));
    }
    out
}

/// The display width of a character vector.
fn chars_width(cs: &Vec<char>) -> (w: usize)
    ensures
        w == spec_str_width(cs@),
{
    display_width(string_of(cs.as_slice()).as_str())
}

/// The width of cell `i` of a row.
fn cell_width_of(cells: &Vec<Vec<char>>, i: usize) -> (w: usize)
    ensures
        w == cell_width(cells_view(cells@), i as int),
{
    if i < cells.len() {
        chars_width(&cells[i])
    } else {
        0
    }
}

/// Cell `i` of a row (empty when the row is shorter).
fn cell_of(cells: &Vec<Vec<char>>, i: usize) -> (c: Vec<char>)
    ensures
        c@ == cell_at(cells_view(cells@), i as int),
{
    if i < cells.len() {
        cells[i].clone()
    } else {
        Vec::new()
    }
}

/// The column separator span.
fn bar_span(theme: Theme) -> (s: Span)
    ensures
        s@ == bar(theme),
{
    Span::styled(string_of(chars_of("│").as_slice()), Style::new().fg(theme.faint))
}

proof fn lemma_cap_bound(width: nat, n: nat)
    requires
        n >= 1,
    ensures
        col_cap(width, n) <= if width > 6 { width } else { 6 },
{
    let a: nat = if width > 2 { (width - 2) as nat } else { 0 };
    assert(a / n <= a) by (nonlinear_arith)
        requires
            n >= 1,
    ;
}

proof fn lemma_col_width_rows_bound(rows: Seq<Seq<Seq<char>>>, i: int, cap: nat, base: nat)
    requires
        base <= cap + 2,
    ensures
        col_width_rows(rows, i, cap, base) <= cap + 2,
    decreases rows.len(),
{
    if rows.len() > 0 {
        lemma_col_width_rows_bound(rows.drop_last(), i, cap, base);
    }
}

/// The widths of the columns, capped so that a table fits `width` columns
/// where it can.
fn column_widths(t: &TableAcc, width: usize, n: usize) -> (ws: Vec<usize>)
    requires
        n == ncols(t.view_of()),
        n >= 1,
        width + 8 <= usize::MAX,
    ensures
        ws@.map_values(|w: usize| w as nat) == col_widths(t.view_of(), width as nat),
        forall|k: int| 0 <= k < ws@.len() ==> 2 <= #[trigger] ws@[k] && ws@[k] + 4 <= usize::MAX,
{
    let ghost tv = t.view_of();
    let c = (if width > 2 { width - 2 } else { 0 }) / n;
    let cap = if c > 4 { c } else { 4 };
    proof {
        lemma_cap_bound(width as nat, n as nat);
    }
    assert(cap == col_cap(width as nat, n as nat));
    let mut ws: Vec<usize> = Vec::new();
    let mut i: usize = 0;
    while i < n
        invariant
            0 <= i <= n,
            tv == t.view_of(),
            n == ncols(tv),
            cap == col_cap(width as nat, n as nat),
            cap + 6 <= usize::MAX,
            ws@.len() == i,
            forall|k: int| 0 <= k < i ==> #[trigger] ws@[k] == col_width(tv, k, cap as nat),
            forall|k: int| 0 <= k < i ==> 2 <= #[trigger] ws@[k] && ws@[k] + 4 <= usize::MAX,
        decreases n - i,
    {
        let hw = cell_width_of(&t.header, i);
        let mut w: usize = (if hw < cap { hw } else { cap }) + 2;
        let mut j: usize = 0;
        while j < t.rows.len()
            invariant
                0 <= j <= t.rows@.len(),
                tv == t.view_of(),
                cap + 6 <= usize::MAX,
                2 <= w <= cap + 2,
                w == col_width_rows(tv.rows.take(j as int), i as int, cap as nat, capped(cell_width(tv.header, i as int), cap as nat)),
            decreases t.rows@.len() - j,
        {
            let cw = cell_width_of(&t.rows[j], i);
            let c2 = (if cw < cap { cw } else { cap }) + 2;
            proof {
                assert(tv.rows.take(j + 1).drop_last() =~= tv.rows.take(j as int));
                assert(tv.rows.take(j + 1).last() == cells_view(t.rows@[j as int]@));
            }
            if c2 > w {
                w = c2;
            }
            j = j + 1;
        }
        proof {
            assert(tv.rows.take(t.rows@.len() as int) =~= tv.rows);
        }
        ws.push(w);
        i = i + 1;
    }
    proof {
        assert(ws@.map_values(|w: usize| w as nat) =~= col_widths(tv, width as nat));
    }
    ws
}

/// The number of columns of a table.
fn column_count(t: &TableAcc) -> (n: usize)
    ensures
        n == ncols(t.view_of()),
{
    let ghost tv = t.view_of();
    let mut m: usize = 0;
    let mut j: usize = 0;
    while j < t.rows.len()
        invariant
            0 <= j <= t.rows@.len(),
            tv == t.view_of(),
            m == max_row_len(tv.rows.take(j as int)),
        decreases t.rows@.len() - j,
    {
        proof {
            assert(tv.rows.take(j + 1).drop_last() =~= tv.rows.take(j as int));
            assert(tv.rows.take(j + 1).last() == cells_view(t.rows@[j as int]@));
        }
        if t.rows[j].len() > m {
            m = t.rows[j].len();
        }
        j = j + 1;
    }
    proof {
        assert(tv.rows.take(t.rows@.len() as int) =~= tv.rows);
    }
    if t.header.len() > m {
        t.header.len()
    } else {
        m
    }
}

/// A header cell centred in `w` columns.
fn header_cell_chars(cell: &Vec<char>, w: usize) -> (r: Vec<char>)
    requires
        2 <= w,
    ensures
        r@ == header_cell(cell@, w as nat),
{
    let t = truncate_by_width(string_of(cell.as_slice()).as_str(), w - 2);
    let tw = display_width(t.as_str());
    let pad: usize = (if w > tw { w - tw } else { 0 }) / 2;
    let a: usize = if w > pad { w - pad } else { 0 };
    let rest: usize = if a > tw { a - tw } else { 0 };
    let mut v: Vec<char> = Vec::new();
    v.push(' ');
    push_all(&mut v, repeat_char(' ', pad).as_slice());
    push_all(&mut v, chars_of(t.as_str()).as_slice());
    push_all(&mut v, repeat_char(' ', rest).as_slice());
    v.push(' ');
    assert(v@ =~= header_cell(cell@, w as nat));
    v
}

/// A body cell left-aligned in `w` columns.
fn body_cell_chars(cell: &Vec<char>, w: usize) -> (r: Vec<char>)
    requires
        2 <= w,
    ensures
        r@ == body_cell(cell@, w as nat),
{
    let t = truncate_by_width(string_of(cell.as_slice()).as_str(), w - 2);
    let tw = display_width(t.as_str());
    let rest: usize = if w > tw { w - tw } else { 0 };
    let mut v: Vec<char> = Vec::new();
    v.push(' ');
    push_all(&mut v, chars_of(t.as_str()).as_slice());
    push_all(&mut v, repeat_char(' ', rest).as_slice());
    assert(v@ =~= body_cell(cell@, w as nat));
    v
}

/// The header line.
fn header_line(header: &Vec<Vec<char>>, ws: &Vec<usize>, theme: Theme) -> (l: Line)
    requires
        forall|k: int| 0 <= k < ws@.len() ==> 2 <= #[trigger] ws@[k],
    ensures
        l@ == header_spans(cells_view(header@), ws@.map_values(|w: usize| w as nat), theme),
{
    let ghost wv = ws@.map_values(|w: usize| w as nat);
    let mut spans: Vec<Span> = Vec::new();
    spans.push(bar_span(theme));
    proof {
        assert(wv.take(0) =~= Seq::<nat>::empty());
        assert(spans_view(spans@) =~= header_spans(cells_view(header@), wv.take(0), theme));
    }
    let mut i: usize = 0;
    while i < ws.len()
        invariant
            0 <= i <= ws@.len(),
            wv == ws@.map_values(|w: usize| w as nat),
            forall|k: int| 0 <= k < ws@.len() ==> 2 <= #[trigger] ws@[k],
            spans_view(spans@) == header_spans(cells_view(header@), wv.take(i as int), theme),
        decreases ws@.len() - i,
    {
        let cell = cell_of(header, i);
        let text = header_cell_chars(&cell, ws[i]);
        let st = Style::new().fg(theme.dim).bold();
        let a = Span::styled(string_of(text.as_slice()), st);
        let b = bar_span(theme);
        let ghost prev = spans@;
        spans.push(a);
        spans.push(b);
        proof {
            assert(wv.take(i + 1).drop_last() =~= wv.take(i as int));
            assert(spans_view(spans@) =~= spans_view(prev) + seq![a@, b@]);
        }
        i = i + 1;
    }
    proof {
        assert(wv.take(ws@.len() as int) =~= wv);
    }
    Line::from_spans(spans)
}

/// A body line.
fn row_line(row: &Vec<Vec<char>>, ws: &Vec<usize>, theme: Theme) -> (l: Line)
    requires
        forall|k: int| 0 <= k < ws@.len() ==> 2 <= #[trigger] ws@[k],
    ensures
        l@ == row_spans(cells_view(row@), ws@.map_values(|w: usize| w as nat), theme),
{
    let ghost wv = ws@.map_values(|w: usize| w as nat);
    let mut spans: Vec<Span> = Vec::new();
    spans.push(bar_span(theme));
    proof {
        assert(wv.take(0) =~= Seq::<nat>::empty());
        assert(spans_view(spans@) =~= row_spans(cells_view(row@), wv.take(0), theme));
    }
    let mut i: usize = 0;
    while i < ws.len()
        invariant
            0 <= i <= ws@.len(),
            wv == ws@.map_values(|w: usize| w as nat),
            forall|k: int| 0 <= k < ws@.len() ==> 2 <= #[trigger] ws@[k],
            spans_view(spans@) == row_spans(cells_view(row@), wv.take(i as int), theme),
        decreases ws@.len() - i,
    {
        let cell = cell_of(row, i);
        let text = body_cell_chars(&cell, ws[i]);
        let a = Span::raw(string_of(text.as_slice()));
        let b = bar_span(theme);
        let ghost prev = spans@;
        spans.push(a);
        spans.push(b);
        proof {
            assert(wv.take(i + 1).drop_last() =~= wv.take(i as int));
            assert(spans_view(spans@) =~= spans_view(prev) + seq![a@, b@]);
        }
        i = i + 1;
    }
    proof {
        assert(wv.take(ws@.len() as int) =~= wv);
    }
    Line::from_spans(spans)
}

/// The separator under the header.
fn sep_chars(ws: &Vec<usize>) -> (r: Vec<char>)
    requires
        ws@.len() > 0,
        forall|k: int| 0 <= k < ws@.len() ==> #[trigger] ws@[k] + 4 <= usize::MAX,
    ensures
        r@ == sep_line(ws@.map_values(|w: usize| w as nat)),
{
    let ghost wv = ws@.map_values(|w: usize| w as nat);
    let mut v: Vec<char> = Vec::new();
    let mut i: usize = 0;
    assert(wv.take(0) =~= Seq::<nat>::empty());
    while i < ws.len()
        invariant
            0 <= i <= ws@.len(),
            wv == ws@.map_values(|w: usize| w as nat),
            forall|k: int| 0 <= k < ws@.len() ==> #[trigger] ws@[k] + 4 <= usize::MAX,
            v@ == sep_pieces(wv.take(i as int)),
        decreases ws@.len() - i,
    {
        push_all(&mut v, repeat_char('─', ws[i] + 2).as_slice());
        v.push('+');
        proof {
            assert(wv.take(i + 1).drop_last() =~= wv.take(i as int));
        }
        i = i + 1;
    }
    proof {
        assert(wv.take(ws@.len() as int) =~= wv);
    }
    let mut r: Vec<char> = Vec::new();
    r.push('+');
    proof {
        assert(wv.drop_last() =~= wv.take(wv.len() - 1));
        assert(sep_pieces(wv).len() > 0);
    }
    let ghost full = v@;
    v.pop();
    assert(v@ =~= full.drop_last());
    push_all(&mut r, v.as_slice());
    proof {
        assert(r@ =~= sep_line(wv));
    }
    r
}

/// A table laid out in columns.
fn render_table(t: &TableAcc, width: usize, theme: Theme) -> (r: Vec<Line>)
    requires
        width + 8 <= usize::MAX,
    ensures
        lines_view(r@) == table_lines(t.view_of(), width as nat, theme),
{
    let ghost tv = t.view_of();
    let mut out: Vec<Line> = Vec::new();
    if t.header.len() == 0 && t.rows.len() == 0 {
        proof {
            assert(lines_view(out@) =~= Seq::<LineV>::empty());
        }
        return out;
    }
    let n = column_count(t);
    if n == 0 {
        proof {
            assert(lines_view(out@) =~= Seq::<LineV>::empty());
        }
        return out;
    }
    let ws = column_widths(t, width, n);
    let ghost wv = ws@.map_values(|w: usize| w as nat);
    out.push(header_line(&t.header, &ws, theme));
    let sep = sep_chars(&ws);
    out.push(Line::single(Span::styled(string_of(sep.as_slice()), Style::new().fg(theme.faint))));
    let ghost head = seq![header_spans(tv.header, wv, theme), seq![(sep_line(wv), with_fg(plain(), theme.faint))]];
    proof {
        assert(lines_view(out@) =~= head);
    }
    let ghost body = tv.rows.map_values(|r: Seq<Seq<char>>| row_spans(r, wv, theme));
    let mut j: usize = 0;
    while j < t.rows.len()
        invariant
            0 <= j <= t.rows@.len(),
            tv == t.view_of(),
            wv == ws@.map_values(|w: usize| w as nat),
            forall|k: int| 0 <= k < ws@.len() ==> 2 <= #[trigger] ws@[k],
            body == tv.rows.map_values(|r: Seq<Seq<char>>| row_spans(r, wv, theme)),
            lines_view(out@) == head + body.take(j as int),
        decreases t.rows@.len() - j,
    {
        let line = row_line(&t.rows[j], &ws, theme);
        let ghost prev = out@;
        out.push(line);
        proof {
            assert(tv.rows[j as int] == cells_view(t.rows@[j as int]@));
            assert(lines_view(out@) =~= lines_view(prev).push(line@));
            assert(body.take(j + 1) =~= body.take(j as int).push(body[j as int]));
        }
        j = j + 1;
    }
    proof {
        assert(body.take(t.rows@.len() as int) =~= body);
    }
    out
}

impl Ctx {
    fn end_tag(&mut self, tag: &MdTagEnd, width: usize, theme: Theme, hl: Option<&Highlighter>)
        requires
            width + 8 <= usize::MAX,
        ensures
            final(self).view_of() == end_tag(old(self).view_of(), *tag, width as nat, theme, hl is Some),
    {
        match tag {
            MdTagEnd::Paragraph => {
                self.flush_line();
                self.blank();
            },
            MdTagEnd::Heading => {
                self.restyle_last(theme);
                self.heading = false;
                self.blank();
            },
            MdTagEnd::BlockQuote => {
                if self.quote > 0 {
                    self.quote = self.quote - 1;
                }
                self.flush_line();
                self.blank();
            },
            MdTagEnd::CodeBlock => {
                match self.code.take() {
                    Some((lang, code)) => {
                        self.blank();
                        let block = code_block(&code, &lang, width, theme, hl);
                        self.append_lines(block);
                        self.blank();
                    },
                    None => {},
                }
            },
            MdTagEnd::List => {
                self.list_stack.pop();
                self.blank();
            },
            MdTagEnd::Item => {
                self.flush_line();
            },
            MdTagEnd::Emphasis => {
                self.italic = false;
            },
            MdTagEnd::Strong => {
                self.bold = false;
            },
            MdTagEnd::Strikethrough => {
                self.strike = false;
            },
            MdTagEnd::TableHead => {
                match self.table.take() {
                    Some(mut t) => {
                        let mut row: Vec<Vec<char>> = Vec::new();
                        std::mem::swap(&mut row, &mut t.cur_row);
                        t.header = row;
                        t.in_head = false;
                        proof {
                            assert(cells_view(t.cur_row@) =~= Seq::<Seq<char>>::empty());
                        }
                        self.table = Some(t);
                    },
                    None => {},
                }
            },
            MdTagEnd::TableRow => {
                match self.table.take() {
                    Some(mut t) => {
                        let mut row: Vec<Vec<char>> = Vec::new();
                        std::mem::swap(&mut row, &mut t.cur_row);
                        let ghost rv = cells_view(row@);
                        if row.len() > 0 {
                            let ghost before = t.rows@;
                            t.rows.push(row);
                            proof {
                                assert(rows_view(t.rows@) =~= rows_view(before).push(rv));
                            }
                        }
                        proof {
                            assert(cells_view(t.cur_row@) =~= Seq::<Seq<char>>::empty());
                        }
                        self.table = Some(t);
                    },
                    None => {},
                }
            },
            MdTagEnd::TableCell => {
                match self.table.take() {
                    Some(mut t) => {
                        let cell = trim_chars(&t.cur_cell);
                        let ghost before = t.cur_row@;
                        t.cur_row.push(cell);
                        t.cur_cell = Vec::new();
                        proof {
                            assert(cells_view(t.cur_row@) =~= cells_view(before).push(cell@));
                            assert(t.cur_cell@ =~= Seq::<char>::empty());
                        }
                        self.table = Some(t);
                    },
                    None => {},
                }
            },
            MdTagEnd::Table => {
                match self.table.take() {
                    Some(t) => {
                        let lines = render_table(&t, width, theme);
                        self.append_lines(lines);
                        self.blank();
                    },
                    None => {},
                }
            },
            _ => {},
        }
    }

    /// One event.
    fn step(&mut self, ev: &MdEvent, width: usize, theme: Theme, hl: Option<&Highlighter>)
        requires
            width + 8 <= usize::MAX,
            width >= 2,
        ensures
            final(self).view_of() == md_step(old(self).view_of(), *ev, width as nat, theme, hl is Some),
    {
        match ev {
            MdEvent::Start(tag) => self.start_tag(tag),
            MdEvent::End(tag) => self.end_tag(tag, width, theme, hl),
            MdEvent::Text(t) => {
                let cs = chars_of(t.as_str());
                self.push_text(cs.as_slice(), theme);
            },
            MdEvent::Code(t) => {
                let cs = chars_of(t.as_str());
                self.inline_code(cs.as_slice(), theme);
            },
            MdEvent::SoftBreak => {
                let cs = chars_of(" ");
                self.push_text(cs.as_slice(), theme);
            },
            MdEvent::HardBreak => {
                let p = self.block_prefix();
                self.flush_line();
                self.prefix = p;
            },
            MdEvent::Rule => {
                self.flush_line();
                let r = repeat_char('─', width - 2);
                let line = Line::single(Span::styled(string_of(r.as_slice()), Style::new().fg(theme.faint)));
                let ghost before = self.out@;
                self.out.push(line);
                proof {
                    assert(lines_view(self.out@) =~= lines_view(before).push(rule_line(width as nat, theme)));
                }
                self.blank();
            },
            MdEvent::TaskListMarker(checked) => {
                let m = if *checked { chars_of("[x] ") } else { chars_of("[ ] ") };
                self.push_prefix(m.as_slice());
            },
            MdEvent::Other => {},
        }
    }
}

/// Renders Markdown text as styled lines at least eight columns wide: plain
/// text comes out as it is; lists, quotes, headings, emphasis, inline code,
/// rules, code blocks (framed, and highlighted when a highlighter is given)
/// and tables are laid out for the terminal.
pub fn render(text: &str, width: usize, theme: &Theme, hl: Option<&Highlighter>) -> (r: Vec<Line>)
    requires
        width + 8 <= usize::MAX,
    ensures
        lines_view(r@) == md_render(
            markdown_events(text@, true, true),
            if width > 8 { width as nat } else { 8 },
            *theme,
            hl is Some,
        ),
{
    let w: usize = if width > 8 { width } else { 8 };
    let events = parse_markdown(text, true, true);
    let mut ctx = Ctx::new();
    let mut i: usize = 0;
    while i < events.len()
        invariant
            0 <= i <= events@.len(),
            w + 8 <= usize::MAX,
            w >= 8,
            ctx.view_of() == md_fold(events@.take(i as int), w as nat, *theme, hl is Some),
        decreases events@.len() - i,
    {
        proof {
            assert(events@.take(i + 1).drop_last() =~= events@.take(i as int));
        }
        ctx.step(&events[i], w, *theme, hl);
        i = i + 1;
    }
    ctx.flush_line();
    proof {
        assert(events@.take(events@.len() as int) =~= events@);
    }
    ctx.out
}

} // verus!
