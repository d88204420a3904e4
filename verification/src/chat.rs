//! The message area: the conversation laid out as styled lines, the lines
//! each message takes, and the scroll offset.
use vstd::prelude::*;

use crate::highlight::Highlighter;
use crate::markdown::{markdown_events, md_render, monus, render};
use crate::model::{Message, Role};
use crate::style::{lines_view, plain, with_fg, Color, Line, LineV, Span, Style, Theme};
use crate::util::{chars_of, string_of, wrap_lines, wrapped_lines};

verus! {

/// The background of the selected message's label.
pub open spec fn sel_bg() -> Color {
    Color::Rgb(46, 52, 64)
}

/// The label of a message.
pub open spec fn role_label(r: Role) -> Seq<char> {
    match r {
        Role::User => "❯ 你"@,
        Role::Assistant => "❯ AI"@,
        Role::System => "❯ 系统"@,
    }
}

/// The colour of a message's label.
pub open spec fn role_color(r: Role, theme: Theme) -> Color {
    match r {
        Role::User => theme.user,
        Role::Assistant => theme.assistant,
        Role::System => theme.dim,
    }
}

/// The style of a label: bold, on the selection background when selected.
pub open spec fn head_style(c: Color, selected: bool) -> Style {
    Style { fg: Some(c), bg: if selected { Some(sel_bg()) } else { None }, bold: true, ..plain() }
}

/// A text indented by two columns, wrapped to `width - 2` columns, in `style`.
pub open spec fn indented(text: Seq<char>, width: nat, style: Style) -> Seq<LineV> {
    wrapped_lines(text, monus(width, 2) as int).map_values(|l: Seq<char>| seq![("  "@ + l, style)])
}

/// The reasoning block: its heading, then the reasoning text, dimmed.
pub open spec fn reasoning_lines(r: Seq<char>, width: nat, theme: Theme) -> Seq<LineV> {
    seq![seq![("┄ 思考过程"@, Style { fg: Some(theme.reasoning), italic: true, ..plain() })]] + indented(
        r,
        width,
        with_fg(plain(), theme.reasoning),
    )
}

/// The reasoning block of a message, when it has a non-empty one.
pub open spec fn opt_reasoning(r: Option<String>, width: nat, theme: Theme) -> Seq<LineV> {
    match r {
        Some(t) => if t@.len() > 0 {
            reasoning_lines(t@, width, theme)
        } else {
            Seq::empty()
        },
        None => Seq::empty(),
    }
}

/// Markdown rendered at `width` columns (eight at least).
pub open spec fn md_lines(text: Seq<char>, width: nat, theme: Theme, hl: bool) -> Seq<LineV> {
    md_render(markdown_events(text, true, true), if width > 8 { width } else { 8 }, theme, hl)
}

/// The lines of a stored message: label, reasoning, the text (a user's as
/// typed, the others as Markdown), an empty line.
pub open spec fn message_lines(m: Message, width: nat, theme: Theme, selected: bool, hl: bool) -> Seq<LineV> {
    seq![seq![(role_label(m.role), head_style(role_color(m.role, theme), selected))]] + opt_reasoning(
        m.reasoning,
        width,
        theme,
    ) + match m.role {
        Role::User => indented(m.content@, width, plain()),
        _ => md_lines(m.content@, width, theme, hl),
    } + seq![Seq::empty()]
}

/// The lines of the reply being generated.
pub open spec fn streaming_lines(content: Seq<char>, reasoning: Seq<char>, width: nat, theme: Theme, hl: bool) -> Seq<
    LineV,
> {
    seq![seq![("❯ AI"@, head_style(theme.assistant, false))]] + (if reasoning.len() > 0 {
        reasoning_lines(reasoning, width, theme)
    } else {
        Seq::empty()
    }) + md_lines(if content.len() == 0 { "…"@ } else { content }, width, theme, hl) + seq![
        seq![("▍ 生成中…"@, with_fg(plain(), theme.faint))],
        Seq::empty(),
    ]
}

/// Whenever the reply under way has reasoning, its lines keep the reasoning
/// block right under its label, whatever its text so far (none yet, or
/// some): the `┄ 思考过程` heading, then the reasoning wrapped two columns in,
/// in the reasoning colour.
pub proof fn lemma_streaming_keeps_reasoning(
    content: Seq<char>,
    reasoning: Seq<char>,
    width: nat,
    theme: Theme,
    hl: bool,
)
    requires
        reasoning.len() > 0,
    ensures
        ({
            let ls = streaming_lines(content, reasoning, width, theme, hl);
            let body = indented(reasoning, width, with_fg(plain(), theme.reasoning));
            &&& ls.len() >= 2 + body.len()
            &&& ls[0] == seq![("❯ AI"@, head_style(theme.assistant, false))]
            &&& ls[1] == seq![("┄ 思考过程"@, Style { fg: Some(theme.reasoning), italic: true, ..plain() })]
            &&& ls.subrange(2, 2 + body.len() as int) == body
        }),
{
    let ls = streaming_lines(content, reasoning, width, theme, hl);
    let body = indented(reasoning, width, with_fg(plain(), theme.reasoning));
    assert(ls.subrange(2, 2 + body.len() as int) =~= body);
}

/// In the chat area, the reply under way comes right after the messages,
/// and when it has reasoning the reasoning block stands under its label,
/// whatever its text so far.
pub proof fn lemma_chat_area_keeps_reasoning(
    ms: Seq<Message>,
    content: Seq<char>,
    reasoning: Seq<char>,
    width: nat,
    theme: Theme,
    focused: bool,
    sel: Option<usize>,
    hl: bool,
)
    requires
        reasoning.len() > 0,
    ensures
        ({
            let n = messages_lines(ms, width, theme, focused, sel, hl).len();
            let area = chat_area(ms, Some((content, reasoning)), width, theme, focused, sel, hl);
            let block = reasoning_lines(reasoning, width, theme);
            &&& area.len() >= n + 1 + block.len()
            &&& area[n as int] == seq![("❯ AI"@, head_style(theme.assistant, false))]
            &&& area.subrange(n + 1int, (n + 1 + block.len()) as int) == block
        }),
{
    let msl = messages_lines(ms, width, theme, focused, sel, hl);
    let ls = streaming_lines(content, reasoning, width, theme, hl);
    let block = reasoning_lines(reasoning, width, theme);
    let n = msl.len();
    let area = msl + ls;
    assert(area.len() > 0);
    assert(area.subrange(n + 1int, (n + 1 + block.len()) as int) =~= block);
}

/// The lines of the messages `ms`, the selected one (when the area has the
/// focus) with its label highlighted.
pub open spec fn messages_lines(
    ms: Seq<Message>,
    width: nat,
    theme: Theme,
    focused: bool,
    sel: Option<usize>,
    hl: bool,
) -> Seq<LineV>
    decreases ms.len(),
{
    if ms.len() == 0 {
        Seq::empty()
    } else {
        let i = ms.len() - 1;
        messages_lines(ms.drop_last(), width, theme, focused, sel, hl) + message_lines(
            ms.last(),
            width,
            theme,
            focused && sel == Some(i as usize),
            hl,
        )
    }
}

/// The lines each message takes: first line, and the line after its last
/// (as 16-bit line numbers).
pub open spec fn messages_ranges(
    ms: Seq<Message>,
    width: nat,
    theme: Theme,
    focused: bool,
    sel: Option<usize>,
    hl: bool,
) -> Seq<(u16, u16)>
    decreases ms.len(),
{
    if ms.len() == 0 {
        Seq::empty()
    } else {
        let before = messages_lines(ms.drop_last(), width, theme, focused, sel, hl).len();
        let after = messages_lines(ms, width, theme, focused, sel, hl).len();
        messages_ranges(ms.drop_last(), width, theme, focused, sel, hl).push((before as u16, after as u16))
    }
}

/// The line shown when there is nothing to show.
pub open spec fn placeholder(theme: Theme) -> LineV {
    seq![("（暂无消息）发送第一条消息开始对话 · ? 查看帮助"@, with_fg(plain(), theme.faint))]
}

/// The whole message area: the messages, then the reply being generated
/// (its text and reasoning so far); the placeholder when that is nothing.
pub open spec fn chat_area(
    ms: Seq<Message>,
    gen: Option<(Seq<char>, Seq<char>)>,
    width: nat,
    theme: Theme,
    focused: bool,
    sel: Option<usize>,
    hl: bool,
) -> Seq<LineV> {
    let all = messages_lines(ms, width, theme, focused, sel, hl) + match gen {
        Some((c, r)) => streaming_lines(c, r, width, theme, hl),
        None => Seq::empty(),
    };
    if all.len() == 0 {
        seq![placeholder(theme)]
    } else {
        all
    }
}

/// Lines of text indented by two columns.
fn push_indented(out: &mut Vec<Line>, text: &str, width: usize, style: Style)
    ensures
        lines_view(final(out)@) == lines_view(old(out)@) + indented(text@, width as nat, style),
{
    let w: usize = if width > 2 { width - 2 } else { 0 };
    let ls = wrap_lines(text, w);
    let ghost lv = ls@.map_values(|s: String| s@);
    let ghost add = indented(text@, width as nat, style);
    let ghost start = lines_view(out@);
    let mut i: usize = 0;
    while i < ls.len()
        invariant
            0 <= i <= ls@.len(),
            lv == ls@.map_values(|s: String| s@),
            add == lv.map_values(|l: Seq<char>| seq![("  "@ + l, style)]),
            lines_view(out@) == start + add.take(i as int),
        decreases ls@.len() - i,
    {
        let mut cs = chars_of("  ");
        let piece = chars_of(ls[i].as_str());
        crate::util::push_all(&mut cs, piece.as_slice());
        let line = Line::single(Span::styled(string_of(cs.as_slice()), style));
        let ghost prev = out@;
        out.push(line);
        proof {
            assert(line@ =~= add[i as int]);
            assert(lines_view(out@) =~= lines_view(prev).push(line@));
            assert(add.take(i + 1) =~= add.take(i as int).push(add[i as int]));
        }
        i = i + 1;
    }
    proof {
        assert(add.take(ls@.len() as int) =~= add);
    }
}

/// Appends lines.
fn push_lines(out: &mut Vec<Line>, mut more: Vec<Line>)
    ensures
        lines_view(final(out)@) == lines_view(old(out)@) + lines_view(more@),
{
    let ghost a = out@;
    let ghost b = more@;
    out.append(&mut more);
    proof {
        assert(lines_view(out@) =~= lines_view(a) + lines_view(b));
    }
}

/// Appends one line.
fn push_line(out: &mut Vec<Line>, line: Line)
    ensures
        lines_view(final(out)@) == lines_view(old(out)@).push(line@),
{
    let ghost a = out@;
    out.push(line);
    proof {
        assert(lines_view(out@) =~= lines_view(a).push(line@));
    }
}

/// A line of one styled text.
fn text_line(s: &str, style: Style) -> (l: Line)
    ensures
        l@ == seq![(s@, style)],
{
    Line::single(Span::styled(string_of(chars_of(s).as_slice()), style))
}

/// The reasoning block.
fn push_reasoning(out: &mut Vec<Line>, r: &str, width: usize, theme: &Theme)
    ensures
        lines_view(final(out)@) == lines_view(old(out)@) + reasoning_lines(r@, width as nat, *theme),
{
    let ghost start = lines_view(out@);
    push_line(out, text_line("┄ 思考过程", Style::new().fg(theme.reasoning).italic()));
    push_indented(out, r, width, Style::new().fg(theme.reasoning));
    proof {
        assert(lines_view(out@) =~= start + reasoning_lines(r@, width as nat, *theme));
    }
}

/// Appends the lines of a stored message.
fn push_message(out: &mut Vec<Line>, m: &Message, width: u16, theme: &Theme, selected: bool, hl: Option<&Highlighter>)
    ensures
        lines_view(final(out)@) == lines_view(old(out)@) + message_lines(*m, width as nat, *theme, selected, hl is Some),
{
    let ghost start = lines_view(out@);
    let w = width as usize;
    let (label, color) = match m.role {
        Role::User => ("❯ 你", theme.user),
        Role::Assistant => ("❯ AI", theme.assistant),
        Role::System => ("❯ 系统", theme.dim),
    };
    let mut head = Style::new().fg(color).bold();
    if selected {
        head = head.bg(Color::Rgb(46, 52, 64));
    }
    push_line(out, text_line(label, head));
    let ghost s1 = lines_view(out@);
    match &m.reasoning {
        Some(r) => {
            if chars_of(r.as_str()).len() > 0 {
                push_reasoning(out, r.as_str(), w, theme);
            } else {
                assert(s1 + Seq::<LineV>::empty() =~= s1);
            }
        },
        None => {
            assert(s1 + Seq::<LineV>::empty() =~= s1);
        },
    }
    match m.role {
        Role::User => push_indented(out, m.content.as_str(), w, Style::new()),
        _ => push_lines(out, render(m.content.as_str(), w, theme, hl)),
    }
    push_line(out, Line::blank());
    proof {
        assert(lines_view(out@) =~= start + message_lines(*m, width as nat, *theme, selected, hl is Some));
    }
}

/// Appends the lines of the reply being generated.
fn push_streaming(out: &mut Vec<Line>, content: &str, reasoning: &str, width: u16, theme: &Theme, hl: Option<&Highlighter>)
    ensures
        lines_view(final(out)@) == lines_view(old(out)@) + streaming_lines(content@, reasoning@, width as nat, *theme, hl is Some),
{
    let ghost start = lines_view(out@);
    let w = width as usize;
    push_line(out, text_line("❯ AI", Style::new().fg(theme.assistant).bold()));
    let ghost s1 = lines_view(out@);
    if chars_of(reasoning).len() > 0 {
        push_reasoning(out, reasoning, w, theme);
    } else {
        assert(s1 + Seq::<LineV>::empty() =~= s1);
    }
    if chars_of(content).len() == 0 {
        push_lines(out, render("…", w, theme, hl));
    } else {
        push_lines(out, render(content, w, theme, hl));
    }
    push_line(out, text_line("▍ 生成中…", Style::new().fg(theme.faint)));
    push_line(out, Line::blank());
    proof {
        assert(lines_view(out@) =~= start + streaming_lines(content@, reasoning@, width as nat, *theme, hl is Some));
    }
}

/// The message area as lines, with the lines each message takes (first
/// line, line after the last; 16-bit line numbers). `generating` is the text
/// and the reasoning of the reply under way; `sel` the selected message,
/// highlighted when the area has the focus.
pub fn chat_lines(
    messages: &Vec<Message>,
    generating: Option<(&str, &str)>,
    width: u16,
    focused: bool,
    sel: Option<usize>,
    theme: &Theme,
    hl: Option<&Highlighter>,
) -> (r: (Vec<Line>, Vec<(u16, u16)>))
    ensures
        lines_view(r.0@) == chat_area(
            messages@,
            match generating {
                Some((c, t)) => Some((c@, t@)),
                None => None,
            },
            width as nat,
            *theme,
            focused,
            sel,
            hl is Some,
        ),
        r.1@ == messages_ranges(messages@, width as nat, *theme, focused, sel, hl is Some),
{
    let mut out: Vec<Line> = Vec::new();
    let mut ranges: Vec<(u16, u16)> = Vec::new();
    let mut i: usize = 0;
    proof {
        assert(lines_view(out@) =~= Seq::<LineV>::empty());
    }
    while i < messages.len()
        invariant
            0 <= i <= messages@.len(),
            lines_view(out@) == messages_lines(messages@.take(i as int), width as nat, *theme, focused, sel, hl is Some),
            ranges@ == messages_ranges(messages@.take(i as int), width as nat, *theme, focused, sel, hl is Some),
        decreases messages@.len() - i,
    {
        let start = out.len();
        let selected = focused && match sel {
            Some(k) => k == i,
            None => false,
        };
        push_message(&mut out, &messages[i], width, theme, selected, hl);
        let end = out.len();
        proof {
            assert(messages@.take(i + 1).drop_last() =~= messages@.take(i as int));
            assert(messages@.take(i + 1).last() == messages@[i as int]);
            assert(selected == (focused && sel == Some(i)));
        }
        ranges.push((start as u16, end as u16));
        i = i + 1;
    }
    proof {
        assert(messages@.take(messages@.len() as int) =~= messages@);
    }
    let ghost msgs = lines_view(out@);
    match generating {
        Some((c, t)) => push_streaming(&mut out, c, t, width, theme, hl),
        None => {
            assert(msgs + Seq::<LineV>::empty() =~= msgs);
        },
    }
    if out.len() == 0 {
        push_line(&mut out, text_line("（暂无消息）发送第一条消息开始对话 · ? 查看帮助", Style::new().fg(theme.faint)));
        proof {
            assert(lines_view(out@) =~= seq![placeholder(*theme)]);
        }
    }
    (out, ranges)
}

/// The first line shown: the bottom of the lines when following them
/// (`scroll` is `None`), else the kept offset, no further than the bottom.
pub open spec fn offset_of(scroll: Option<u16>, total: u16, height: u16) -> u16 {
    let max = if total > height { (total - height) as u16 } else { 0 };
    match scroll {
        None => max,
        Some(o) => if o < max { o } else { max },
    }
}

/// The first line of the message area to show.
pub fn chat_offset(scroll: Option<u16>, total: u16, height: u16) -> (r: u16)
    ensures
        r == offset_of(scroll, total, height),
{
    let max = if total > height { total - height } else { 0 };
    match scroll {
        None => max,
        Some(o) => if o < max { o } else { max },
    }
}

} // verus!
