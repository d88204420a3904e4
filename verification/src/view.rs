//! Layout of the interface around the messages: the input box's height and
//! cursor, the palette's window of entries, the status bar, the sidebar
//! entries, and the help screen.
use vstd::prelude::*;

use crate::markdown::{decimal, monus, push_decimal};
use crate::control::form_wf;
use crate::state::{Focus, FormField, FormState, PaletteItem, PaletteKind, PaletteState};
use crate::style::{plain, repeat, with_fg, Line, LineV, Span, SpanV, Style, Theme};
use crate::util::{
    chars_of, cols_sum, display_width, push_all, slice_of, spec_str_width, split_char, split_chars, string_of,
    truncate_by_width, truncated, wrap_lines, wrapped_lines,
};

verus! {

// ---------------------------------------------------------------------------
// The input box
// ---------------------------------------------------------------------------

/// The lines joined with line breaks.
pub open spec fn joined(lines: Seq<Seq<char>>) -> Seq<char>
    decreases lines.len(),
{
    if lines.len() == 0 {
        Seq::empty()
    } else if lines.len() == 1 {
        lines[0]
    } else {
        joined(lines.drop_last()) + seq!['\n'] + lines.last()
    }
}

/// The height of the input box: three rows of frame and padding, plus the
/// text's rows at `width - 2` columns, at most five.
pub open spec fn input_height_of(lines: Seq<Seq<char>>, width: u16) -> u16 {
    let inner: nat = if width > 3 { (width - 2) as nat } else { 1 };
    let text = joined(lines);
    if text.len() == 0 {
        3
    } else {
        let rows = (wrapped_lines(text, inner as int).len() as u16) as nat;
        (3 + if rows < 5 { rows } else { 5 }) as u16
    }
}

/// The height of the input box for its text and the area's width.
pub fn input_height(lines: &Vec<String>, width: u16) -> (r: u16)
    ensures
        r == input_height_of(lines@.map_values(|s: String| s@), width),
{
    let ghost lv = lines@.map_values(|s: String| s@);
    let inner: usize = if width > 3 { (width - 2) as usize } else { 1 };
    let mut text: Vec<char> = Vec::new();
    let mut i: usize = 0;
    while i < lines.len()
        invariant
            0 <= i <= lines@.len(),
            lv == lines@.map_values(|s: String| s@),
            text@ == joined(lv.take(i as int)),
        decreases lines@.len() - i,
    {
        proof {
            assert(lv.take(i + 1).drop_last() =~= lv.take(i as int));
        }
        if i > 0 {
            text.push('\n');
        } else {
            assert(lv.take(1) =~= seq![lv[0]]);
        }
        push_all(&mut text, chars_of(lines[i].as_str()).as_slice());
        i = i + 1;
    }
    proof {
        assert(lv.take(lines@.len() as int) =~= lv);
    }
    if text.len() == 0 {
        return 3;
    }
    let rows = wrap_lines(string_of(text.as_slice()).as_str(), inner).len() as u16;
    3 + if rows < 5 { rows } else { 5 }
}

/// The display rows a line takes at `w` columns (one at least).
pub open spec fn line_rows(l: Seq<char>, w: nat) -> nat {
    let n = wrapped_lines(l, w as int).len();
    if n > 1 { n } else { 1 }
}

/// The rows the lines before line `k` take.
pub open spec fn rows_before(lines: Seq<Seq<char>>, k: int, w: nat) -> nat
    decreases k,
{
    if k <= 0 {
        0
    } else {
        rows_before(lines, k - 1, w) + line_rows(lines[k - 1], w)
    }
}

/// The cursor in the input box, relative to its text area of `w` columns:
/// the column and the row where the cursor's character falls once the
/// lines are wrapped (the top left corner when the cursor line is missing).
pub open spec fn input_cursor_of(lines: Seq<Seq<char>>, cy: int, cx: int, w: nat) -> (nat, nat) {
    let w1: nat = if w > 0 { w } else { 1 };
    if 0 <= cy < lines.len() {
        let l = lines[cy];
        let before = spec_str_width(l.take(if cx < l.len() { cx } else { l.len() as int })) as nat;
        (before % w1, rows_before(lines, cy, w) + before / w1)
    } else {
        (0, 0)
    }
}

/// The cursor in the input box (column, row), relative to its text area of
/// `w` columns; `None` when a count does not fit in `usize`.
pub fn input_cursor(lines: &Vec<String>, cy: usize, cx: usize, w: usize) -> (r: Option<(usize, usize)>)
    ensures
        r matches Some((c, row)) ==> (c as nat, row as nat) == input_cursor_of(
            lines@.map_values(|s: String| s@),
            cy as int,
            cx as int,
            w as nat,
        ),
        (r is None) ==> cy < lines@.len(),
{
    let ghost lv = lines@.map_values(|s: String| s@);
    if cy >= lines.len() {
        return Some((0, 0));
    }
    let w1: usize = if w > 0 { w } else { 1 };
    let mut row: usize = 0;
    let mut i: usize = 0;
    while i < cy
        invariant
            0 <= i <= cy < lines@.len(),
            lv == lines@.map_values(|s: String| s@),
            row == rows_before(lv, i as int, w as nat),
        decreases cy - i,
    {
        let n = wrap_lines(lines[i].as_str(), w).len();
        let k = if n > 1 { n } else { 1 };
        if row > usize::MAX - k {
            return None;
        }
        row = row + k;
        i = i + 1;
    }
    let cs = chars_of(lines[cy].as_str());
    let k = if cx < cs.len() { cx } else { cs.len() };
    let pre = crate::util::slice_of(cs.as_slice(), 0, k);
    assert(pre@ =~= lv[cy as int].take(k as int));
    let before = display_width(string_of(pre.as_slice()).as_str());
    let r = before / w1;
    if row > usize::MAX - r {
        return None;
    }
    Some((before % w1, row + r))
}

// ---------------------------------------------------------------------------
// The palette
// ---------------------------------------------------------------------------

/// The first entry shown when `rows` rows hold `len` entries: the window
/// is centred on the selection as far as the ends allow.
pub open spec fn window_start(selected: usize, len: usize, rows: usize) -> usize {
    if len > rows {
        let a = monus(selected as nat, rows as nat / 2);
        let b = (len - rows) as nat;
        (if a < b { a } else { b }) as usize
    } else {
        0
    }
}

/// The first palette entry shown.
pub fn palette_window(selected: usize, len: usize, rows: usize) -> (r: usize)
    ensures
        r == window_start(selected, len, rows),
{
    if len > rows {
        let half = rows / 2;
        let a = if selected > half { selected - half } else { 0 };
        let b = len - rows;
        if a < b { a } else { b }
    } else {
        0
    }
}

// ---------------------------------------------------------------------------
// The status bar
// ---------------------------------------------------------------------------

/// The key hints for the situation.
pub open spec fn hint_of(generating: bool, focus: Focus) -> Seq<char> {
    if generating {
        " Esc 停止生成 "@
    } else {
        match focus {
            Focus::Input => " Enter 发送 · / 命令 · ? 帮助 "@,
            Focus::Chat => " j/k 选消息 · e 编辑 · dd 删除 · c 复制代码 "@,
            Focus::Sidebar => " Enter 切换 · n 新建 · r 重命名 · d 删除 "@,
        }
    }
}

/// The key hints for the situation.
pub fn context_hint(generating: bool, focus: Focus) -> (r: &'static str)
    ensures
        r@ == hint_of(generating, focus),
{
    if generating {
        return " Esc 停止生成 ";
    }
    match focus {
        Focus::Input => " Enter 发送 · / 命令 · ? 帮助 ",
        Focus::Chat => " j/k 选消息 · e 编辑 · dd 删除 · c 复制代码 ",
        Focus::Sidebar => " Enter 切换 · n 新建 · r 重命名 · d 删除 ",
    }
}

/// The activity shown in the status bar: a reply under way, models being
/// fetched, or messages waiting.
pub open spec fn activity_of(generating: bool, models_loading: bool, queued: usize) -> Option<Seq<char>> {
    if generating {
        Some("⟳ 生成中"@)
    } else if models_loading {
        Some("⟳ 拉取模型"@)
    } else if queued > 0 {
        Some("⏳ 队列 "@ + decimal(queued as nat))
    } else {
        None
    }
}

/// The activity shown in the status bar.
pub fn activity(generating: bool, models_loading: bool, queued: usize) -> (r: Option<String>)
    ensures
        crate::llm::opt_view(r) == activity_of(generating, models_loading, queued),
{
    if generating {
        Some(string_of(chars_of("⟳ 生成中").as_slice()))
    } else if models_loading {
        Some(string_of(chars_of("⟳ 拉取模型").as_slice()))
    } else if queued > 0 {
        let mut v = chars_of("⏳ 队列 ");
        push_decimal(&mut v, queued as u64);
        Some(string_of(v.as_slice()))
    } else {
        None
    }
}

/// The session's provider and model, starred when the model is a favourite.
pub open spec fn session_label_of(provider: Seq<char>, model: Seq<char>, starred: bool) -> Seq<char> {
    " "@ + provider + " · "@ + (if starred { "★ "@ } else { Seq::empty() }) + model
}

/// The session's provider and model, starred when the model is a favourite.
pub fn session_label(provider: &str, model: &str, starred: bool) -> (r: String)
    ensures
        r@ == session_label_of(provider@, model@, starred),
{
    let mut v = chars_of(" ");
    push_all(&mut v, chars_of(provider).as_slice());
    push_all(&mut v, chars_of(" · ").as_slice());
    if starred {
        push_all(&mut v, chars_of("★ ").as_slice());
    } else {
        assert(v@ + Seq::<char>::empty() =~= v@);
    }
    push_all(&mut v, chars_of(model).as_slice());
    string_of(v.as_slice())
}

// ---------------------------------------------------------------------------
// The sidebar
// ---------------------------------------------------------------------------

/// A sidebar entry: a filled dot for the current session, then the title
/// cut to the sidebar's width less four columns.
pub open spec fn sidebar_entry_of(title: Seq<char>, current: bool, width: u16) -> Seq<char> {
    (if current { "● "@ } else { "○ "@ }) + truncated(title, monus(width as nat, 4))
}

/// A sidebar entry.
pub fn sidebar_entry(title: &str, current: bool, width: u16) -> (r: String)
    ensures
        r@ == sidebar_entry_of(title@, current, width),
{
    let mut v = if current { chars_of("● ") } else { chars_of("○ ") };
    let w: usize = if width > 4 { (width - 4) as usize } else { 0 };
    let t = truncate_by_width(title, w);
    push_all(&mut v, chars_of(t.as_str()).as_slice());
    string_of(v.as_slice())
}

/// The sidebar row to highlight: the selection, kept within the list.
pub fn sidebar_highlight(sel: usize, n: usize) -> (r: Option<usize>)
    ensures
        n == 0 ==> r is None,
        n > 0 ==> r == Some(if sel < n { sel } else { (n - 1) as usize }),
{
    if n == 0 {
        None
    } else if sel < n {
        Some(sel)
    } else {
        Some(n - 1)
    }
}

// ---------------------------------------------------------------------------
// The help screen
// ---------------------------------------------------------------------------

/// The keys the help screen lists, with what they do.
pub open spec fn help_table() -> Seq<(Seq<char>, Seq<char>)> {
    seq![
        ("Tab"@, "切换焦点：输入 ↔ 消息 ↔ 侧栏"@),
        ("Enter"@, "发送 · Shift/Alt+Enter 换行"@),
        ("Esc"@, "停止生成 / 关闭面板 / 返回输入"@),
        ("j k ↑ ↓"@, "选择消息 / 列表导航（首尾循环）"@),
        ("g / G"@, "跳首条 / 末条消息"@),
        ("e"@, "编辑选中消息（消息区）"@),
        ("dd"@, "删除选中消息（按两次 d）"@),
        ("c"@, "复制最近代码块（消息区）"@),
        ("n / r / d"@, "新建 / 重命名 / 删除会话（侧栏，d 按两次）"@),
        ("f"@, "收藏模型（模型面板）或 /fav 当前模型"@),
        ("Ctrl+R"@, "重新生成回复"@),
        ("Ctrl+C ×2 / Ctrl+D"@, "退出"@),
        ("/"@, "命令面板 · ? 本帮助"@),
    ]
}

/// A key name padded with spaces to twenty characters.
pub open spec fn padded_key(k: Seq<char>) -> Seq<char> {
    k + repeat(' ', monus(20, k.len()))
}

/// The lines of the help screen: each key padded to twenty characters in
/// the accent colour with its description dimmed, an empty line, and the
/// closing hint.
pub open spec fn help_lines_of(theme: Theme) -> Seq<LineV> {
    help_table().map_values(|e: (Seq<char>, Seq<char>)| seq![
        (padded_key(e.0), with_fg(plain(), theme.accent)),
        (e.1, with_fg(plain(), theme.dim)),
    ]) + seq![Seq::empty(), seq![("按 Esc 或 ? 关闭"@, Style { fg: Some(theme.faint), italic: true, ..plain() })]]
}

/// The help screen's table, as key names and descriptions.
fn help_entries() -> (r: Vec<(&'static str, &'static str)>)
    ensures
        r@.map_values(|e: (&str, &str)| (e.0@, e.1@)) == help_table(),
{
    let r = vec![
        ("Tab", "切换焦点：输入 ↔ 消息 ↔ 侧栏"),
        ("Enter", "发送 · Shift/Alt+Enter 换行"),
        ("Esc", "停止生成 / 关闭面板 / 返回输入"),
        ("j k ↑ ↓", "选择消息 / 列表导航（首尾循环）"),
        ("g / G", "跳首条 / 末条消息"),
        ("e", "编辑选中消息（消息区）"),
        ("dd", "删除选中消息（按两次 d）"),
        ("c", "复制最近代码块（消息区）"),
        ("n / r / d", "新建 / 重命名 / 删除会话（侧栏，d 按两次）"),
        ("f", "收藏模型（模型面板）或 /fav 当前模型"),
        ("Ctrl+R", "重新生成回复"),
        ("Ctrl+C ×2 / Ctrl+D", "退出"),
        ("/", "命令面板 · ? 本帮助"),
    ];
    assert(r@.map_values(|e: (&str, &str)| (e.0@, e.1@)) =~= help_table());
    r
}

/// The lines of the help screen.
pub fn help_lines(theme: &Theme) -> (r: Vec<Line>)
    ensures
        crate::style::lines_view(r@) == help_lines_of(*theme),
{
    let es = help_entries();
    let ghost ev = es@.map_values(|e: (&str, &str)| (e.0@, e.1@));
    let ghost all = help_lines_of(*theme);
    let mut out: Vec<Line> = Vec::new();
    let mut i: usize = 0;
    while i < es.len()
        invariant
            0 <= i <= es@.len(),
            ev == es@.map_values(|e: (&str, &str)| (e.0@, e.1@)),
            ev == help_table(),
            all == help_lines_of(*theme),
            crate::style::lines_view(out@) == all.take(i as int),
        decreases es@.len() - i,
    {
        let (k, d) = es[i];
        let mut kv = chars_of(k);
        let n = kv.len();
        if n < 20 {
            push_all(&mut kv, crate::style::repeat_char(' ', 20 - n).as_slice());
        } else {
            assert(kv@ + repeat(' ', 0) =~= kv@);
        }
        let mut spans: Vec<Span> = Vec::new();
        spans.push(Span::styled(string_of(kv.as_slice()), Style::new().fg(theme.accent)));
        spans.push(Span::styled(string_of(chars_of(d).as_slice()), Style::new().fg(theme.dim)));
        let line = Line::from_spans(spans);
        let ghost prev = out@;
        out.push(line);
        proof {
            assert(ev[i as int] == (k@, d@));
            assert(line@ =~= all[i as int]);
            assert(crate::style::lines_view(out@) =~= crate::style::lines_view(prev).push(line@));
            assert(all.take(i + 1) =~= all.take(i as int).push(all[i as int]));
        }
        i = i + 1;
    }
    let b = Line::blank();
    let last = Line::single(
        Span::styled(string_of(chars_of("按 Esc 或 ? 关闭").as_slice()), Style::new().fg(theme.faint).italic()),
    );
    let ghost prev = out@;
    out.push(b);
    out.push(last);
    proof {
        assert(crate::style::lines_view(out@) =~= crate::style::lines_view(prev).push(b@).push(last@));
        assert(all =~= all.take(es@.len() as int).push(b@).push(last@));
    }
    out
}

// ---------------------------------------------------------------------------
// Titles and notices
// ---------------------------------------------------------------------------

/// The title of the input box.
pub fn input_title(generating: bool) -> (r: &'static str)
    ensures
        r@ == if generating { " 输入（生成中 · Esc 停止）"@ } else { " 输入 "@ },
{
    if generating { " 输入（生成中 · Esc 停止）" } else { " 输入 " }
}

/// The hint in an empty input box.
pub fn input_hint(generating: bool) -> (r: &'static str)
    ensures
        r@ == if generating { "生成中… 可继续输入，完成后自动发送"@ } else { "输入消息 · / 命令面板 · ? 帮助 · Shift+Enter 换行"@ },
{
    if generating { "生成中… 可继续输入，完成后自动发送" } else { "输入消息 · / 命令面板 · ? 帮助 · Shift+Enter 换行" }
}

/// The title of a palette.
pub open spec fn palette_title_of(kind: PaletteKind) -> Seq<char> {
    match kind {
        PaletteKind::Commands => " 命令面板 "@,
        PaletteKind::Models => " 选择模型 "@,
        PaletteKind::ProvidersEdit => " 编辑提供商 "@,
        PaletteKind::ProvidersDelete => " 删除提供商 "@,
        PaletteKind::ProvidersSwitch => " 切换提供商 "@,
    }
}

/// The title of a palette.
pub fn palette_title(kind: PaletteKind) -> (r: &'static str)
    ensures
        r@ == palette_title_of(kind),
{
    match kind {
        PaletteKind::Commands => " 命令面板 ",
        PaletteKind::Models => " 选择模型 ",
        PaletteKind::ProvidersEdit => " 编辑提供商 ",
        PaletteKind::ProvidersDelete => " 删除提供商 ",
        PaletteKind::ProvidersSwitch => " 切换提供商 ",
    }
}

/// The notice line: a cross for an error, a tick otherwise, and the text
/// cut to the width less four columns, all in the error or accent colour.
pub open spec fn notice_line_of(text: Seq<char>, error: bool, width: u16, theme: Theme) -> LineV {
    let c = if error { theme.error } else { theme.accent };
    seq![
        (if error { "✖ "@ } else { "✔ "@ }, with_fg(plain(), c)),
        (truncated(text, monus(width as nat, 4)), with_fg(plain(), c)),
    ]
}

/// The notice line.
pub fn notice_line(text: &str, error: bool, width: u16, theme: &Theme) -> (l: Line)
    ensures
        l@ == notice_line_of(text@, error, width, *theme),
{
    let c = if error { theme.error } else { theme.accent };
    let sym = if error { "✖ " } else { "✔ " };
    let w: usize = if width > 4 { (width - 4) as usize } else { 0 };
    let mut spans: Vec<Span> = Vec::new();
    spans.push(Span::styled(string_of(chars_of(sym).as_slice()), Style::new().fg(c)));
    spans.push(Span::styled(truncate_by_width(text, w), Style::new().fg(c)));
    let l = Line::from_spans(spans);
    assert(l@ =~= notice_line_of(text@, error, width, *theme));
    l
}

// ---------------------------------------------------------------------------
// The input box's text
// ---------------------------------------------------------------------------

/// The display lines of the input box's text at `w` columns: an empty line
/// stays an empty line, the others are wrapped.
pub open spec fn input_text_lines(lines: Seq<Seq<char>>, w: nat) -> Seq<LineV>
    decreases lines.len(),
{
    if lines.len() == 0 {
        Seq::empty()
    } else {
        let l = lines.last();
        input_text_lines(lines.drop_last(), w) + if l.len() == 0 {
            seq![Seq::<SpanV>::empty()]
        } else {
            wrapped_lines(l, w as int).map_values(|s: Seq<char>| seq![(s, plain())])
        }
    }
}

/// The display lines of the input box's text.
pub fn input_lines(lines: &Vec<String>, w: usize) -> (r: Vec<Line>)
    ensures
        crate::style::lines_view(r@) == input_text_lines(lines@.map_values(|s: String| s@), w as nat),
{
    let ghost lv = lines@.map_values(|s: String| s@);
    let mut out: Vec<Line> = Vec::new();
    let mut i: usize = 0;
    assert(crate::style::lines_view(out@) =~= Seq::<LineV>::empty());
    while i < lines.len()
        invariant
            0 <= i <= lines@.len(),
            lv == lines@.map_values(|s: String| s@),
            crate::style::lines_view(out@) == input_text_lines(lv.take(i as int), w as nat),
        decreases lines@.len() - i,
    {
        proof {
            assert(lv.take(i + 1).drop_last() =~= lv.take(i as int));
            assert(lv.take(i + 1).last() == lines@[i as int]@);
        }
        let ghost start = crate::style::lines_view(out@);
        if chars_of(lines[i].as_str()).len() == 0 {
            let b = Line::blank();
            out.push(b);
            proof {
                assert(crate::style::lines_view(out@) =~= start + seq![Seq::<SpanV>::empty()]);
            }
        } else {
            let segs = wrap_lines(lines[i].as_str(), w);
            let ghost sv = segs@.map_values(|s: String| s@);
            let ghost add = sv.map_values(|s: Seq<char>| seq![(s, plain())]);
            let mut j: usize = 0;
            while j < segs.len()
                invariant
                    0 <= j <= segs@.len(),
                    sv == segs@.map_values(|s: String| s@),
                    add == sv.map_values(|s: Seq<char>| seq![(s, plain())]),
                    crate::style::lines_view(out@) == start + add.take(j as int),
                decreases segs@.len() - j,
            {
                let line = Line::single(Span::raw(segs[j].clone()));
                let ghost prev = out@;
                out.push(line);
                proof {
                    assert(crate::style::lines_view(out@) =~= crate::style::lines_view(prev).push(line@));
                    assert(add.take(j + 1) =~= add.take(j as int).push(add[j as int]));
                }
                j = j + 1;
            }
            proof {
                assert(add.take(segs@.len() as int) =~= add);
            }
        }
        i = i + 1;
    }
    proof {
        assert(lv.take(lines@.len() as int) =~= lv);
    }
    out
}

// ---------------------------------------------------------------------------
// The palette's lines
// ---------------------------------------------------------------------------

/// A palette entry: the selection mark, the favourite star, the label, and
/// the hint after two spaces.
pub open spec fn item_line(it: PaletteItem, sel: bool, theme: Theme) -> LineV {
    let st = if sel { Style { fg: Some(theme.accent), bold: true, ..plain() } } else { with_fg(plain(), theme.dim) };
    seq![
        (if sel { "▸ "@ } else { "  "@ }, st),
        (if it.starred { "★ "@ } else { "  "@ }, with_fg(plain(), theme.accent)),
        (it.label@, st),
        (if it.hint@.len() == 0 { Seq::empty() } else { "  "@ + it.hint@ }, with_fg(plain(), theme.faint)),
    ]
}

/// The rows for entries in a palette `height` rows high.
pub open spec fn entry_rows(kind: PaletteKind, height: u16) -> nat {
    monus(height as nat, if kind == PaletteKind::Models { 3 } else { 2 })
}

/// The entries shown: the window from `start`, as many as the rows hold.
pub open spec fn window_lines(vis: Seq<PaletteItem>, start: nat, rows: nat, selected: usize, theme: Theme) -> Seq<LineV> {
    let n = if start + rows <= vis.len() { rows } else { monus(vis.len(), start) };
    Seq::new(n, |j: int| item_line(vis[start + j], start + j == selected, theme))
}

/// The palette: the filter line, an empty line, the window of entries (or
/// the no-match line), and for models a key hint at the bottom.
pub open spec fn palette_lines_of(p: PaletteState, kind: PaletteKind, height: u16, theme: Theme) -> Seq<LineV> {
    let st = with_fg(plain(), theme.accent);
    let rows = entry_rows(kind, height);
    let start = window_start(p.selected, p.visible@.len() as usize, rows as usize) as nat;
    seq![seq![("  "@, st), ("❯ "@, st), (p.filter@, st)], Seq::empty()] + window_lines(
        p.visible@,
        start,
        rows,
        p.selected,
        theme,
    ) + (if p.visible@.len() == 0 {
        seq![seq![("（无匹配）"@, with_fg(plain(), theme.faint))]]
    } else {
        Seq::empty()
    }) + (if kind == PaletteKind::Models {
        seq![Seq::empty(), seq![(" ↑↓ 导航（含搜索栏）· f 收藏模型 · Enter 选择 "@, with_fg(plain(), theme.faint))]]
    } else {
        Seq::empty()
    })
}

/// A span of a literal text.
fn lit(s: &str, style: Style) -> (r: Span)
    ensures
        r@ == (s@, style),
{
    Span::styled(string_of(chars_of(s).as_slice()), style)
}

/// The line of a palette entry.
fn palette_item_line(it: &PaletteItem, sel: bool, theme: &Theme) -> (l: Line)
    ensures
        l@ == item_line(*it, sel, *theme),
{
    let st = if sel { Style::new().fg(theme.accent).bold() } else { Style::new().fg(theme.dim) };
    let h = chars_of(it.hint.as_str());
    let hint = if h.len() == 0 {
        assert(h@ =~= Seq::<char>::empty());
        h
    } else {
        let mut v = chars_of("  ");
        push_all(&mut v, h.as_slice());
        v
    };
    let l = Line::quad(
        lit(if sel { "▸ " } else { "  " }, st),
        lit(if it.starred { "★ " } else { "  " }, Style::new().fg(theme.accent)),
        Span::styled(it.label.clone(), st),
        Span::styled(string_of(hint.as_slice()), Style::new().fg(theme.faint)),
    );
    assert(l@ =~= item_line(*it, sel, *theme));
    l
}

/// The lines of a palette `height` rows high.
#[verifier::spinoff_prover]
#[verifier::rlimit(50)]
pub fn palette_lines(p: &PaletteState, kind: PaletteKind, height: u16, theme: &Theme) -> (r: Vec<Line>)
    ensures
        crate::style::lines_view(r@) == palette_lines_of(*p, kind, height, *theme),
{
    let st = Style::new().fg(theme.accent);
    let mut out: Vec<Line> = Vec::new();
    let l0 = Line::triple(lit("  ", st), lit("❯ ", st), Span::styled(p.filter.clone(), st));
    let l1 = Line::blank();
    out.push(l0);
    out.push(l1);
    let rows: usize = if height > 3 || (height > 2 && kind != PaletteKind::Models) {
        (height - if kind == PaletteKind::Models { 3u16 } else { 2u16 }) as usize
    } else {
        0
    };
    assert(rows as nat == entry_rows(kind, height));
    let len = p.visible.len();
    let start = palette_window(p.selected, len, rows);
    let end = if start <= len && rows <= len - start { start + rows } else { len };
    let ghost head = seq![seq![("  "@, st), ("❯ "@, st), (p.filter@, st)], Seq::<SpanV>::empty()];
    let ghost win = window_lines(p.visible@, start as nat, rows as nat, p.selected, *theme);
    proof {
        assert(crate::style::lines_view(out@) =~= head);
        assert(start <= len) by {
            if len > rows {
                assert(window_start(p.selected, len, rows) <= len - rows);
            }
        }
        assert(win.len() == end - start);
    }
    let mut i: usize = start;
    while i < end
        invariant
            start <= i <= end <= p.visible@.len(),
            win == window_lines(p.visible@, start as nat, rows as nat, p.selected, *theme),
            win.len() == end - start,
            crate::style::lines_view(out@) == head + win.take(i - start),
        decreases end - i,
    {
        let line = palette_item_line(&p.visible[i], i == p.selected, theme);
        let ghost prev = out@;
        out.push(line);
        proof {
            assert(win[i - start] == item_line(p.visible@[i as int], i == p.selected, *theme));
            assert(crate::style::lines_view(out@) =~= crate::style::lines_view(prev).push(line@));
            assert(win.take(i + 1 - start) =~= win.take(i - start).push(win[i - start]));
        }
        i = i + 1;
    }
    proof {
        assert(win.take(end - start) =~= win);
    }
    let ghost mid = crate::style::lines_view(out@);
    if len == 0 {
        let l = Line::single(lit("（无匹配）", Style::new().fg(theme.faint)));
        out.push(l);
        assert(crate::style::lines_view(out@) =~= mid.push(l@));
    } else {
        assert(mid + Seq::<LineV>::empty() =~= mid);
    }
    let ghost mid2 = crate::style::lines_view(out@);
    if kind == PaletteKind::Models {
        let b = Line::blank();
        let l = Line::single(lit(" ↑↓ 导航（含搜索栏）· f 收藏模型 · Enter 选择 ", Style::new().fg(theme.faint)));
        out.push(b);
        out.push(l);
        assert(crate::style::lines_view(out@) =~= mid2.push(b@).push(l@));
    } else {
        assert(mid2 + Seq::<LineV>::empty() =~= mid2);
    }
    out
}

// ---------------------------------------------------------------------------
// Forms
// ---------------------------------------------------------------------------

/// The label of a form field, marked when it is the current one.
pub open spec fn form_label(f: FormField, sel: bool) -> Seq<char> {
    (if sel { "▸ "@ } else { "  "@ }) + f.label@ + " "@
}

/// A field's value as shown: a secret is masked, one `*` per character.
pub open spec fn shown_value(f: FormField) -> Seq<char> {
    if f.secret { repeat('*', f.value@.len()) } else { f.value@ }
}

/// The style of a field's label.
pub open spec fn field_style(sel: bool, theme: Theme) -> Style {
    if sel { Style { fg: Some(theme.accent), bold: true, ..plain() } } else { with_fg(plain(), theme.dim) }
}

/// The rows of a field's value: its lines cut to the columns the label
/// leaves (less two), at most the last `height - 2` of them.
pub open spec fn field_rows(f: FormField, sel: bool, width: u16, height: u16) -> Seq<Seq<char>> {
    let lw = spec_str_width(form_label(f, sel)) as nat;
    let vw = monus(width as nat, lw + 2);
    let rows = split_char(shown_value(f), '\n').map_values(|l: Seq<char>| truncated(l, vw));
    let k = monus(height as nat, 2);
    if rows.len() > k { rows.skip(rows.len() - k) } else { rows }
}

/// The lines of a field: the label before the first row, spaces of the
/// label's width before the others.
pub open spec fn field_lines(f: FormField, sel: bool, width: u16, height: u16, theme: Theme) -> Seq<LineV> {
    let rows = field_rows(f, sel, width, height);
    let label = form_label(f, sel);
    let lw = spec_str_width(label) as nat;
    Seq::new(
        rows.len(),
        |li: int| seq![(if li == 0 { label } else { repeat(' ', lw) }, field_style(sel, theme)), (rows[li], plain())],
    )
}

/// The lines of the fields, the `idx`-th being the current one.
pub open spec fn fields_lines(fs: Seq<FormField>, idx: usize, width: u16, height: u16, theme: Theme) -> Seq<LineV>
    decreases fs.len(),
{
    if fs.len() == 0 {
        Seq::empty()
    } else {
        fields_lines(fs.drop_last(), idx, width, height, theme) + field_lines(
            fs.last(),
            fs.len() - 1 == idx,
            width,
            height,
            theme,
        )
    }
}

/// The lines taken off the top so that the fields leave a row for the hint.
pub open spec fn form_cut(n: nat, height: u16) -> nat {
    if n >= height { (n - height + 1) as nat } else { 0 }
}

/// The lines of a form `height` rows high: the fields (their first lines
/// dropped when they do not fit), an empty line, and the key hint.
pub open spec fn form_lines_of(form: FormState, width: u16, height: u16, theme: Theme) -> Seq<LineV> {
    let all = fields_lines(form.fields@, form.idx, width, height, theme);
    all.skip(form_cut(all.len(), height) as int) + seq![
        Seq::empty(),
        seq![(" "@ + form.hint@, with_fg(plain(), theme.faint))],
    ]
}

/// The cursor in a form (column, row within the form's area): after the
/// current field's label, at the display columns of its value's line up to
/// the cursor, on the row of that line; kept inside the area.
pub open spec fn form_cursor_of(form: FormState, width: u16, height: u16, theme: Theme) -> (u16, u16) {
    let f = form.fields@[form.idx as int];
    let all = fields_lines(form.fields@, form.idx, width, height, theme);
    let start = fields_lines(form.fields@.take(form.idx as int), form.idx, width, height, theme).len();
    let fy = monus((start as u16) as nat, form_cut(all.len(), height));
    let before = f.value@.take(if f.cx < f.value@.len() { f.cx as int } else { f.value@.len() as int });
    let parts = split_char(before, '\n');
    let line_idx = ((parts.len() - 1) as u16) as nat;
    let lw = spec_str_width(form_label(f, true)) as nat;
    let x = ((lw + cols_sum(parts.last())) as u16) as nat;
    let xm = monus(width as nat, 1);
    let y = fy + line_idx;
    let ym = monus(height as nat, 1);
    ((if x < xm { x } else { xm }) as u16, (if y < ym { y } else { ym }) as u16)
}

/// The label of a field.
fn label_chars(f: &FormField, sel: bool) -> (r: Vec<char>)
    ensures
        r@ == form_label(*f, sel),
{
    let mut v = if sel { chars_of("▸ ") } else { chars_of("  ") };
    push_all(&mut v, chars_of(f.label.as_str()).as_slice());
    push_all(&mut v, chars_of(" ").as_slice());
    v
}

/// Appends the lines of a field.
fn push_field_lines(out: &mut Vec<Line>, f: &FormField, sel: bool, width: u16, height: u16, theme: &Theme)
    ensures
        crate::style::lines_view(final(out)@) == crate::style::lines_view(old(out)@) + field_lines(
            *f,
            sel,
            width,
            height,
            *theme,
        ),
{
    let label = label_chars(f, sel);
    let lw = display_width(string_of(label.as_slice()).as_str());
    let w = width as usize;
    let vw: usize = if lw < w && w - lw > 2 { w - lw - 2 } else { 0 };
    let value: Vec<char> = if f.secret {
        crate::style::repeat_char('*', chars_of(f.value.as_str()).len())
    } else {
        chars_of(f.value.as_str())
    };
    let parts = split_chars(value.as_slice(), '\n');
    let ghost pv = split_char(shown_value(*f), '\n');
    let ghost rows_all = pv.map_values(|l: Seq<char>| truncated(l, vw as nat));
    let h = height as usize;
    let k: usize = if h > 2 { h - 2 } else { 0 };
    let n = parts.len();
    let skip: usize = if n > k { n - k } else { 0 };
    let ghost rows = field_rows(*f, sel, width, height);
    proof {
        assert(rows =~= if rows_all.len() > k { rows_all.skip(rows_all.len() - k) } else { rows_all });
    }
    let ghost add = field_lines(*f, sel, width, height, *theme);
    let ghost start = crate::style::lines_view(out@);
    let st = if sel { Style::new().fg(theme.accent).bold() } else { Style::new().fg(theme.dim) };
    let mut li: usize = 0;
    while li < n - skip
        invariant
            0 <= li <= n - skip,
            skip <= n,
            n == parts@.len(),
            n == rows_all.len(),
            forall|q: int| 0 <= q < parts@.len() ==> #[trigger] parts@[q]@ == pv[q],
            rows_all == pv.map_values(|l: Seq<char>| truncated(l, vw as nat)),
            rows == field_rows(*f, sel, width, height),
            rows.len() == n - skip,
            forall|q: int| 0 <= q < rows.len() ==> #[trigger] rows[q] == rows_all[q + skip],
            add == field_lines(*f, sel, width, height, *theme),
            add.len() == rows.len(),
            vw as nat == monus(width as nat, lw as nat + 2),
            lw == spec_str_width(label@),
            label@ == form_label(*f, sel),
            st == field_style(sel, *theme),
            crate::style::lines_view(out@) == start + add.take(li as int),
        decreases n - skip - li,
    {
        let row = truncate_by_width(string_of(parts[skip + li].as_slice()).as_str(), vw);
        let first = if li == 0 {
            string_of(label.as_slice())
        } else {
            string_of(crate::style::repeat_char(' ', lw).as_slice())
        };
        let ghost rv = row@;
        let line = Line::pair(Span::styled(first, st), Span::raw(row));
        let ghost prev = out@;
        out.push(line);
        proof {
            let q = (skip + li) as int;
            assert(parts@[q]@ == pv[q]);
            assert(rows_all[q] == truncated(pv[q], vw as nat));
            assert(rows[li as int] == rows_all[li + skip]);
            assert(rv == rows[li as int]);
            assert(line@ =~= add[li as int]);
            assert(crate::style::lines_view(out@) =~= crate::style::lines_view(prev).push(line@));
            assert(add.take(li + 1) =~= add.take(li as int).push(add[li as int]));
        }
        li = li + 1;
    }
    proof {
        assert(add.take((n - skip) as int) =~= add);
    }
}

/// The lines of a form `height` rows high and the cursor in it.
pub fn form_layout(form: &FormState, width: u16, height: u16, theme: &Theme) -> (r: (Vec<Line>, (u16, u16)))
    requires
        form_wf(*form),
        height > 0,
    ensures
        crate::style::lines_view(r.0@) == form_lines_of(*form, width, height, *theme),
        r.1 == form_cursor_of(*form, width, height, *theme),
{
    let ghost fs = form.fields@;
    let mut all: Vec<Line> = Vec::new();
    let mut start: usize = 0;
    let mut i: usize = 0;
    proof {
        assert(crate::style::lines_view(all@) =~= Seq::<LineV>::empty());
        assert(fs.take(0) =~= Seq::<FormField>::empty());
    }
    while i < form.fields.len()
        invariant
            0 <= i <= fs.len(),
            fs == form.fields@,
            form_wf(*form),
            crate::style::lines_view(all@) == fields_lines(fs.take(i as int), form.idx, width, height, *theme),
            i > form.idx ==> start == fields_lines(fs.take(form.idx as int), form.idx, width, height, *theme).len(),
        decreases fs.len() - i,
    {
        if i == form.idx {
            start = all.len();
        }
        push_field_lines(&mut all, &form.fields[i], i == form.idx, width, height, theme);
        proof {
            assert(fs.take(i + 1).drop_last() =~= fs.take(i as int));
            assert(fs.take(i + 1).last() == fs[i as int]);
        }
        i = i + 1;
    }
    proof {
        assert(fs.take(fs.len() as int) =~= fs);
    }
    let ghost av = crate::style::lines_view(all@);
    let n = all.len();
    let h = height as usize;
    let cut: usize = if n >= h { n - h + 1 } else { 0 };
    let mut out: Vec<Line> = Vec::new();
    let mut j: usize = cut;
    proof {
        assert(crate::style::lines_view(out@) =~= av.skip(cut as int).take(0));
    }
    while j < n
        invariant
            cut <= j <= n,
            n == all@.len(),
            av == crate::style::lines_view(all@),
            crate::style::lines_view(out@) == av.skip(cut as int).take(j - cut),
        decreases n - j,
    {
        let line = all[j].duplicate();
        let ghost prev = out@;
        out.push(line);
        proof {
            assert(av[j as int] == all@[j as int]@);
            assert(crate::style::lines_view(out@) =~= crate::style::lines_view(prev).push(line@));
            assert(av.skip(cut as int).take(j + 1 - cut) =~= av.skip(cut as int).take(j - cut).push(av[j as int]));
        }
        j = j + 1;
    }
    proof {
        assert(av.skip(cut as int).take(n - cut) =~= av.skip(cut as int));
    }
    let mut hint = chars_of(" ");
    push_all(&mut hint, chars_of(form.hint.as_str()).as_slice());
    let b = Line::blank();
    let l = Line::single(Span::styled(string_of(hint.as_slice()), Style::new().fg(theme.faint)));
    let ghost mid = crate::style::lines_view(out@);
    out.push(b);
    out.push(l);
    proof {
        assert(crate::style::lines_view(out@) =~= mid.push(b@).push(l@));
    }
    // the cursor
    let f = &form.fields[form.idx];
    let cs = chars_of(f.value.as_str());
    let k = if f.cx < cs.len() { f.cx } else { cs.len() };
    let before = slice_of(cs.as_slice(), 0, k);
    assert(before@ =~= cs@.take(k as int));
    let parts = split_chars(before.as_slice(), '\n');
    proof {
        crate::util::lemma_split_char_nonempty(before@, '\n');
    }
    let line_idx = (parts.len() - 1) as u16;
    let cur = &parts[parts.len() - 1];
    let mut vw: u128 = 0;
    let mut q: usize = 0;
    while q < cur.len()
        invariant
            0 <= q <= cur@.len(),
            vw == cols_sum(cur@.take(q as int)),
            vw <= 3 * q,
        decreases cur@.len() - q,
    {
        proof {
            assert(cur@.take(q + 1).drop_last() =~= cur@.take(q as int));
        }
        vw = vw + crate::util::char_cols(cur[q]) as u128;
        q = q + 1;
    }
    proof {
        assert(cur@.take(cur@.len() as int) =~= cur@);
    }
    let lw = display_width(string_of(label_chars(f, true).as_slice()).as_str());
    let x = (lw as u128 + vw) as u16;
    let xm: u16 = if width > 1 { width - 1 } else { 0 };
    let fy: u16 = {
        let s16 = start as u16;
        if cut < s16 as usize { s16 - cut as u16 } else { 0 }
    };
    let y: u32 = fy as u32 + line_idx as u32;
    let ym: u16 = if height > 1 { height - 1 } else { 0 };
    let cx = if x < xm { x } else { xm };
    let cy = if y < ym as u32 { y as u16 } else { ym };
    (out, (cx, cy))
}

} // verus!
