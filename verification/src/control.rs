//! The decisions of the event loop: where a key press goes and what it
//! does in each area, what a submitted form or input asks for, and what a
//! reply, a model list or a finished generation leads to. The front end
//! carries out the storage, network and clipboard work these decisions name.
use vstd::prelude::*;

use crate::app::{
    chat_history, effective_system_prompt, has_credentials, history_of, next_message, non_blank, prev_message,
    provider_has_credentials, sidebar_down, sidebar_up,
};
use crate::config::{first_named, overridden, Config, Provider};
use crate::llm::ChatMessage;
use crate::model::{Message, Role, Session};
use crate::commands::{parse_slash, slash_action, Action};
use crate::input::{
    after_backspace, after_char, after_delete, after_down, after_end, after_left, after_newline, after_right,
    after_up, input_wf, InputState, InputView,
};
use crate::paste::Key;
use crate::state::{
    focus_after, ChatView, Focus, FormField, FormPurpose, FormState, PaletteItem, PaletteKind, PaletteState,
};
use crate::util::{trim, truncate_by_width, truncated};
use crate::util::{chars_of, push_all, string_of};

verus! {

// ---------------------------------------------------------------------------
// Keys
// ---------------------------------------------------------------------------

/// The key of a key press, as the interface tells keys apart.
#[derive(Debug, Clone, Copy, PartialEq, Eq, Structural)]
pub enum KeyCode {
    Char(char),
    Enter,
    Esc,
    Tab,
    Backspace,
    Delete,
    Left,
    Right,
    Up,
    Down,
    Home,
    End,
    Other,
}

/// A key press with the modifiers held.
#[derive(Debug, Clone, Copy, PartialEq, Eq, Structural)]
pub struct KeyPress {
    pub code: KeyCode,
    pub ctrl: bool,
    pub alt: bool,
    pub shift: bool,
}

/// The key as the paste reassembly sees it.
pub open spec fn paste_key_of(code: KeyCode) -> Key {
    match code {
        KeyCode::Char(c) => Key::Char(c),
        KeyCode::Esc => Key::Esc,
        KeyCode::Enter => Key::Enter,
        _ => Key::Other,
    }
}

impl KeyPress {
    /// The key as the paste reassembly sees it.
    pub fn paste_key(&self) -> (k: Key)
        ensures
            k == paste_key_of(self.code),
    {
        match self.code {
            KeyCode::Char(c) => Key::Char(c),
            KeyCode::Esc => Key::Esc,
            KeyCode::Enter => Key::Enter,
            _ => Key::Other,
        }
    }
}

// ---------------------------------------------------------------------------
// Routing
// ---------------------------------------------------------------------------

/// Where a key press goes.
#[derive(Debug, Clone, Copy, PartialEq, Eq, Structural)]
pub enum KeyRoute {
    /// First Ctrl+C: a second one soon after quits.
    ArmQuit,
    Quit,
    PasteClipboard,
    Regenerate,
    Ignore,
    Form,
    Palette,
    CloseHelp,
    /// Tab: the next area takes the focus.
    CycleFocus,
    /// Esc: stop the reply under way, else back to the input box.
    Escape,
    Input,
    Chat,
    Sidebar,
}

/// Where a key press goes: Ctrl combinations first, then the open form,
/// the open palette, the help screen, Tab and Esc, then the focused area.
/// `ctrlc_recent`: a Ctrl+C came less than 1.5 s ago.
pub open spec fn key_route(
    key: KeyPress,
    form_open: bool,
    palette_open: bool,
    show_help: bool,
    focus: Focus,
    ctrlc_recent: bool,
) -> KeyRoute {
    if key.ctrl {
        match key.code {
            KeyCode::Char(c) => if c == 'c' {
                if ctrlc_recent { KeyRoute::Quit } else { KeyRoute::ArmQuit }
            } else if c == 'd' {
                KeyRoute::Quit
            } else if c == 'v' {
                KeyRoute::PasteClipboard
            } else if c == 'r' {
                KeyRoute::Regenerate
            } else {
                KeyRoute::Ignore
            },
            _ => KeyRoute::Ignore,
        }
    } else if form_open {
        KeyRoute::Form
    } else if palette_open {
        KeyRoute::Palette
    } else if show_help {
        if key.code == KeyCode::Esc || key.code == KeyCode::Char('?') || key.code == KeyCode::Char('q') {
            KeyRoute::CloseHelp
        } else {
            KeyRoute::Ignore
        }
    } else if key.code == KeyCode::Tab {
        KeyRoute::CycleFocus
    } else if key.code == KeyCode::Esc {
        KeyRoute::Escape
    } else {
        match focus {
            Focus::Input => KeyRoute::Input,
            Focus::Chat => KeyRoute::Chat,
            Focus::Sidebar => KeyRoute::Sidebar,
        }
    }
}

/// Where a key press goes.
pub fn route_key(
    key: KeyPress,
    form_open: bool,
    palette_open: bool,
    show_help: bool,
    focus: Focus,
    ctrlc_recent: bool,
) -> (r: KeyRoute)
    ensures
        r == key_route(key, form_open, palette_open, show_help, focus, ctrlc_recent),
{
    if key.ctrl {
        return match key.code {
            KeyCode::Char(c) => if c == 'c' {
                if ctrlc_recent { KeyRoute::Quit } else { KeyRoute::ArmQuit }
            } else if c == 'd' {
                KeyRoute::Quit
            } else if c == 'v' {
                KeyRoute::PasteClipboard
            } else if c == 'r' {
                KeyRoute::Regenerate
            } else {
                KeyRoute::Ignore
            },
            _ => KeyRoute::Ignore,
        };
    }
    if form_open {
        return KeyRoute::Form;
    }
    if palette_open {
        return KeyRoute::Palette;
    }
    if show_help {
        return match key.code {
            KeyCode::Esc | KeyCode::Char('?') | KeyCode::Char('q') => KeyRoute::CloseHelp,
            _ => KeyRoute::Ignore,
        };
    }
    match key.code {
        KeyCode::Tab => KeyRoute::CycleFocus,
        KeyCode::Esc => KeyRoute::Escape,
        _ => match focus {
            Focus::Input => KeyRoute::Input,
            Focus::Chat => KeyRoute::Chat,
            Focus::Sidebar => KeyRoute::Sidebar,
        },
    }
}

/// The selections after Tab moves the focus from `focus`: the sidebar
/// selects the current session (the first when none), the message area the
/// last message (none when there is no message).
pub open spec fn tab_result(focus: Focus, current: Option<usize>, n_messages: usize) -> (Focus, Option<usize>, Option<Option<usize>>) {
    let f = focus_after(focus);
    if f == Focus::Sidebar {
        (f, Some(match current { Some(c) => c, None => 0 }), None)
    } else if f == Focus::Chat {
        (f, None, Some(if n_messages == 0 { None } else { Some((n_messages - 1) as usize) }))
    } else {
        (f, None, None)
    }
}

/// Tab: the next area, with the sidebar selection (when the sidebar takes
/// the focus) and the message selection (when the message area does) to set.
pub fn tab_focus(focus: Focus, current: Option<usize>, n_messages: usize) -> (r: (Focus, Option<usize>, Option<Option<usize>>))
    ensures
        r == tab_result(focus, current, n_messages),
{
    let f = focus.next();
    match f {
        Focus::Sidebar => (f, Some(match current { Some(c) => c, None => 0 }), None),
        Focus::Chat => (f, None, Some(if n_messages == 0 { None } else { Some(n_messages - 1) })),
        Focus::Input => (f, None, None),
    }
}

// ---------------------------------------------------------------------------
// The input box
// ---------------------------------------------------------------------------

/// What a key press in the input box leads to.
#[derive(Debug, Clone, Copy, PartialEq, Eq, Structural)]
pub enum InputOutcome {
    /// Enter: the text is to be submitted.
    Submit,
    /// `/` in an empty box: the command palette opens.
    OpenPalette,
    /// `?` in an empty box: the help screen opens.
    ShowHelp,
    /// The box was edited, or the key did nothing.
    Handled,
}

/// Whether every line is empty.
pub open spec fn input_empty(v: InputView) -> bool {
    forall|k: int| 0 <= k < v.lines.len() ==> #[trigger] v.lines[k].len() == 0
}

/// What a key press in the input box leads to (before any editing).
pub open spec fn input_outcome(v: InputView, key: KeyPress) -> InputOutcome {
    match key.code {
        KeyCode::Enter => if key.shift || key.alt { InputOutcome::Handled } else { InputOutcome::Submit },
        KeyCode::Char(c) => if !key.ctrl && !key.alt && input_empty(v) && c == '/' {
            InputOutcome::OpenPalette
        } else if !key.ctrl && !key.alt && input_empty(v) && c == '?' {
            InputOutcome::ShowHelp
        } else {
            InputOutcome::Handled
        },
        _ => InputOutcome::Handled,
    }
}

/// The content of the input box after a key press.
pub open spec fn input_after(v: InputView, key: KeyPress) -> InputView {
    match key.code {
        KeyCode::Enter => if key.shift || key.alt { after_newline(v) } else { v },
        KeyCode::Char(c) => if key.ctrl || key.alt || (input_empty(v) && (c == '/' || c == '?')) || v.cx
            >= usize::MAX {
            v
        } else {
            after_char(v, c)
        },
        KeyCode::Backspace => after_backspace(v),
        KeyCode::Delete => after_delete(v),
        KeyCode::Left => after_left(v),
        KeyCode::Right => after_right(v),
        KeyCode::Home => InputView { cx: 0, ..v },
        KeyCode::End => after_end(v),
        KeyCode::Up => after_up(v),
        KeyCode::Down => after_down(v),
        _ => v,
    }
}

impl InputState {
    /// A key press in the input box: Shift/Alt+Enter breaks the line, Enter
    /// submits, a character is typed (`/` and `?` in an empty box open the
    /// palette and the help instead; characters with Ctrl or Alt are
    /// ignored), and the editing and movement keys act on the text.
    pub fn on_key(&mut self, key: KeyPress) -> (r: InputOutcome)
        requires
            input_wf(old(self)@),
        ensures
            input_wf(final(self)@),
            r == input_outcome(old(self)@, key),
            final(self)@ == input_after(old(self)@, key),
    {
        match key.code {
            KeyCode::Enter => {
                if key.shift || key.alt {
                    self.newline();
                    InputOutcome::Handled
                } else {
                    InputOutcome::Submit
                }
            },
            KeyCode::Char(c) => {
                if key.ctrl || key.alt {
                    return InputOutcome::Handled;
                }
                if self.is_empty() {
                    if c == '/' {
                        return InputOutcome::OpenPalette;
                    }
                    if c == '?' {
                        return InputOutcome::ShowHelp;
                    }
                }
                if self.cx < usize::MAX {
                    self.insert_char(c);
                }
                InputOutcome::Handled
            },
            KeyCode::Backspace => {
                self.backspace();
                InputOutcome::Handled
            },
            KeyCode::Delete => {
                self.delete();
                InputOutcome::Handled
            },
            KeyCode::Left => {
                self.left();
                InputOutcome::Handled
            },
            KeyCode::Right => {
                self.right();
                InputOutcome::Handled
            },
            KeyCode::Home => {
                self.home();
                InputOutcome::Handled
            },
            KeyCode::End => {
                self.end();
                InputOutcome::Handled
            },
            KeyCode::Up => {
                self.up();
                InputOutcome::Handled
            },
            KeyCode::Down => {
                self.down();
                InputOutcome::Handled
            },
            _ => InputOutcome::Handled,
        }
    }
}

// ---------------------------------------------------------------------------
// Submitted text
// ---------------------------------------------------------------------------

/// What a submitted text is.
#[derive(Debug, PartialEq)]
pub enum Submission {
    /// A known slash command.
    Command(Action),
    /// A line that starts with `/` but names no command: the notice to show.
    Unknown(String),
    /// A message to send.
    Message(String),
}

/// The notice for an unknown command.
pub open spec fn unknown_notice(text: Seq<char>) -> Seq<char> {
    "未知命令 "@ + crate::util::trim(text) + "（? 查看帮助）"@
}

/// Sorts a submitted text into a command, an unknown command, or a message.
pub fn classify_submission(text: &str) -> (r: Submission)
    ensures
        (text@.len() > 0 && text@[0] == '/' && !text@.contains('\n')) ==> match slash_action(text@) {
            Some(a) => r == Submission::Command(a),
            None => (r matches Submission::Unknown(n) && n@ == unknown_notice(text@)),
        },
        !(text@.len() > 0 && text@[0] == '/' && !text@.contains('\n')) ==> (r matches Submission::Message(m) && m@
            == text@),
{
    let cs = chars_of(text);
    let mut has_newline = false;
    let mut i: usize = 0;
    while i < cs.len()
        invariant
            0 <= i <= cs@.len(),
            cs@ == text@,
            has_newline == exists|j: int| 0 <= j < i && cs@[j] == '\n',
        decreases cs@.len() - i,
    {
        if cs[i] == '\n' {
            has_newline = true;
        }
        i = i + 1;
    }
    proof {
        if text@.contains('\n') {
            let j = choose|j: int| 0 <= j < text@.len() && text@[j] == '\n';
            assert(cs@[j] == '\n');
        }
        if has_newline {
            let j = choose|j: int| 0 <= j < cs@.len() && cs@[j] == '\n';
            assert(text@[j] == '\n');
        }
    }
    if cs.len() > 0 && cs[0] == '/' && !has_newline {
        match parse_slash(text) {
            Some(a) => Submission::Command(a),
            None => {
                let mut n = chars_of("未知命令 ");
                let t = crate::util::trim_string(text);
                crate::util::push_all(&mut n, chars_of(t.as_str()).as_slice());
                crate::util::push_all(&mut n, chars_of("（? 查看帮助）").as_slice());
                Submission::Unknown(string_of(n.as_slice()))
            },
        }
    } else {
        Submission::Message(string_of(cs.as_slice()))
    }
}

// ---------------------------------------------------------------------------
// The message area and the sidebar
// ---------------------------------------------------------------------------

/// What a key press in the message area does.
#[derive(Debug, Clone, Copy, PartialEq, Eq, Structural)]
pub enum ChatKey {
    /// Select this message and scroll it into view.
    Select(Option<usize>),
    /// Select the last message and follow the bottom.
    SelectLast(usize),
    CopyCode,
    Edit,
    /// First `d`: a second one deletes.
    ArmDelete,
    Delete,
    Nothing,
}

/// What a key press in the message area does (`n` messages, `confirm`: a
/// `d` came just before), and whether a `d` is then pending.
pub open spec fn chat_key_result(code: KeyCode, sel: Option<usize>, n: usize, confirm: bool) -> (ChatKey, bool) {
    match code {
        KeyCode::Char('j') | KeyCode::Down => (ChatKey::Select(match sel {
            None => Some(0usize),
            Some(i) => if n > 0 { Some(((i + 1) % (n as int)) as usize) } else { Some(i) },
        }), false),
        KeyCode::Char('k') | KeyCode::Up => (ChatKey::Select(match sel {
            None => if n > 0 { Some((n - 1) as usize) } else { None },
            Some(i) => if i == 0 { Some((n - 1) as usize) } else { Some((i - 1) as usize) },
        }), false),
        KeyCode::Char('g') => (if n > 0 { ChatKey::Select(Some(0usize)) } else { ChatKey::Nothing }, false),
        KeyCode::Char('G') => (if n > 0 { ChatKey::SelectLast((n - 1) as usize) } else { ChatKey::Nothing }, false),
        KeyCode::Char('c') => (ChatKey::CopyCode, false),
        KeyCode::Char('e') => (ChatKey::Edit, false),
        KeyCode::Char('d') => if confirm { (ChatKey::Delete, false) } else { (ChatKey::ArmDelete, true) },
        _ => (ChatKey::Nothing, false),
    }
}

/// A key press in the message area: `j`/`k` and the arrows move the
/// selection round the messages, `g`/`G` jump to the first and last, `c`
/// copies code, `e` edits, `d` twice deletes.
pub fn chat_key(code: KeyCode, sel: Option<usize>, n: usize, confirm: bool) -> (r: (ChatKey, bool))
    requires
        (code == KeyCode::Char('k') || code == KeyCode::Up) ==> !(sel == Some(0usize) && n == 0),
    ensures
        r == chat_key_result(code, sel, n, confirm),
{
    match code {
        KeyCode::Char('j') | KeyCode::Down => (ChatKey::Select(next_message(sel, n)), false),
        KeyCode::Char('k') | KeyCode::Up => (ChatKey::Select(prev_message(sel, n)), false),
        KeyCode::Char('g') => (if n > 0 { ChatKey::Select(Some(0usize)) } else { ChatKey::Nothing }, false),
        KeyCode::Char('G') => (if n > 0 { ChatKey::SelectLast(n - 1) } else { ChatKey::Nothing }, false),
        KeyCode::Char('c') => (ChatKey::CopyCode, false),
        KeyCode::Char('e') => (ChatKey::Edit, false),
        KeyCode::Char('d') => if confirm { (ChatKey::Delete, false) } else { (ChatKey::ArmDelete, true) },
        _ => (ChatKey::Nothing, false),
    }
}

/// What a key press in the sidebar does.
#[derive(Debug, Clone, Copy, PartialEq, Eq, Structural)]
pub enum SidebarKey {
    /// Move the selection here.
    Move(usize),
    /// Open the selected session.
    Open(usize),
    New,
    /// Rename the selected session.
    Rename(usize),
    ArmDelete,
    Delete,
    Nothing,
}

/// What a key press in the sidebar does (`n` sessions, `sel` selected,
/// `confirm`: a `d` came just before), and whether a `d` is then pending.
pub open spec fn sidebar_key_result(code: KeyCode, sel: usize, n: usize, confirm: bool) -> (SidebarKey, bool) {
    match code {
        KeyCode::Char('j') | KeyCode::Down => (if n > 0 {
            SidebarKey::Move(((sel + 1) % (n as int)) as usize)
        } else {
            SidebarKey::Nothing
        }, false),
        KeyCode::Char('k') | KeyCode::Up => (if n > 0 {
            SidebarKey::Move(if sel == 0 { (n - 1) as usize } else { (sel - 1) as usize })
        } else {
            SidebarKey::Nothing
        }, false),
        KeyCode::Enter => (SidebarKey::Open(sel), false),
        KeyCode::Char('n') => (SidebarKey::New, false),
        KeyCode::Char('r') => (if sel < n { SidebarKey::Rename(sel) } else { SidebarKey::Nothing }, false),
        KeyCode::Char('d') => if confirm { (SidebarKey::Delete, false) } else { (SidebarKey::ArmDelete, true) },
        _ => (SidebarKey::Nothing, false),
    }
}

/// A key press in the sidebar: `j`/`k` and the arrows move round the
/// sessions, Enter opens, `n` creates, `r` renames, `d` twice deletes.
pub fn sidebar_key(code: KeyCode, sel: usize, n: usize, confirm: bool) -> (r: (SidebarKey, bool))
    ensures
        r == sidebar_key_result(code, sel, n, confirm),
{
    match code {
        KeyCode::Char('j') | KeyCode::Down => (if n > 0 {
            SidebarKey::Move(sidebar_down(sel, n))
        } else {
            SidebarKey::Nothing
        }, false),
        KeyCode::Char('k') | KeyCode::Up => (if n > 0 {
            SidebarKey::Move(sidebar_up(sel, n))
        } else {
            SidebarKey::Nothing
        }, false),
        KeyCode::Enter => (SidebarKey::Open(sel), false),
        KeyCode::Char('n') => (SidebarKey::New, false),
        KeyCode::Char('r') => (if sel < n { SidebarKey::Rename(sel) } else { SidebarKey::Nothing }, false),
        KeyCode::Char('d') => if confirm { (SidebarKey::Delete, false) } else { (SidebarKey::ArmDelete, true) },
        _ => (SidebarKey::Nothing, false),
    }
}

// ---------------------------------------------------------------------------
// The palette
// ---------------------------------------------------------------------------

/// What a key press in the palette leads to.
#[derive(Debug, PartialEq)]
pub enum PaletteOutcome {
    /// The palette stays open.
    Stay,
    /// The palette closes with nothing chosen.
    Close,
    /// `f` in the model palette: star or unstar the selected model.
    ToggleFavorite,
    /// The palette closes and the action runs.
    Run(Action),
    /// The palette closes and the provider's edit form opens.
    EditProvider(String),
}

/// What choosing an entry means in each palette.
pub open spec fn palette_choice(kind: PaletteKind, item: PaletteItem) -> PaletteOutcome {
    match kind {
        PaletteKind::Commands => PaletteOutcome::Run(item.action),
        PaletteKind::Models => PaletteOutcome::Run(Action::SetModel(item.label)),
        PaletteKind::ProvidersEdit => PaletteOutcome::EditProvider(item.label),
        PaletteKind::ProvidersDelete => PaletteOutcome::Run(Action::RemoveProvider(item.label)),
        PaletteKind::ProvidersSwitch => PaletteOutcome::Run(Action::SwitchProvider(item.label)),
    }
}

/// What a key press in the palette leads to.
pub open spec fn palette_outcome(p: PaletteState, key: KeyPress, kind: PaletteKind) -> PaletteOutcome {
    match key.code {
        KeyCode::Esc => PaletteOutcome::Close,
        KeyCode::Char(c) => if !key.ctrl && !key.alt && c == 'f' && kind == PaletteKind::Models {
            PaletteOutcome::ToggleFavorite
        } else {
            PaletteOutcome::Stay
        },
        KeyCode::Enter => if p.selected < p.visible@.len() {
            palette_choice(kind, p.visible@[p.selected as int])
        } else {
            PaletteOutcome::Close
        },
        _ => PaletteOutcome::Stay,
    }
}

/// The filter text after a key press (typed characters are added,
/// Backspace takes the last one off), `None` when the filter is untouched.
pub open spec fn filter_after(filter: Seq<char>, key: KeyPress, kind: PaletteKind) -> Option<Seq<char>> {
    match key.code {
        KeyCode::Backspace => Some(if filter.len() > 0 { filter.drop_last() } else { filter }),
        KeyCode::Char(c) => if key.ctrl || key.alt || (c == 'f' && kind == PaletteKind::Models) {
            None
        } else {
            Some(filter.push(c))
        },
        _ => None,
    }
}

/// Backspace in the palette takes exactly the last character off the
/// filter: what is left, followed by the character taken, is the old
/// filter. On an empty filter it leaves the filter empty.
pub proof fn lemma_palette_backspace_drops_last(f: Seq<char>, key: KeyPress, kind: PaletteKind)
    requires
        key.code == KeyCode::Backspace,
    ensures
        filter_after(f, key, kind) is Some,
        f.len() > 0 ==> ({
            let g = filter_after(f, key, kind)->0;
            g.len() + 1 == f.len() && g.push(f.last()) == f
        }),
        f.len() == 0 ==> filter_after(f, key, kind) == Some(f),
{
    if f.len() > 0 {
        assert(f.drop_last().push(f.last()) =~= f);
    }
}

/// A character typed into the palette filter and then Backspace give the
/// filter back as it was.
pub proof fn lemma_palette_type_then_backspace(
    f: Seq<char>,
    typed: KeyPress,
    back: KeyPress,
    kind: PaletteKind,
)
    requires
        typed.code is Char,
        filter_after(f, typed, kind) is Some,
        back.code == KeyCode::Backspace,
    ensures
        filter_after(f, typed, kind)->0.len() == f.len() + 1,
        filter_after(filter_after(f, typed, kind)->0, back, kind) == Some(f),
{
    let g = filter_after(f, typed, kind)->0;
    assert(g.drop_last() =~= f);
}

impl PaletteState {
    /// A key press in the palette: Esc closes it, the arrows move the
    /// selection round the entries, typed characters and Backspace edit the
    /// filter (which filters the entries again), `f` stars a model in the
    /// model palette, Enter chooses the selected entry.
    pub fn on_key(&mut self, key: KeyPress, kind: PaletteKind) -> (r: PaletteOutcome)
        ensures
            r == palette_outcome(*old(self), key, kind),
            final(self).items == old(self).items,
            match filter_after(old(self).filter@, key, kind) {
                Some(f) => {
                    &&& final(self).filter@ == f
                    &&& final(self).visible@ == crate::state::filtered(old(self).items@, f)
                    &&& final(self).selected == crate::state::reselected(
                        old(self).visible@,
                        old(self).selected as int,
                        final(self).visible@,
                    )
                },
                None => {
                    &&& final(self).filter == old(self).filter
                    &&& final(self).visible == old(self).visible
                    &&& key.code == KeyCode::Up && old(self).visible@.len() > 0 ==> final(self).selected == if old(
                        self,
                    ).selected == 0 {
                        old(self).visible@.len() - 1
                    } else {
                        old(self).selected - 1
                    }
                    &&& key.code == KeyCode::Down && old(self).visible@.len() > 0 ==> final(self).selected == (
                    old(self).selected as int % old(self).visible@.len() as int + 1) % old(self).visible@.len() as int
                    &&& !((key.code == KeyCode::Up || key.code == KeyCode::Down) && old(self).visible@.len() > 0)
                        ==> final(self).selected == old(self).selected
                },
            },
    {
        match key.code {
            KeyCode::Esc => PaletteOutcome::Close,
            KeyCode::Up => {
                self.move_up();
                PaletteOutcome::Stay
            },
            KeyCode::Down => {
                if self.visible.len() > 0 {
                    self.selected = self.selected % self.visible.len();
                    self.move_down();
                }
                PaletteOutcome::Stay
            },
            KeyCode::Backspace => {
                let mut cs = chars_of(self.filter.as_str());
                cs.pop();
                self.filter = string_of(cs.as_slice());
                self.refilter();
                PaletteOutcome::Stay
            },
            KeyCode::Char(c) => {
                if key.ctrl || key.alt {
                    return PaletteOutcome::Stay;
                }
                if c == 'f' && kind == PaletteKind::Models {
                    return PaletteOutcome::ToggleFavorite;
                }
                let mut cs = chars_of(self.filter.as_str());
                cs.push(c);
                self.filter = string_of(cs.as_slice());
                self.refilter();
                PaletteOutcome::Stay
            },
            KeyCode::Enter => {
                if self.selected < self.visible.len() {
                    let item = &self.visible[self.selected];
                    match kind {
                        PaletteKind::Commands => PaletteOutcome::Run(item.action.clone()),
                        PaletteKind::Models => PaletteOutcome::Run(Action::SetModel(item.label.clone())),
                        PaletteKind::ProvidersEdit => PaletteOutcome::EditProvider(item.label.clone()),
                        PaletteKind::ProvidersDelete => PaletteOutcome::Run(Action::RemoveProvider(item.label.clone())),
                        PaletteKind::ProvidersSwitch => PaletteOutcome::Run(Action::SwitchProvider(item.label.clone())),
                    }
                } else {
                    PaletteOutcome::Close
                }
            },
            _ => PaletteOutcome::Stay,
        }
    }

    /// Marks every entry labelled `label` as starred or not (the entries and
    /// the visible entries alike).
    pub fn set_starred(&mut self, label: &str, starred: bool)
        ensures
            final(self).filter == old(self).filter,
            final(self).selected == old(self).selected,
            final(self).items@.len() == old(self).items@.len(),
            final(self).visible@.len() == old(self).visible@.len(),
            forall|k: int| 0 <= k < old(self).items@.len() ==> #[trigger] final(self).items@[k] == (if old(self).items@[k].label@
                == label@ { PaletteItem { starred, ..old(self).items@[k] } } else { old(self).items@[k] }),
            forall|k: int| 0 <= k < old(self).visible@.len() ==> #[trigger] final(self).visible@[k] == (if old(
                self,
            ).visible@[k].label@ == label@ { PaletteItem { starred, ..old(self).visible@[k] } } else { old(self).visible@[k] }),
    {
        let mut items: Vec<PaletteItem> = Vec::new();
        std::mem::swap(&mut items, &mut self.items);
        self.items = starred_items(items, label, starred);
        let mut visible: Vec<PaletteItem> = Vec::new();
        std::mem::swap(&mut visible, &mut self.visible);
        self.visible = starred_items(visible, label, starred);
    }
}

/// The entries with those labelled `label` starred or not.
fn starred_items(items: Vec<PaletteItem>, label: &str, starred: bool) -> (r: Vec<PaletteItem>)
    ensures
        r@.len() == items@.len(),
        forall|k: int| 0 <= k < items@.len() ==> #[trigger] r@[k] == (if items@[k].label@ == label@ {
            PaletteItem { starred, ..items@[k] }
        } else {
            items@[k]
        }),
{
    let mut out: Vec<PaletteItem> = Vec::new();
    let mut i: usize = 0;
    while i < items.len()
        invariant
            0 <= i <= items@.len(),
            out@.len() == i,
            forall|k: int| 0 <= k < i ==> #[trigger] out@[k] == (if items@[k].label@ == label@ {
                PaletteItem { starred, ..items@[k] }
            } else {
                items@[k]
            }),
        decreases items@.len() - i,
    {
        let mut it = items[i].clone_item();
        if crate::util::str_eq(it.label.as_str(), label) {
            it.starred = starred;
        }
        out.push(it);
        i = i + 1;
    }
    out
}

// ---------------------------------------------------------------------------
// Forms
// ---------------------------------------------------------------------------

/// A form in a usable state: a current field, every cursor within its value.
pub open spec fn form_wf(f: FormState) -> bool {
    &&& f.fields@.len() > 0
    &&& f.idx < f.fields@.len()
    &&& forall|k: int| 0 <= k < f.fields@.len() ==> #[trigger] f.fields@[k].cx <= f.fields@[k].value@.len()
}

/// What a key press in a form leads to.
#[derive(Debug, Clone, Copy, PartialEq, Eq, Structural)]
pub enum FormOutcome {
    Stay,
    /// Esc: the form closes.
    Close,
    /// Enter: the form is submitted.
    Submit,
}

/// Whether a key press breaks the line in a form of `n` fields (Shift/Alt+
/// Enter in a single-field form).
pub open spec fn form_newline(key: KeyPress, n: nat) -> bool {
    key.code == KeyCode::Enter && (key.shift || key.alt) && n == 1
}

/// What a key press in a form leads to.
pub open spec fn form_outcome(key: KeyPress, n: nat) -> FormOutcome {
    match key.code {
        KeyCode::Esc => FormOutcome::Close,
        KeyCode::Enter => if form_newline(key, n) { FormOutcome::Stay } else { FormOutcome::Submit },
        _ => FormOutcome::Stay,
    }
}

/// The value and cursor of the current field after a key press.
pub open spec fn field_after(f: FormField, key: KeyPress, n: nat) -> (Seq<char>, int) {
    let len = f.value@.len() as int;
    if form_newline(key, n) {
        if f.cx < usize::MAX { crate::state::field_inserted(f, seq!['\n']) } else { (f.value@, f.cx as int) }
    } else {
        match key.code {
            KeyCode::Char(c) => if !key.ctrl && !key.alt && f.cx < usize::MAX {
                crate::state::field_inserted(f, seq![c])
            } else {
                (f.value@, f.cx as int)
            },
            KeyCode::Backspace => if f.cx > 0 { (f.value@.remove(f.cx - 1), f.cx - 1) } else { (f.value@, f.cx as int) },
            KeyCode::Left => (f.value@, if f.cx > 0 { f.cx - 1 } else { 0 }),
            KeyCode::Right => (f.value@, if f.cx + 1 < len { f.cx + 1 } else { len }),
            _ => (f.value@, f.cx as int),
        }
    }
}

impl FormState {
    /// A key press in a form: Esc closes it, Tab moves to the next field,
    /// Enter submits (Shift/Alt+Enter breaks the line of a single-field
    /// form), and the other keys edit the current field or move its cursor.
    pub fn on_key(&mut self, key: KeyPress) -> (r: FormOutcome)
        requires
            form_wf(*old(self)),
        ensures
            form_wf(*final(self)),
            r == form_outcome(key, old(self).fields@.len()),
            final(self).purpose == old(self).purpose,
            final(self).title == old(self).title,
            final(self).fields@.len() == old(self).fields@.len(),
            final(self).idx == if key.code == KeyCode::Tab {
                ((old(self).idx + 1) % (old(self).fields@.len() as int)) as usize
            } else {
                old(self).idx
            },
            forall|k: int| 0 <= k < old(self).fields@.len() && k != old(self).idx ==> #[trigger] final(self).fields@[k]
                == old(self).fields@[k],
            ({
                let f = old(self).fields@[old(self).idx as int];
                let g = final(self).fields@[old(self).idx as int];
                &&& (g.value@, g.cx as int) == field_after(f, key, old(self).fields@.len())
                &&& g.label == f.label
                &&& g.secret == f.secret
            }),
    {
        let n = self.fields.len();
        let ghost f0 = self.fields@[self.idx as int];
        match key.code {
            KeyCode::Esc => FormOutcome::Close,
            KeyCode::Tab => {
                self.next_field();
                FormOutcome::Stay
            },
            KeyCode::Enter => {
                if (key.shift || key.alt) && n == 1 {
                    if self.fields[self.idx].cx < usize::MAX {
                        self.newline();
                    }
                    FormOutcome::Stay
                } else {
                    FormOutcome::Submit
                }
            },
            KeyCode::Backspace => {
                self.backspace();
                FormOutcome::Stay
            },
            KeyCode::Left => {
                self.cursor_to(if self.fields[self.idx].cx > 0 { self.fields[self.idx].cx - 1 } else { 0 });
                FormOutcome::Stay
            },
            KeyCode::Right => {
                let len = chars_of(self.fields[self.idx].value.as_str()).len();
                let cx = self.fields[self.idx].cx;
                self.cursor_to(if cx < len && cx + 1 < len { cx + 1 } else { len });
                FormOutcome::Stay
            },
            KeyCode::Char(c) => {
                if !key.ctrl && !key.alt && self.fields[self.idx].cx < usize::MAX {
                    self.insert_char(c);
                }
                FormOutcome::Stay
            },
            _ => FormOutcome::Stay,
        }
    }

    /// Puts the cursor of the current field at `cx`.
    fn cursor_to(&mut self, cx: usize)
        requires
            old(self).idx < old(self).fields@.len(),
        ensures
            final(self).idx == old(self).idx,
            final(self).purpose == old(self).purpose,
            final(self).title == old(self).title,
            final(self).fields@.len() == old(self).fields@.len(),
            forall|k: int| 0 <= k < old(self).fields@.len() && k != old(self).idx ==> #[trigger] final(self).fields@[k]
                == old(self).fields@[k],
            final(self).fields@[old(self).idx as int] == (FormField { cx, ..old(self).fields@[old(self).idx as int] }),
    {
        let i = self.idx;
        let f = FormField {
            label: self.fields[i].label.clone(),
            value: self.fields[i].value.clone(),
            cx,
            secret: self.fields[i].secret,
        };
        self.fields.set(i, f);
    }
}

// ---------------------------------------------------------------------------
// Submitted forms
// ---------------------------------------------------------------------------

/// What a submitted form asks for.
#[derive(Debug, PartialEq)]
pub enum FormPlan {
    /// The form stays open with this error notice.
    Invalid(String),
    /// Add a provider (values trimmed).
    AddProvider { name: String, base_url: String, api_key: String, model: String },
    /// Apply the edit form to the provider `orig`.
    EditProvider { orig: String, new_name: String, base_url: String, api_key: String, model: String },
    Rename { session_id: i64, title: String },
    /// Set a session's system prompt (`None` clears it).
    SystemPrompt { session_id: i64, prompt: Option<String> },
    /// Change a message's text; after a user message, the later messages go
    /// and a new reply is requested.
    EditMessage { message_id: i64, regenerate: bool, content: String },
}

/// Whether a form has the fields its purpose reads.
pub open spec fn form_shaped(f: FormState) -> bool {
    if f.purpose is ProviderAdd || f.purpose is ProviderEdit {
        f.fields@.len() >= 4
    } else {
        f.fields@.len() >= 1
    }
}

/// The trimmed value of field `i`.
pub open spec fn fval(f: FormState, i: int) -> Seq<char> {
    trim(f.fields@[i].value@)
}

/// The notice for a duplicate provider name.
pub open spec fn duplicate_notice(name: Seq<char>) -> Seq<char> {
    "提供商 "@ + name + " 已存在"@
}

/// What a submitted form asks for: provider forms need a name and a base
/// address, a new provider a name not yet taken, a title and a message
/// text must not be empty; the values are trimmed.
pub open spec fn form_plan_ok(f: FormState, c: Config, r: FormPlan) -> bool {
    match f.purpose {
        FormPurpose::ProviderAdd => if fval(f, 0).len() == 0 || fval(f, 1).len() == 0 {
            r matches FormPlan::Invalid(m) && m@ == "名称与 Base URL 不能为空"@
        } else if exists|i: int| 0 <= i < c.providers@.len() && c.providers@[i].name@ == fval(f, 0) {
            r matches FormPlan::Invalid(m) && m@ == duplicate_notice(fval(f, 0))
        } else {
            r matches FormPlan::AddProvider { name, base_url, api_key, model } && name@ == fval(f, 0) && base_url@ == fval(
                f,
                1,
            ) && api_key@ == fval(f, 2) && model@ == fval(f, 3)
        },
        FormPurpose::ProviderEdit { name: orig } => if fval(f, 0).len() == 0 || fval(f, 1).len() == 0 {
            r matches FormPlan::Invalid(m) && m@ == "名称与 Base URL 不能为空"@
        } else {
            r matches FormPlan::EditProvider { orig: o, new_name, base_url, api_key, model } && o == orig && new_name@
                == fval(f, 0) && base_url@ == fval(f, 1) && api_key@ == fval(f, 2) && model@ == fval(f, 3)
        },
        FormPurpose::RenameSession { session_id } => if fval(f, 0).len() == 0 {
            r matches FormPlan::Invalid(m) && m@ == "标题不能为空"@
        } else {
            r matches FormPlan::Rename { session_id: id, title } && id == session_id && title@ == fval(f, 0)
        },
        FormPurpose::SystemPrompt { session_id } => r matches FormPlan::SystemPrompt { session_id: id, prompt } && id
            == session_id && crate::llm::opt_view(prompt) == if fval(f, 0).len() == 0 {
            None
        } else {
            Some(fval(f, 0))
        },
        FormPurpose::EditMessage { message_id, regenerate } => if fval(f, 0).len() == 0 {
            r matches FormPlan::Invalid(m) && m@ == "内容不能为空"@
        } else {
            r matches FormPlan::EditMessage { message_id: id, regenerate: g, content } && id == message_id && g
                == regenerate && content@ == fval(f, 0)
        },
    }
}

/// Whether a provider of that name exists.
fn provider_exists(c: &Config, name: &str) -> (r: bool)
    ensures
        r == exists|i: int| 0 <= i < c.providers@.len() && c.providers@[i].name@ == name@,
{
    match c.provider(name) {
        Some(_) => true,
        None => false,
    }
}

/// What a submitted form asks for.
pub fn plan_form(form: &FormState, config: &Config) -> (r: FormPlan)
    requires
        form_shaped(*form),
    ensures
        form_plan_ok(*form, *config, r),
{
    match &form.purpose {
        FormPurpose::ProviderAdd | FormPurpose::ProviderEdit { .. } => {
            let name = form.value(0);
            let base_url = form.value(1);
            if chars_of(name.as_str()).len() == 0 || chars_of(base_url.as_str()).len() == 0 {
                return FormPlan::Invalid(string_of(chars_of("名称与 Base URL 不能为空").as_slice()));
            }
            let api_key = form.value(2);
            let model = form.value(3);
            match &form.purpose {
                FormPurpose::ProviderEdit { name: orig } => FormPlan::EditProvider {
                    orig: orig.clone(),
                    new_name: name,
                    base_url,
                    api_key,
                    model,
                },
                _ => {
                    if provider_exists(config, name.as_str()) {
                        let mut m = chars_of("提供商 ");
                        crate::util::push_all(&mut m, chars_of(name.as_str()).as_slice());
                        crate::util::push_all(&mut m, chars_of(" 已存在").as_slice());
                        FormPlan::Invalid(string_of(m.as_slice()))
                    } else {
                        FormPlan::AddProvider { name, base_url, api_key, model }
                    }
                },
            }
        },
        FormPurpose::RenameSession { session_id } => {
            let title = form.value(0);
            if chars_of(title.as_str()).len() == 0 {
                FormPlan::Invalid(string_of(chars_of("标题不能为空").as_slice()))
            } else {
                FormPlan::Rename { session_id: *session_id, title }
            }
        },
        FormPurpose::SystemPrompt { session_id } => {
            let v = form.value(0);
            let prompt = if chars_of(v.as_str()).len() == 0 { None } else { Some(v) };
            FormPlan::SystemPrompt { session_id: *session_id, prompt }
        },
        FormPurpose::EditMessage { message_id, regenerate } => {
            let content = form.value(0);
            if chars_of(content.as_str()).len() == 0 {
                FormPlan::Invalid(string_of(chars_of("内容不能为空").as_slice()))
            } else {
                FormPlan::EditMessage { message_id: *message_id, regenerate: *regenerate, content }
            }
        },
    }
}

// ---------------------------------------------------------------------------
// Requests
// ---------------------------------------------------------------------------

/// A reply request: the provider (with the environment overrides), the
/// model, the system prompt and the history.
pub struct GenRequest {
    pub provider: Provider,
    pub model: String,
    pub system: Option<String>,
    pub history: Vec<ChatMessage>,
}

/// The environment overrides as texts.
pub open spec fn env_view(e: Option<&str>) -> Option<Seq<char>> {
    match e {
        Some(s) => Some(s@),
        None => None,
    }
}

/// Whether `q` is the provider named `name` with the environment overrides.
pub open spec fn is_effective(c: Config, name: Seq<char>, env_key: Option<Seq<char>>, env_base: Option<Seq<char>>, q: Provider) -> bool {
    exists|i: int|
        {
            &&& first_named(c.providers@, name, i)
            &&& q.name == c.providers@[i].name
            &&& q.default_model == c.providers@[i].default_model
            &&& (q.api_key@, q.base_url@) == overridden(c.providers@[i], env_key, env_base)
        }
}

/// Whether no provider has that name.
pub open spec fn no_provider(c: Config, name: Seq<char>) -> bool {
    forall|j: int| 0 <= j < c.providers@.len() ==> c.providers@[j].name@ != name
}

/// The notice for a session whose provider is gone.
pub open spec fn missing_provider_notice(name: Seq<char>) -> Seq<char> {
    "提供商 \""@ + name + "\" 不存在 · /provider use 切换"@
}

/// The notice for a provider without a key.
pub open spec fn missing_key_notice(name: Seq<char>) -> Seq<char> {
    "提供商 \""@ + name + "\" 的 API Key 为空 · /provider edit 填写或 /provider use 切换"@
}

/// `a`, then `name`, then `b`.
fn framed(a: &str, name: &str, b: &str) -> (r: String)
    ensures
        r@ == a@ + name@ + b@,
{
    let mut m = chars_of(a);
    crate::util::push_all(&mut m, chars_of(name).as_slice());
    crate::util::push_all(&mut m, chars_of(b).as_slice());
    string_of(m.as_slice())
}

/// The request for a reply in `session`: its provider (with the overrides
/// `TUAI_API_KEY` and `TUAI_BASE_URL`, read by the caller) must exist and
/// have a key or be local; the history is every non-system message, the
/// system prompt the session's or else the configuration's.
pub fn plan_generation(
    config: &Config,
    session: &Session,
    messages: &Vec<Message>,
    env_key: Option<&str>,
    env_base: Option<&str>,
) -> (r: Result<GenRequest, String>)
    ensures
        no_provider(*config, session.provider@) ==> (r matches Err(m) && m@ == missing_provider_notice(
            session.provider@,
        )),
        !no_provider(*config, session.provider@) ==> match r {
            Ok(req) => {
                &&& is_effective(*config, session.provider@, env_view(env_key), env_view(env_base), req.provider)
                &&& has_credentials(req.provider)
                &&& req.model == session.model
                &&& crate::llm::opt_view(req.system) == match non_blank(crate::llm::opt_view(session.system_prompt)) {
                    Some(t) => Some(t),
                    None => non_blank(crate::llm::opt_view(config.system_prompt)),
                }
                &&& req.history@.map_values(|m: ChatMessage| crate::llm::message_view(m)) == history_of(messages@)
            },
            Err(m) => m@ == missing_key_notice(session.provider@) && exists|q: Provider|
                is_effective(*config, session.provider@, env_view(env_key), env_view(env_base), q) && !has_credentials(q),
        },
{
    let provider = match config.effective_provider(session.provider.as_str(), env_key, env_base) {
        Some(p) => p,
        None => {
            return Err(framed("提供商 \"", session.provider.as_str(), "\" 不存在 · /provider use 切换"));
        },
    };
    if !provider_has_credentials(&provider) {
        return Err(framed("提供商 \"", session.provider.as_str(), "\" 的 API Key 为空 · /provider edit 填写或 /provider use 切换"));
    }
    let history = chat_history(messages);
    let system = effective_system_prompt(&session.system_prompt, &config.system_prompt);
    Ok(GenRequest { provider, model: session.model.clone(), system, history })
}

/// The notice when the provider to list models of is gone.
pub open spec fn models_missing_notice(name: Seq<char>) -> Seq<char> {
    "提供商 \""@ + name + "\" 不存在"@
}

/// The notice when the provider to list models of has no key.
pub open spec fn models_no_key_notice(name: Seq<char>) -> Seq<char> {
    "提供商 \""@ + name + "\" 的 API Key 为空，无法拉取模型列表"@
}

/// The provider to ask for its models: the session's, with the overrides;
/// it must exist and have a key or be local.
pub fn plan_models_fetch(config: &Config, session: &Session, env_key: Option<&str>, env_base: Option<&str>) -> (r: Result<
    Provider,
    String,
>)
    ensures
        no_provider(*config, session.provider@) ==> (r matches Err(m) && m@ == models_missing_notice(session.provider@)),
        !no_provider(*config, session.provider@) ==> match r {
            Ok(q) => is_effective(*config, session.provider@, env_view(env_key), env_view(env_base), q) && has_credentials(q),
            Err(m) => m@ == models_no_key_notice(session.provider@) && exists|q: Provider|
                is_effective(*config, session.provider@, env_view(env_key), env_view(env_base), q) && !has_credentials(q),
        },
{
    let provider = match config.effective_provider(session.provider.as_str(), env_key, env_base) {
        Some(p) => p,
        None => {
            return Err(framed("提供商 \"", session.provider.as_str(), "\" 不存在"));
        },
    };
    if !provider_has_credentials(&provider) {
        return Err(framed("提供商 \"", session.provider.as_str(), "\" 的 API Key 为空，无法拉取模型列表"));
    }
    Ok(provider)
}

// ---------------------------------------------------------------------------
// Finished replies and model lists
// ---------------------------------------------------------------------------

/// What follows the end of a reply.
pub struct Finish {
    /// The text to store as the assistant's message, with its reasoning.
    pub save: Option<(String, Option<String>)>,
    /// The error notice to show.
    pub notice: Option<String>,
    /// Whether the next queued message goes out now.
    pub send_next: bool,
}

/// The notice for a reply that failed.
pub open spec fn failed_notice(error: Seq<char>, content: Seq<char>) -> Seq<char> {
    error + " "@ + if content.len() == 0 { Seq::empty() } else { "（已保留部分内容）"@ }
}

/// What follows the end of a reply: the text so far is stored (with the
/// reasoning, when there is any); a failure is shown (saying when part of
/// the reply was kept); otherwise the next queued message goes out.
pub fn finish_generation(content: &str, reasoning: &str, error: Option<&str>) -> (r: Finish)
    ensures
        content@.len() == 0 ==> r.save is None,
        content@.len() > 0 ==> (r.save matches Some((c, rs)) && c@ == content@ && crate::llm::opt_view(rs) == if reasoning@.len()
            == 0 {
            None
        } else {
            Some(reasoning@)
        }),
        match error {
            Some(e) => (r.notice matches Some(n) && n@ == failed_notice(e@, content@)) && !r.send_next,
            None => r.notice is None && r.send_next,
        },
{
    let save = if chars_of(content).len() == 0 {
        None
    } else {
        let rs = if chars_of(reasoning).len() == 0 { None } else { Some(string_of(chars_of(reasoning).as_slice())) };
        Some((string_of(chars_of(content).as_slice()), rs))
    };
    match error {
        Some(e) => {
            let mut m = chars_of(e);
            m.push(' ');
            if chars_of(content).len() > 0 {
                crate::util::push_all(&mut m, chars_of("（已保留部分内容）").as_slice());
            }
            proof {
                reveal_strlit(" ");
                assert(m@ =~= failed_notice(e@, content@));
            }
            Finish { save, notice: Some(string_of(m.as_slice())), send_next: false }
        },
        None => Finish { save, notice: None, send_next: true },
    }
}

/// What a model list (or the failure to get one) leads to.
pub enum ModelsOutcome {
    /// Open the model palette.
    Open(PaletteState),
    /// Open the model palette (the favourites alone) and show this error.
    OpenWithNotice(PaletteState, String),
    /// Show this error.
    Notice(String),
}

/// The model palette of `models` and `favs`.
pub open spec fn models_palette(p: PaletteState, models: Seq<String>, favs: Seq<String>) -> bool {
    &&& crate::state::items_view(p.items@) == crate::state::model_entries(crate::state::favorite_entries(favs), models)
    &&& p.visible@ == crate::state::filtered(p.items@, Seq::empty())
    &&& p.filter@ == Seq::<char>::empty()
    &&& p.selected == 0
}

/// What a model list leads to: the palette of the models and the
/// favourites when there is any; a failure still opens the favourites,
/// with the error shown.
pub fn models_outcome(result: Result<Vec<String>, String>, favs: Vec<String>) -> (r: ModelsOutcome)
    ensures
        match result {
            Ok(list) => if list@.len() > 0 || favs@.len() > 0 {
                r matches ModelsOutcome::Open(p) && models_palette(p, list@, favs@)
            } else {
                r matches ModelsOutcome::Notice(n) && n@ == "提供商未返回任何模型"@
            },
            Err(e) => if favs@.len() == 0 {
                r matches ModelsOutcome::Notice(n) && n@ == "拉取模型失败: "@ + e@
            } else {
                r matches ModelsOutcome::OpenWithNotice(p, n) && models_palette(p, Seq::empty(), favs@) && n@ == "拉取失败: "@
                    + e@ + "（仅显示收藏）"@
            },
        },
{
    match result {
        Ok(list) => {
            if list.len() > 0 || favs.len() > 0 {
                ModelsOutcome::Open(PaletteState::models(list, favs))
            } else {
                ModelsOutcome::Notice(string_of(chars_of("提供商未返回任何模型").as_slice()))
            }
        },
        Err(e) => {
            if favs.len() == 0 {
                let mut m = chars_of("拉取模型失败: ");
                crate::util::push_all(&mut m, chars_of(e.as_str()).as_slice());
                ModelsOutcome::Notice(string_of(m.as_slice()))
            } else {
                let p = PaletteState::models(Vec::new(), favs);
                let mut m = chars_of("拉取失败: ");
                crate::util::push_all(&mut m, chars_of(e.as_str()).as_slice());
                crate::util::push_all(&mut m, chars_of("（仅显示收藏）").as_slice());
                ModelsOutcome::OpenWithNotice(p, string_of(m.as_slice()))
            }
        },
    }
}

// ---------------------------------------------------------------------------
// Forms the commands open
// ---------------------------------------------------------------------------

/// The form to add a provider, with a sample base address.
pub fn provider_add_form() -> (f: FormState)
    ensures
        f.purpose == FormPurpose::ProviderAdd,
        f.fields@.len() == 4,
        f.fields@[0].value@ == Seq::<char>::empty(),
        f.fields@[1].value@ == "https://api.example.com/v1"@,
        f.fields@[2].value@ == Seq::<char>::empty(),
        f.fields@[3].value@ == Seq::<char>::empty(),
        form_wf(f),
        form_shaped(f),
{
    proof {
        reveal_strlit("");
    }
    FormState::provider(FormPurpose::ProviderAdd, "", "https://api.example.com/v1", "", "")
}

/// The form to edit the provider `name` (its key left blank: blank keeps
/// it); `None` when there is no such provider.
pub fn provider_edit_form(config: &Config, name: &str) -> (r: Option<FormState>)
    ensures
        no_provider(*config, name@) ==> r is None,
        !no_provider(*config, name@) ==> (r matches Some(f) && exists|i: int|
            {
                &&& first_named(config.providers@, name@, i)
                &&& f.purpose == (FormPurpose::ProviderEdit { name: config.providers@[i].name })
                &&& f.fields@.len() == 4
                &&& f.fields@[0].value@ == config.providers@[i].name@
                &&& f.fields@[1].value@ == config.providers@[i].base_url@
                &&& f.fields@[2].value@ == Seq::<char>::empty()
                &&& f.fields@[3].value@ == config.providers@[i].default_model@
                &&& form_wf(f)
                &&& form_shaped(f)
            }),
{
    proof {
        reveal_strlit("");
    }
    match config.provider(name) {
        Some(p) => Some(
            FormState::provider(
                FormPurpose::ProviderEdit { name: p.name.clone() },
                p.name.as_str(),
                p.base_url.as_str(),
                "",
                p.default_model.as_str(),
            ),
        ),
        None => None,
    }
}

/// The form to rename a session, filled with its title.
pub fn rename_form(session: &Session) -> (f: FormState)
    ensures
        f.purpose == (FormPurpose::RenameSession { session_id: session.id }),
        f.title@ == "重命名会话"@,
        f.fields@.len() == 1,
        f.fields@[0].label@ == "新标题"@,
        f.fields@[0].value@ == session.title@,
        form_wf(f),
        form_shaped(f),
{
    FormState::simple("重命名会话", FormPurpose::RenameSession { session_id: session.id }, "新标题", session.title.as_str())
}

/// The form of a session's system prompt, filled with the prompt in force:
/// the session's, else the configuration's, else nothing.
pub fn system_prompt_form(session: &Session, config: &Config) -> (f: FormState)
    ensures
        f.purpose == (FormPurpose::SystemPrompt { session_id: session.id }),
        f.title@ == "系统提示词"@,
        f.fields@.len() == 1,
        f.fields@[0].label@ == "提示词（留空清除）"@,
        f.fields@[0].value@ == match session.system_prompt {
            Some(p) => p@,
            None => match config.system_prompt {
                Some(p) => p@,
                None => Seq::<char>::empty(),
            },
        },
        form_wf(f),
        form_shaped(f),
{
    proof {
        reveal_strlit("");
    }
    let cur: &str = match &session.system_prompt {
        Some(p) => p.as_str(),
        None => match &config.system_prompt {
            Some(p) => p.as_str(),
            None => "",
        },
    };
    FormState::simple("系统提示词", FormPurpose::SystemPrompt { session_id: session.id }, "提示词（留空清除）", cur)
}

/// The form to edit a message, filled with its text; editing a user
/// message asks for a new reply.
pub fn edit_message_form(m: &Message) -> (f: FormState)
    ensures
        f.purpose == (FormPurpose::EditMessage { message_id: m.id, regenerate: m.role == Role::User }),
        f.title@ == if m.role == Role::User { "编辑消息（提交后重新生成回复）"@ } else { "编辑消息"@ },
        f.fields@.len() == 1,
        f.fields@[0].label@ == "内容（Shift+Enter 换行）"@,
        f.fields@[0].value@ == m.content@,
        form_wf(f),
        form_shaped(f),
{
    let is_user = m.role == Role::User;
    let title = if is_user { "编辑消息（提交后重新生成回复）" } else { "编辑消息" };
    FormState::simple(
        title,
        FormPurpose::EditMessage { message_id: m.id, regenerate: is_user },
        "内容（Shift+Enter 换行）",
        m.content.as_str(),
    )
}

// ---------------------------------------------------------------------------
// Sessions
// ---------------------------------------------------------------------------

/// The title a session gets from its first message: the message cut to 24
/// columns, while the session has the default title; `None` otherwise (or
/// when the cut text is empty).
pub open spec fn auto_title_of(title: Seq<char>, text: Seq<char>) -> Option<Seq<char>> {
    if title == "新会话"@ && truncated(text, 24).len() > 0 {
        Some(truncated(text, 24))
    } else {
        None
    }
}

/// The title a session gets from its first message.
pub fn auto_title(title: &str, text: &str) -> (r: Option<String>)
    ensures
        crate::llm::opt_view(r) == auto_title_of(title@, text@),
{
    if !crate::util::str_eq(title, Session::DEFAULT_TITLE) {
        return None;
    }
    let t = truncate_by_width(text, 24);
    if chars_of(t.as_str()).len() > 0 {
        Some(t)
    } else {
        None
    }
}

/// Index of the first session with id `id`.
pub open spec fn session_index(ss: Seq<Session>, id: i64) -> Option<int>
    decreases ss.len(),
{
    if ss.len() == 0 {
        None
    } else {
        match session_index(ss.drop_last(), id) {
            Some(i) => Some(i),
            None => if ss.last().id == id { Some(ss.len() - 1) } else { None },
        }
    }
}

/// The session to show after one was deleted and the list reloaded: the
/// one shown before when it is still there, else the sidebar's selection
/// (kept within the list).
pub open spec fn after_delete_index(ss: Seq<Session>, cur_id: Option<i64>, sidebar_sel: usize) -> int {
    let sel = if sidebar_sel < ss.len() { sidebar_sel as int } else { ss.len() - 1 };
    match cur_id {
        Some(id) => match session_index(ss, id) {
            Some(i) => i,
            None => sel,
        },
        None => sel,
    }
}

/// The session to show after a deletion.
pub fn reselect_after_delete(sessions: &Vec<Session>, cur_id: Option<i64>, sidebar_sel: usize) -> (r: usize)
    requires
        sessions@.len() > 0,
    ensures
        r == after_delete_index(sessions@, cur_id, sidebar_sel),
        r < sessions@.len(),
{
    let n = sessions.len();
    let sel = if sidebar_sel < n { sidebar_sel } else { n - 1 };
    match cur_id {
        Some(id) => {
            let mut i: usize = 0;
            while i < n
                invariant
                    0 <= i <= n,
                    n == sessions@.len(),
                    cur_id == Some(id),
                    session_index(sessions@.take(i as int), id) is None,
                decreases n - i,
            {
                proof {
                    assert(sessions@.take(i + 1).drop_last() =~= sessions@.take(i as int));
                }
                if sessions[i].id == id {
                    proof {
                        assert(sessions@.take(i + 1).last() == sessions@[i as int]);
                        assert(session_index(sessions@.take(i + 1), id) == Some(i as int));
                        lemma_session_index_prefix(sessions@, i as int + 1, id);
                    }
                    return i;
                }
                i = i + 1;
            }
            proof {
                assert(sessions@.take(n as int) =~= sessions@);
            }
            sel
        },
        None => sel,
    }
}

proof fn lemma_session_index_prefix(ss: Seq<Session>, k: int, id: i64)
    requires
        0 < k <= ss.len(),
        session_index(ss.take(k), id) is Some,
    ensures
        session_index(ss, id) == session_index(ss.take(k), id),
    decreases ss.len() - k,
{
    if k < ss.len() {
        assert(ss.take(k + 1).drop_last() =~= ss.take(k));
        lemma_session_index_prefix(ss, k + 1, id);
    } else {
        assert(ss.take(k) =~= ss);
    }
}

// ---------------------------------------------------------------------------
// The start of a paste typed as keys
// ---------------------------------------------------------------------------

/// The detection of a paste's start marker `ESC [200~` in a stream of key
/// presses: a pending Esc, and the part of the marker matched after it.
pub struct MarkerState {
    /// An Esc came and its effect waits to see whether a marker follows.
    pub esc_pending: bool,
    /// The characters of `[200~` matched so far.
    pub probe: Option<Vec<char>>,
}

/// The effect of a key press on the marker detection.
pub struct MarkerStep {
    /// The key was taken by the detection.
    pub consumed: bool,
    /// The pending Esc takes effect now (before the replayed characters).
    pub fire_esc: bool,
    /// Characters of a marker that did not complete, to handle as typed keys.
    pub replay: Vec<char>,
    /// The marker is complete: the paste's content follows.
    pub start_paste: bool,
}

/// The detection state as values.
pub open spec fn marker_view(m: MarkerState) -> (bool, Option<Seq<char>>) {
    (
        m.esc_pending,
        match m.probe {
            Some(p) => Some(p@),
            None => None,
        },
    )
}

/// The step as values.
pub open spec fn step_view(s: MarkerStep) -> (bool, bool, Seq<char>, bool) {
    (s.consumed, s.fire_esc, s.replay@, s.start_paste)
}

/// The rest of the start marker after the `[`.
pub open spec fn marker_tail() -> Seq<char> {
    seq!['2', '0', '0', '~']
}

/// A key press during the detection (`esc_recent`: the pending Esc came
/// less than 300 ms ago): Esc waits; after it, `[` starts matching the
/// marker, which completes with `200~`; a character that breaks the match
/// fires the Esc and replays what was matched; another key fires a pending
/// Esc.
pub open spec fn marker_key(st: (bool, Option<Seq<char>>), code: KeyCode, esc_recent: bool) -> (
    (bool, Option<Seq<char>>),
    (bool, bool, Seq<char>, bool),
) {
    let (esc, probe) = st;
    match code {
        KeyCode::Esc => ((true, probe), (true, false, Seq::empty(), false)),
        KeyCode::Char(c) => match probe {
            Some(p) => {
                let i = p.len();
                if 0 < i <= 4 && c == marker_tail()[i - 1] {
                    if i + 1 == 5 {
                        ((esc, None), (true, false, Seq::empty(), true))
                    } else {
                        ((esc, Some(p.push(c))), (true, false, Seq::empty(), false))
                    }
                } else {
                    ((false, None), (false, true, p, false))
                }
            },
            None => if esc && esc_recent {
                if c == '[' {
                    ((false, Some(seq!['['])), (true, false, Seq::empty(), false))
                } else {
                    ((false, None), (false, true, Seq::empty(), false))
                }
            } else {
                ((esc, None), (false, false, Seq::empty(), false))
            },
        },
        _ => if esc {
            ((false, None), (false, true, match probe {
                Some(p) => p,
                None => Seq::empty(),
            }, false))
        } else {
            ((esc, probe), (false, false, Seq::empty(), false))
        },
    }
}

/// The pending Esc times out: it takes effect, and what was matched is replayed.
pub open spec fn marker_timeout(st: (bool, Option<Seq<char>>)) -> ((bool, Option<Seq<char>>), (bool, bool, Seq<char>, bool)) {
    if st.0 {
        ((false, None), (false, true, match st.1 {
            Some(p) => p,
            None => Seq::empty(),
        }, false))
    } else {
        (st, (false, false, Seq::empty(), false))
    }
}

/// The marker character expected after `i` matched ones.
fn tail_char(i: usize) -> (c: char)
    requires
        1 <= i <= 4,
    ensures
        c == marker_tail()[i - 1],
{
    if i == 1 { '2' } else if i == 2 { '0' } else if i == 3 { '0' } else { '~' }
}

impl MarkerState {
    /// No Esc pending, nothing matched.
    pub fn new() -> (m: MarkerState)
        ensures
            marker_view(m) == (false, None::<Seq<char>>),
    {
        MarkerState { esc_pending: false, probe: None }
    }

    /// A key press (`esc_recent`: the pending Esc came less than 300 ms ago).
    pub fn on_key(&mut self, code: KeyCode, esc_recent: bool) -> (r: MarkerStep)
        ensures
            (marker_view(*final(self)), step_view(r)) == marker_key(marker_view(*old(self)), code, esc_recent),
    {
        let none: Vec<char> = Vec::new();
        match code {
            KeyCode::Esc => {
                self.esc_pending = true;
                MarkerStep { consumed: true, fire_esc: false, replay: none, start_paste: false }
            },
            KeyCode::Char(c) => {
                match self.probe.take() {
                    Some(mut p) => {
                        let i = p.len();
                        if 0 < i && i <= 4 && c == tail_char(i) {
                            if i + 1 == 5 {
                                MarkerStep { consumed: true, fire_esc: false, replay: none, start_paste: true }
                            } else {
                                p.push(c);
                                self.probe = Some(p);
                                MarkerStep { consumed: true, fire_esc: false, replay: none, start_paste: false }
                            }
                        } else {
                            self.esc_pending = false;
                            MarkerStep { consumed: false, fire_esc: true, replay: p, start_paste: false }
                        }
                    },
                    None => {
                        if self.esc_pending && esc_recent {
                            self.esc_pending = false;
                            if c == '[' {
                                let mut p: Vec<char> = Vec::new();
                                p.push('[');
                                assert(p@ =~= seq!['[']);
                                self.probe = Some(p);
                                MarkerStep { consumed: true, fire_esc: false, replay: none, start_paste: false }
                            } else {
                                MarkerStep { consumed: false, fire_esc: true, replay: none, start_paste: false }
                            }
                        } else {
                            MarkerStep { consumed: false, fire_esc: false, replay: none, start_paste: false }
                        }
                    },
                }
            },
            _ => {
                if self.esc_pending {
                    self.esc_pending = false;
                    let replay = match self.probe.take() {
                        Some(p) => p,
                        None => none,
                    };
                    MarkerStep { consumed: false, fire_esc: true, replay, start_paste: false }
                } else {
                    MarkerStep { consumed: false, fire_esc: false, replay: none, start_paste: false }
                }
            },
        }
    }

    /// The pending Esc has waited long enough (120 ms).
    pub fn on_timeout(&mut self) -> (r: MarkerStep)
        ensures
            (marker_view(*final(self)), step_view(r)) == marker_timeout(marker_view(*old(self))),
    {
        if self.esc_pending {
            self.esc_pending = false;
            let replay = match self.probe.take() {
                Some(p) => p,
                None => Vec::new(),
            };
            MarkerStep { consumed: false, fire_esc: true, replay, start_paste: false }
        } else {
            MarkerStep { consumed: false, fire_esc: false, replay: Vec::new(), start_paste: false }
        }
    }
}

/// The start marker typed in quick succession (Esc, then `[200~`, each
/// within 300 ms of the Esc) starts a paste; every key of it is taken by
/// the detection and the Esc never takes effect.
pub proof fn lemma_start_marker_starts_paste()
    ensures
        ({
            let s0 = (false, None::<Seq<char>>);
            let (s1, a1) = marker_key(s0, KeyCode::Esc, true);
            let (s2, a2) = marker_key(s1, KeyCode::Char('['), true);
            let (s3, a3) = marker_key(s2, KeyCode::Char('2'), true);
            let (s4, a4) = marker_key(s3, KeyCode::Char('0'), true);
            let (s5, a5) = marker_key(s4, KeyCode::Char('0'), true);
            let (s6, a6) = marker_key(s5, KeyCode::Char('~'), true);
            &&& a1 == (true, false, Seq::<char>::empty(), false)
            &&& a2 == (true, false, Seq::<char>::empty(), false)
            &&& a3 == (true, false, Seq::<char>::empty(), false)
            &&& a4 == (true, false, Seq::<char>::empty(), false)
            &&& a5 == (true, false, Seq::<char>::empty(), false)
            &&& a6 == (true, false, Seq::<char>::empty(), true)
            &&& s6 == (false, None::<Seq<char>>)
        }),
{
    let s1 = (true, None::<Seq<char>>);
    let s2 = (false, Some(seq!['[']));
    assert(seq!['['].push('2') =~= seq!['[', '2']);
    assert(seq!['[', '2'].push('0') =~= seq!['[', '2', '0']);
    assert(seq!['[', '2', '0'].push('0') =~= seq!['[', '2', '0', '0']);
}

/// A broken marker gives back what it held back: after Esc and `[`, any
/// other character than `2` fires the Esc and replays the `[` before the
/// character is handled.
pub proof fn lemma_broken_marker_replays(c: char)
    requires
        c != '2',
    ensures
        ({
            let (s1, _a1) = marker_key((false, None::<Seq<char>>), KeyCode::Esc, true);
            let (s2, _a2) = marker_key(s1, KeyCode::Char('['), true);
            let (s3, a3) = marker_key(s2, KeyCode::Char(c), true);
            &&& a3 == (false, true, seq!['['], false)
            &&& s3 == (false, None::<Seq<char>>)
        }),
{
}

// ---------------------------------------------------------------------------
// Small rules of the session list
// ---------------------------------------------------------------------------

/// The sessions after their provider `orig` was renamed to `new_name`.
pub fn rename_sessions_provider(sessions: &mut Vec<Session>, orig: &str, new_name: &str)
    ensures
        final(sessions)@.len() == old(sessions)@.len(),
        forall|k: int| 0 <= k < old(sessions)@.len() ==> {
            let s = #[trigger] old(sessions)@[k];
            let t = final(sessions)@[k];
            &&& t.provider@ == if s.provider@ == orig@ { new_name@ } else { s.provider@ }
            &&& t.id == s.id
            &&& t.title == s.title
            &&& t.model == s.model
            &&& t.system_prompt == s.system_prompt
            &&& t.created_at == s.created_at
            &&& t.updated_at == s.updated_at
        },
{
    let mut i: usize = 0;
    while i < sessions.len()
        invariant
            0 <= i <= sessions@.len(),
            sessions@.len() == old(sessions)@.len(),
            forall|k: int| i <= k < sessions@.len() ==> #[trigger] sessions@[k] == old(sessions)@[k],
            forall|k: int| 0 <= k < i ==> {
                let s = #[trigger] old(sessions)@[k];
                let t = sessions@[k];
                &&& t.provider@ == if s.provider@ == orig@ { new_name@ } else { s.provider@ }
                &&& t.id == s.id
                &&& t.title == s.title
                &&& t.model == s.model
                &&& t.system_prompt == s.system_prompt
                &&& t.created_at == s.created_at
                &&& t.updated_at == s.updated_at
            },
        decreases sessions@.len() - i,
    {
        if crate::util::str_eq(sessions[i].provider.as_str(), orig) {
            let s = &sessions[i];
            let t = Session {
                id: s.id,
                title: s.title.clone(),
                provider: string_of(chars_of(new_name).as_slice()),
                model: s.model.clone(),
                system_prompt: s.system_prompt.clone(),
                created_at: s.created_at,
                updated_at: s.updated_at,
            };
            sessions.set(i, t);
        }
        i = i + 1;
    }
}

/// The index of the current session when its id is `id`.
pub fn current_with_id(view: &ChatView, id: i64) -> (r: Option<usize>)
    ensures
        match view.current {
            Some(c) => if c < view.sessions@.len() && view.sessions@[c as int].id == id {
                r == Some(c)
            } else {
                r is None
            },
            None => r is None,
        },
{
    match view.current {
        Some(c) => if c < view.sessions.len() && view.sessions[c].id == id { Some(c) } else { None },
        None => None,
    }
}

/// The last index of `n` items.
pub fn last_index(n: usize) -> (r: Option<usize>)
    ensures
        n == 0 ==> r is None,
        n > 0 ==> r == Some((n - 1) as usize),
{
    if n == 0 { None } else { Some(n - 1) }
}

/// The name of a session's export: the title made safe for a file name,
/// a hyphen, the session id, `.md`.
pub open spec fn export_name(title: Seq<char>, id: i64) -> Seq<char> {
    crate::util::sanitized(title) + seq!['-'] + (if id < 0 { seq!['-'] + crate::markdown::decimal(
        (-id) as nat,
    ) } else { crate::markdown::decimal(id as nat) }) + ".md"@
}

/// The name of a session's export.
pub fn export_file_name(title: &str, id: i64) -> (r: String)
    ensures
        r@ == export_name(title@, id),
{
    let mut v = chars_of(crate::util::sanitize_filename(title).as_str());
    v.push('-');
    if id < 0 {
        v.push('-');
        let m: u64 = if id == i64::MIN { 9223372036854775808u64 } else { (-id) as u64 };
        crate::markdown::push_decimal(&mut v, m);
    } else {
        crate::markdown::push_decimal(&mut v, id as u64);
    }
    push_all_str(&mut v, ".md");
    string_of(v.as_slice())
}

/// Appends the characters of a string slice.
fn push_all_str(v: &mut Vec<char>, s: &str)
    ensures
        final(v)@ == old(v)@ + s@,
{
    crate::util::push_all(v, chars_of(s).as_slice());
}

/// The text with its line breaks and carriage returns left out.
pub open spec fn without_breaks(t: Seq<char>) -> Seq<char>
    decreases t.len(),
{
    if t.len() == 0 {
        Seq::empty()
    } else {
        let c = t.last();
        without_breaks(t.drop_last()) + if c == '\n' || c == '\r' { Seq::empty() } else { seq![c] }
    }
}

impl PaletteState {
    /// Pastes text into the filter (line breaks left out) and filters again.
    pub fn paste(&mut self, text: &str)
        ensures
            final(self).filter@ == old(self).filter@ + without_breaks(text@),
            final(self).items == old(self).items,
            final(self).visible@ == crate::state::filtered(old(self).items@, final(self).filter@),
            final(self).selected == crate::state::reselected(old(self).visible@, old(self).selected as int, final(self).visible@),
    {
        let cs = chars_of(text);
        let mut f = chars_of(self.filter.as_str());
        let ghost f0 = f@;
        let mut i: usize = 0;
        while i < cs.len()
            invariant
                0 <= i <= cs@.len(),
                f@ == f0 + without_breaks(cs@.take(i as int)),
            decreases cs@.len() - i,
        {
            proof {
                assert(cs@.take(i + 1).drop_last() =~= cs@.take(i as int));
            }
            if cs[i] != '\n' && cs[i] != '\r' {
                f.push(cs[i]);
            }
            i = i + 1;
            proof {
                assert(f@ =~= f0 + without_breaks(cs@.take(i as int)));
            }
        }
        proof {
            assert(cs@.take(cs@.len() as int) =~= cs@);
        }
        self.filter = string_of(f.as_slice());
        self.refilter();
    }
}


// ---------------------------------------------------------------------------
// Messages sent while a reply is under way
// ---------------------------------------------------------------------------

/// What becomes of a message that is sent.
#[derive(Debug, PartialEq, Eq, Structural)]
pub enum SendStep {
    /// No reply is under way: the reply to it is asked for now.
    Dispatch,
    /// A reply is under way: the message waits its turn.
    Queued,
}

/// The messages waiting for the reply under way to end, oldest first.
pub struct Outbox {
    pub queued: Vec<String>,
}

impl Outbox {
    /// An empty outbox.
    pub fn new() -> (o: Outbox)
        ensures
            o.queued@.len() == 0,
    {
        Outbox { queued: Vec::new() }
    }

    /// A message is sent: while a reply is under way it joins the end of the
    /// queue, else its reply is asked for at once and the queue stays.
    pub fn submit(&mut self, text: String, generating: bool) -> (r: SendStep)
        ensures
            generating ==> r == SendStep::Queued && final(self).queued@ == old(self).queued@.push(text),
            !generating ==> r == SendStep::Dispatch && final(self).queued@ == old(self).queued@,
    {
        if generating {
            self.queued.push(text);
            SendStep::Queued
        } else {
            SendStep::Dispatch
        }
    }

    /// The message that goes out next once a reply has ended: the oldest
    /// waiting one, taken off the queue; `None` when none waits.
    pub fn next(&mut self) -> (r: Option<String>)
        ensures
            old(self).queued@.len() == 0 ==> r is None && final(self).queued@ == old(self).queued@,
            old(self).queued@.len() > 0 ==> r == Some(old(self).queued@[0]) && final(self).queued@
                == old(self).queued@.drop_first(),
    {
        if self.queued.len() == 0 {
            None
        } else {
            let t = self.queued.remove(0);
            assert(self.queued@ =~= old(self).queued@.drop_first());
            Some(t)
        }
    }
}

/// Messages queued while replies are under way go out in the order they
/// were sent: queuing `a` then `b` behind whatever waits gives back what
/// waited, then `a`, then `b`.
pub proof fn lemma_outbox_fifo(waiting: Seq<String>, a: String, b: String)
    ensures
        waiting.push(a).push(b).take(waiting.len() as int) == waiting,
        waiting.push(a).push(b).skip(waiting.len() as int) == seq![a, b],
{
    assert(waiting.push(a).push(b).take(waiting.len() as int) =~= waiting);
    assert(waiting.push(a).push(b).skip(waiting.len() as int) =~= seq![a, b]);
}

/// Why a regeneration cannot start now, or the index of the user message
/// whose reply is asked for again (the last one).
pub fn plan_regenerate(generating: bool, messages: &Vec<Message>) -> (r: Result<usize, String>)
    ensures
        generating ==> (r matches Err(e) && e@ == "正在生成中"@),
        !generating && !(exists|j: int| 0 <= j < messages@.len() && messages@[j].role == Role::User) ==> (r matches Err(e)
            && e@ == "没有可重新生成的消息"@),
        !generating && (exists|j: int| 0 <= j < messages@.len() && messages@[j].role == Role::User) ==> (r matches Ok(i)
            && i < messages@.len() && messages@[i as int].role == Role::User && forall|j: int|
            i < j < messages@.len() ==> messages@[j].role != Role::User),
{
    if generating {
        return Err(string_of(chars_of("正在生成中").as_slice()));
    }
    match crate::app::last_user_index(messages) {
        Some(i) => Ok(i),
        None => Err(string_of(chars_of("没有可重新生成的消息").as_slice())),
    }
}

/// The names of the providers, in order, for a provider palette; the notice
/// when there is none.
pub fn provider_names(config: &Config) -> (r: Result<Vec<String>, String>)
    ensures
        config.providers@.len() == 0 ==> (r matches Err(e) && e@ == "暂无提供商，请先 /provider add 添加"@),
        config.providers@.len() > 0 ==> (r matches Ok(v) && v@.len() == config.providers@.len() && forall|k: int|
            0 <= k < v@.len() ==> #[trigger] v@[k]@ == config.providers@[k].name@),
{
    if config.providers.len() == 0 {
        return Err(string_of(chars_of("暂无提供商，请先 /provider add 添加").as_slice()));
    }
    let mut v: Vec<String> = Vec::new();
    let mut i: usize = 0;
    while i < config.providers.len()
        invariant
            0 <= i <= config.providers@.len(),
            v@.len() == i,
            forall|k: int| 0 <= k < i ==> #[trigger] v@[k]@ == config.providers@[k].name@,
        decreases config.providers@.len() - i,
    {
        v.push(config.providers[i].name.clone());
        i = i + 1;
    }
    Ok(v)
}

/// The form shown at start: the empty provider form while there is no
/// provider yet (the first run), else none.
pub fn first_run_form(config: &Config) -> (r: Option<FormState>)
    ensures
        config.providers@.len() == 0 ==> (r matches Some(f) && f.purpose == FormPurpose::ProviderAdd
            && f.fields@.len() == 4 && (forall|k: int| 0 <= k < 4 ==> (#[trigger] f.fields@[k]).value@.len() == 0)
            && form_wf(f)),
        config.providers@.len() > 0 ==> r is None,
{
    if config.providers.len() == 0 {
        let f = FormState::provider(FormPurpose::ProviderAdd, "", "", "", "");
        proof {
            reveal_strlit("");
        }
        Some(f)
    } else {
        None
    }
}


// ---------------------------------------------------------------------------
// Timing rules
// ---------------------------------------------------------------------------

/// Whether a second Ctrl+C, `elapsed_ms` after the first, quits (within 1.5 s).
pub fn ctrlc_recent(elapsed_ms: u64) -> (r: bool)
    ensures
        r == (elapsed_ms < 1500),
{
    elapsed_ms < 1500
}

/// Whether a notice shown `elapsed_ms` ago is gone (after 3 s).
pub fn toast_expired(elapsed_ms: u64) -> (r: bool)
    ensures
        r == (elapsed_ms >= 3000),
{
    elapsed_ms >= 3000
}

/// Whether a key `elapsed_ms` after an Esc may belong to a paste marker
/// (within 300 ms).
pub fn marker_recent(elapsed_ms: u64) -> (r: bool)
    ensures
        r == (elapsed_ms < 300),
{
    elapsed_ms < 300
}

/// Whether an Esc held back `elapsed_ms` ago takes effect on its own
/// (after 120 ms with no marker following).
pub fn marker_timed_out(elapsed_ms: u64) -> (r: bool)
    ensures
        r == (elapsed_ms > 120),
{
    elapsed_ms > 120
}

} // verus!
