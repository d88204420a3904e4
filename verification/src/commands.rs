//! Slash commands and the entries of the command palette.
use vstd::prelude::*;

use crate::util::{
    chars_eq, chars_of, next_word, next_word_at, slice_of, lowered, str_to_lowercase,
    string_of, strip_lead, strip_lead_index, trim, trim_range, is_ws, word_len, trim_start_len, trim_start,
    lead_count, ascii_lower, ascii_lower_char, is_ascii_text,
};

verus! {

/// What a palette entry or slash command does.
#[derive(Debug, PartialEq)]
pub enum Action {
    SelectModel,
    ProviderAdd,
    ProviderEdit,
    ProviderDelete,
    ProviderSwitch,
    EditSystemPrompt,
    ClearSession,
    ExportSession,
    CopyCode,
    Regenerate,
    Paste,
    Quit,
    /// Runtime entry: choose this model.
    SetModel(String),
    /// Runtime entry: switch the session to this provider.
    SwitchProvider(String),
    /// Runtime entry: delete this provider.
    RemoveProvider(String),
}

impl Clone for Action {
    fn clone(&self) -> (r: Self)
        ensures
            r == *self,
    {
        match self {
            Action::SelectModel => Action::SelectModel,
            Action::ProviderAdd => Action::ProviderAdd,
            Action::ProviderEdit => Action::ProviderEdit,
            Action::ProviderDelete => Action::ProviderDelete,
            Action::ProviderSwitch => Action::ProviderSwitch,
            Action::EditSystemPrompt => Action::EditSystemPrompt,
            Action::ClearSession => Action::ClearSession,
            Action::ExportSession => Action::ExportSession,
            Action::CopyCode => Action::CopyCode,
            Action::Regenerate => Action::Regenerate,
            Action::Paste => Action::Paste,
            Action::Quit => Action::Quit,
            Action::SetModel(m) => Action::SetModel(m.clone()),
            Action::SwitchProvider(n) => Action::SwitchProvider(n.clone()),
            Action::RemoveProvider(n) => Action::RemoveProvider(n.clone()),
        }
    }
}

/// One command: its label, its slash form, and its action.
pub struct CommandDef {
    pub label: &'static str,
    pub hint: &'static str,
    pub action: Action,
}

/// The commands, in palette order: label, slash form, action.
pub open spec fn command_table() -> Seq<(Seq<char>, Seq<char>, Action)> {
    seq![
        ("选择模型"@, "/model"@, Action::SelectModel),
        ("添加提供商"@, "/provider add"@, Action::ProviderAdd),
        ("编辑提供商"@, "/provider edit"@, Action::ProviderEdit),
        ("删除提供商"@, "/provider del"@, Action::ProviderDelete),
        ("切换提供商"@, "/provider use"@, Action::ProviderSwitch),
        ("设置系统提示词"@, "/prompt"@, Action::EditSystemPrompt),
        ("清空会话消息"@, "/clear"@, Action::ClearSession),
        ("导出会话为 Markdown"@, "/export"@, Action::ExportSession),
        ("复制最近代码块"@, "/copy"@, Action::CopyCode),
        ("重新生成回复"@, "/regen"@, Action::Regenerate),
        ("粘贴剪贴板内容"@, "/paste"@, Action::Paste),
        ("退出"@, "/quit"@, Action::Quit),
    ]
}

/// The view of a command definition.
pub open spec fn command_view(c: CommandDef) -> (Seq<char>, Seq<char>, Action) {
    (c.label@, c.hint@, c.action)
}

/// All commands.
pub fn all() -> (r: Vec<CommandDef>)
    ensures
        r@.map_values(|c: CommandDef| command_view(c)) == command_table(),
{
    let r = vec![
        CommandDef { label: "选择模型", hint: "/model", action: Action::SelectModel },
        CommandDef { label: "添加提供商", hint: "/provider add", action: Action::ProviderAdd },
        CommandDef { label: "编辑提供商", hint: "/provider edit", action: Action::ProviderEdit },
        CommandDef { label: "删除提供商", hint: "/provider del", action: Action::ProviderDelete },
        CommandDef { label: "切换提供商", hint: "/provider use", action: Action::ProviderSwitch },
        CommandDef { label: "设置系统提示词", hint: "/prompt", action: Action::EditSystemPrompt },
        CommandDef { label: "清空会话消息", hint: "/clear", action: Action::ClearSession },
        CommandDef { label: "导出会话为 Markdown", hint: "/export", action: Action::ExportSession },
        CommandDef { label: "复制最近代码块", hint: "/copy", action: Action::CopyCode },
        CommandDef { label: "重新生成回复", hint: "/regen", action: Action::Regenerate },
        CommandDef { label: "粘贴剪贴板内容", hint: "/paste", action: Action::Paste },
        CommandDef { label: "退出", hint: "/quit", action: Action::Quit },
    ];
    assert(r@.map_values(|c: CommandDef| command_view(c)) =~= command_table());
    r
}

/// The first two words of `s` once leading slashes are removed; the first
/// word is empty when there is none.
pub open spec fn two_words(s: Seq<char>) -> (Seq<char>, Option<Seq<char>>) {
    match next_word(s) {
        None => (Seq::empty(), None),
        Some((w1, rest)) => (
            w1,
            match next_word(rest) {
                Some((w2, _)) => Some(w2),
                None => None,
            },
        ),
    }
}

/// The lowercase form of an optional word.
pub open spec fn lower_opt(w: Option<Seq<char>>) -> Option<Seq<char>> {
    match w {
        Some(x) => Some(lowered(x)),
        None => None,
    }
}

/// Whether the words of the slash form `hint` (at most two, as every
/// command has) begin the words `w1`, `w2` of a text, case-insensitively:
/// the first words agree, and so do the second ones when the hint has one.
/// Words of the text after the hint's are its arguments.
pub open spec fn hint_matches(hint: Seq<char>, w1: Seq<char>, w2: Option<Seq<char>>) -> bool {
    let (h1, h2) = two_words(strip_lead(hint, '/'));
    lowered(h1) == lowered(w1) && (h2 is None || lower_opt(h2) == lower_opt(w2))
}

/// The action of the first command from index `k` on that matches.
pub open spec fn first_command(k: int, w1: Seq<char>, w2: Option<Seq<char>>) -> Option<Action>
    decreases command_table().len() - k,
{
    if k < 0 || k >= command_table().len() {
        None
    } else if hint_matches(command_table()[k].1, w1, w2) {
        Some(command_table()[k].2)
    } else {
        first_command(k + 1, w1, w2)
    }
}

/// The result of `parse_slash`.
pub open spec fn slash_action(text: Seq<char>) -> Option<Action> {
    let x = strip_lead(trim(text), '/');
    match next_word(x) {
        None => None,
        Some(_) => {
            let (w1, w2) = two_words(x);
            first_command(0, w1, w2)
        },
    }
}

/// The lowercase form of the characters `cs`.
fn lower_chars(cs: &[char]) -> (r: Vec<char>)
    ensures
        r@ == lowered(cs@),
{
    let s = string_of(cs);
    let l = str_to_lowercase(s.as_str());
    chars_of(l.as_str())
}

/// The first two words of `cs[lo..]`, lowered.
fn lower_two_words(cs: &[char], lo: usize) -> (r: (Vec<char>, Option<Vec<char>>))
    requires
        lo <= cs@.len(),
    ensures
        ({
            let (w1, w2) = two_words(cs@.skip(lo as int));
            &&& r.0@ == lowered(w1)
            &&& match r.1 {
                Some(v) => lower_opt(w2) == Some(v@),
                None => w2 is None,
            }
        }),
{
    match next_word_at(cs, lo) {
        None => {
            let e: Vec<char> = Vec::new();
            assert(e@ =~= Seq::<char>::empty());
            (lower_chars(e.as_slice()), None)
        },
        Some((a, b)) => {
            let w1 = slice_of(cs, a, b);
            proof {
                assert(cs@.skip(b as int) =~= cs@.skip(b as int));
            }
            let w2 = match next_word_at(cs, b) {
                None => None,
                Some((c, d)) => {
                    let v = slice_of(cs, c, d);
                    Some(lower_chars(v.as_slice()))
                },
            };
            (lower_chars(w1.as_slice()), w2)
        },
    }
}

/// Parses a slash command (the leading `/` may be left out): the first
/// command whose words begin the text's words, case-insensitively; words
/// after them are arguments.
pub fn parse_slash(text: &str) -> (r: Option<Action>)
    ensures
        r == slash_action(text@),
{
    let cs = chars_of(text);
    let (lo, hi) = trim_range(cs.as_slice(), 0, cs.len());
    let t = slice_of(cs.as_slice(), lo, hi);
    proof {
        assert(cs@.subrange(0, cs@.len() as int) =~= cs@);
    }
    let s = strip_lead_index(t.as_slice(), 0, t.len(), '/');
    proof {
        assert(t@.subrange(0, t@.len() as int) =~= t@);
        assert(strip_lead(t@, '/') =~= t@.skip(s as int));
    }
    assert(t@ == trim(text@));
    if next_word_at(t.as_slice(), s).is_none() {
        return None;
    }
    let (w1, w2) = lower_two_words(t.as_slice(), s);
    let cmds = all();
    let ghost tab = command_table();
    let ghost x = t@.skip(s as int);
    let ghost (sw1, sw2) = two_words(x);
    assert(x == strip_lead(trim(text@), '/'));
    let mut k: usize = 0;
    while k < cmds.len()
        invariant
            cmds@.map_values(|c: CommandDef| command_view(c)) == tab,
            tab == command_table(),
            x == strip_lead(trim(text@), '/'),
            next_word(x) is Some,
            (sw1, sw2) == two_words(x),
            0 <= k <= cmds@.len(),
            w1@ == lowered(sw1),
            match w2 {
                Some(v) => lower_opt(sw2) == Some(v@),
                None => sw2 is None,
            },
            first_command(0, sw1, sw2) == first_command(k as int, sw1, sw2),
        decreases cmds@.len() - k,
    {
        let hint = chars_of(cmds[k].hint);
        let hs = strip_lead_index(hint.as_slice(), 0, hint.len(), '/');
        proof {
            assert(hint@.subrange(0, hint@.len() as int) =~= hint@);
            assert(strip_lead(hint@, '/') =~= hint@.skip(hs as int));
            assert(tab[k as int] == command_view(cmds@[k as int]));
        }
        let (h1, h2) = lower_two_words(hint.as_slice(), hs);
        let second_eq = match (&h2, &w2) {
            (Some(a), Some(b)) => chars_eq(a.as_slice(), b.as_slice()),
            (None, _) => true,
            (Some(_), None) => false,
        };
        let ghost hv = hint@;
        proof {
            assert(tab[k as int].1 == hv);
            let (g1, g2) = two_words(strip_lead(hv, '/'));
            assert(h1@ == lowered(g1));
            assert(second_eq == (g2 is None || lower_opt(g2) == lower_opt(sw2)));
        }
        if chars_eq(h1.as_slice(), w1.as_slice()) && second_eq {
            assert(hint_matches(tab[k as int].1, sw1, sw2));
            let a = cmds[k].action.clone();
            assert(a == tab[k as int].2);
            assert(first_command(k as int, sw1, sw2) == Some(a));
            assert(x == strip_lead(trim(text@), '/'));
            assert(slash_action(text@) == first_command(0, sw1, sw2));
            return Some(a);
        }
        assert(!hint_matches(tab[k as int].1, sw1, sw2));
        k = k + 1;
    }
    None
}


// ---------------------------------------------------------------------------
// The commands parse back
// ---------------------------------------------------------------------------

/// Whether `w` holds no white space.
pub open spec fn no_ws(w: Seq<char>) -> bool {
    forall|i: int| 0 <= i < w.len() ==> !is_ws(#[trigger] w[i])
}

proof fn lemma_word_len_exact(s: Seq<char>, k: int)
    requires
        0 <= k <= s.len(),
        forall|i: int| 0 <= i < k ==> !is_ws(#[trigger] s[i]),
        k == s.len() || is_ws(s[k]),
    ensures
        word_len(s) == k,
    decreases k,
{
    if k > 0 {
        assert forall|i: int| 0 <= i < k - 1 implies !is_ws(#[trigger] s.drop_first()[i]) by {
            assert(s.drop_first()[i] == s[i + 1]);
        }
        if k < s.len() {
            assert(s.drop_first()[k - 1] == s[k]);
        }
        lemma_word_len_exact(s.drop_first(), k - 1);
    } else if s.len() > 0 {
        assert(is_ws(s[0]));
    }
}

/// The slash form `/w1` or `/w1 w2`.
pub open spec fn slash_form(w1: Seq<char>, w2: Option<Seq<char>>) -> Seq<char> {
    seq!['/'] + w1 + match w2 {
        Some(v) => seq![' '] + v,
        None => Seq::empty(),
    }
}

proof fn lemma_one_word(x: Seq<char>, w: Seq<char>, tail: Seq<char>)
    requires
        x == w + tail,
        w.len() > 0,
        no_ws(w),
        tail.len() == 0 || is_ws(tail[0]),
    ensures
        next_word(x) == Some((w, tail)),
{
    assert(!is_ws(x[0]));
    assert(trim_start_len(x) == 0);
    assert(trim_start(x) =~= x);
    assert forall|i: int| 0 <= i < w.len() implies !is_ws(#[trigger] x[i]) by {
        assert(x[i] == w[i]);
    }
    if tail.len() > 0 {
        assert(x[w.len() as int] == tail[0]);
    }
    lemma_word_len_exact(x, w.len() as int);
    assert(x.take(w.len() as int) =~= w);
    assert(x.skip(w.len() as int) =~= tail);
}

/// The words of a slash form are the words it was made of.
proof fn lemma_slash_form_words(w1: Seq<char>, w2: Option<Seq<char>>)
    requires
        w1.len() > 0,
        no_ws(w1),
        w1[0] != '/',
        w2 matches Some(v) ==> v.len() > 0 && no_ws(v),
    ensures
        trim(slash_form(w1, w2)) == slash_form(w1, w2),
        next_word(strip_lead(trim(slash_form(w1, w2)), '/')) is Some,
        two_words(strip_lead(trim(slash_form(w1, w2)), '/')) == (w1, w2),
{
    let h = slash_form(w1, w2);
    let tail: Seq<char> = match w2 {
        Some(v) => seq![' '] + v,
        None => Seq::empty(),
    };
    assert(h =~= seq!['/'] + (w1 + tail));
    assert(h[0] == '/');
    assert(!is_ws('/'));
    match w2 {
        Some(v) => {
            assert(h.last() == v.last());
            assert(!is_ws(v[v.len() - 1]));
        },
        None => {
            assert(h.last() == w1.last());
            assert(!is_ws(w1[w1.len() - 1]));
        },
    }
    crate::util::lemma_trim_untouched(h);
    let x = w1 + tail;
    assert(h.drop_first() =~= x);
    assert(x[0] == w1[0]);
    assert(lead_count(x, '/') == 0);
    assert(lead_count(h, '/') == 1);
    assert(strip_lead(h, '/') =~= x);
    lemma_one_word(x, w1, tail);
    match w2 {
        Some(v) => {
            assert(is_ws(tail[0]));
            assert(tail.drop_first() =~= v);
            assert(!is_ws(tail[1]));
            assert(trim_start_len(tail.drop_first()) == 0);
            assert(trim_start_len(tail) == 1);
            assert(trim_start(tail) =~= v);
            assert(trim_start(v) =~= v);
            lemma_one_word(v, v, Seq::empty());
            assert(v + Seq::<char>::empty() =~= v);
        },
        None => {
            assert(trim_start(tail).len() == 0);
        },
    }
}


/// Whether `w` is made of lowercase ASCII letters only.
pub open spec fn lower_letters(w: Seq<char>) -> bool
    decreases w.len(),
{
    w.len() == 0 || ('a' <= w[0] && w[0] <= 'z' && lower_letters(w.drop_first()))
}

proof fn lemma_lower_letters(w: Seq<char>)
    requires
        lower_letters(w),
    ensures
        forall|i: int| 0 <= i < w.len() ==> 'a' <= #[trigger] w[i] && w[i] <= 'z',
        no_ws(w),
        is_ascii_text(w),
        ascii_lower(w) == w,
        lowered(w) == w,
    decreases w.len(),
{
    if w.len() > 0 {
        lemma_lower_letters(w.drop_first());
        assert forall|i: int| 0 <= i < w.len() implies 'a' <= #[trigger] w[i] && w[i] <= 'z' by {
            if i > 0 {
                assert(w[i] == w.drop_first()[i - 1]);
            }
        }
    }
    assert forall|i: int| 0 <= i < w.len() implies !is_ws(#[trigger] w[i]) by {
        assert('a' <= w[i] && w[i] <= 'z');
    }
    assert forall|i: int| 0 <= i < w.len() implies (#[trigger] w[i] as u32) < 128 by {
        assert('a' <= w[i] && w[i] <= 'z');
    }
    assert(ascii_lower(w) =~= w);
}

/// The words of each command's slash form, in table order.
pub open spec fn command_words() -> Seq<(Seq<char>, Option<Seq<char>>)> {
    seq![
        ("model"@, None),
        ("provider"@, Some("add"@)),
        ("provider"@, Some("edit"@)),
        ("provider"@, Some("del"@)),
        ("provider"@, Some("use"@)),
        ("prompt"@, None),
        ("clear"@, None),
        ("export"@, None),
        ("copy"@, None),
        ("regen"@, None),
        ("paste"@, None),
        ("quit"@, None),
    ]
}



/// The facts about the command table's literal forms.
proof fn lemma_command_forms()
    ensures
        command_words().len() == command_table().len(),
        forall|k: int|
            0 <= k < command_table().len() ==> {
                &&& (#[trigger] command_table()[k]).1 == slash_form(command_words()[k].0, command_words()[k].1)
                &&& lower_letters(command_words()[k].0)
                &&& command_words()[k].0.len() > 0
                &&& command_words()[k].1 matches Some(v) ==> lower_letters(v) && v.len() > 0
            },
        forall|k: int|
            #![trigger command_words()[k]]
            0 <= k < command_table().len() ==> ({
                let (w1, w2) = command_words()[k];
                forall|j: int|
                    0 <= j < k ==> (#[trigger] command_words()[j].0 != w1 || (command_words()[j].1 is Some
                        && w2 is Some && command_words()[j].1 != w2))
            }),
{
    reveal_strlit("/clear");
    reveal_strlit("/copy");
    reveal_strlit("/export");
    reveal_strlit("/model");
    reveal_strlit("/paste");
    reveal_strlit("/prompt");
    reveal_strlit("/provider add");
    reveal_strlit("/provider del");
    reveal_strlit("/provider edit");
    reveal_strlit("/provider use");
    reveal_strlit("/quit");
    reveal_strlit("/regen");
    reveal_strlit("add");
    reveal_strlit("clear");
    reveal_strlit("copy");
    reveal_strlit("del");
    reveal_strlit("edit");
    reveal_strlit("export");
    reveal_strlit("model");
    reveal_strlit("paste");
    reveal_strlit("prompt");
    reveal_strlit("provider");
    reveal_strlit("quit");
    reveal_strlit("regen");
    reveal_strlit("use");
    reveal_with_fuel(lower_letters, 9);
    assert("add"@.len() == 3 && "add"@[0] == 'a');
    assert("clear"@.len() == 5 && "clear"@[0] == 'c');
    assert("copy"@.len() == 4 && "copy"@[0] == 'c');
    assert("del"@.len() == 3 && "del"@[0] == 'd');
    assert("edit"@.len() == 4 && "edit"@[0] == 'e');
    assert("export"@.len() == 6 && "export"@[0] == 'e');
    assert("model"@.len() == 5 && "model"@[0] == 'm');
    assert("paste"@.len() == 5 && "paste"@[0] == 'p');
    assert("prompt"@.len() == 6 && "prompt"@[0] == 'p');
    assert("provider"@.len() == 8 && "provider"@[0] == 'p');
    assert("quit"@.len() == 4 && "quit"@[0] == 'q');
    assert("regen"@.len() == 5 && "regen"@[0] == 'r');
    assert("use"@.len() == 3 && "use"@[0] == 'u');
    assert("/model"@ =~= slash_form("model"@, None));
    assert(lower_letters("model"@));
    assert("/provider add"@ =~= slash_form("provider"@, Some("add"@)));
    assert(lower_letters("provider"@));
    assert(lower_letters("add"@));
    assert("/provider edit"@ =~= slash_form("provider"@, Some("edit"@)));
    assert(lower_letters("provider"@));
    assert(lower_letters("edit"@));
    assert("/provider del"@ =~= slash_form("provider"@, Some("del"@)));
    assert(lower_letters("provider"@));
    assert(lower_letters("del"@));
    assert("/provider use"@ =~= slash_form("provider"@, Some("use"@)));
    assert(lower_letters("provider"@));
    assert(lower_letters("use"@));
    assert("/prompt"@ =~= slash_form("prompt"@, None));
    assert(lower_letters("prompt"@));
    assert("/clear"@ =~= slash_form("clear"@, None));
    assert(lower_letters("clear"@));
    assert("/export"@ =~= slash_form("export"@, None));
    assert(lower_letters("export"@));
    assert("/copy"@ =~= slash_form("copy"@, None));
    assert(lower_letters("copy"@));
    assert("/regen"@ =~= slash_form("regen"@, None));
    assert(lower_letters("regen"@));
    assert("/paste"@ =~= slash_form("paste"@, None));
    assert(lower_letters("paste"@));
    assert("/quit"@ =~= slash_form("quit"@, None));
    assert(lower_letters("quit"@));
}

proof fn lemma_first_command_skip(j: int, k: int, w1: Seq<char>, w2: Option<Seq<char>>)
    requires
        0 <= j <= k < command_table().len(),
        forall|i: int| j <= i < k ==> !hint_matches(#[trigger] command_table()[i].1, w1, w2),
    ensures
        first_command(j, w1, w2) == first_command(k, w1, w2),
    decreases k - j,
{
    if j < k {
        lemma_first_command_skip(j + 1, k, w1, w2);
    }
}

/// The words of the `k`-th command's slash form, as `hint_matches` reads them.
proof fn lemma_hint_words(k: int)
    requires
        0 <= k < command_table().len(),
    ensures
        two_words(strip_lead(command_table()[k].1, '/')) == command_words()[k],
        lowered(command_words()[k].0) == command_words()[k].0,
        lower_opt(command_words()[k].1) == command_words()[k].1,
        trim(command_table()[k].1) == command_table()[k].1,
        next_word(strip_lead(command_table()[k].1, '/')) is Some,
{
    lemma_command_forms();
    let (w1, w2) = command_words()[k];
    assert(command_table()[k].1 == slash_form(w1, w2));
    lemma_lower_letters(w1);
    assert(w1[0] != '/') by {
        assert('a' <= w1[0] && w1[0] <= 'z');
    }
    if let Some(v) = w2 {
        lemma_lower_letters(v);
    }
    lemma_slash_form_words(w1, w2);
}

/// A text parses to the `k`-th command when its words, once leading slashes
/// and surrounding white space are gone, are that command's words in any
/// letter case: the first word, and the second when the command has one
/// (further words are arguments). In particular every command's own slash
/// form parses to its action, upper-cased, padded with white space or
/// written without its `/`.
pub proof fn lemma_command_words_parse(t: Seq<char>, k: int)
    requires
        0 <= k < command_table().len(),
        next_word(strip_lead(trim(t), '/')) is Some,
        lowered(two_words(strip_lead(trim(t), '/')).0) == command_words()[k].0,
        command_words()[k].1 matches Some(h2) ==> lower_opt(two_words(strip_lead(trim(t), '/')).1) == Some(h2),
    ensures
        slash_action(t) == Some(command_table()[k].2),
{
    lemma_command_forms();
    let (v1, v2) = two_words(strip_lead(trim(t), '/'));
    assert forall|i: int| 0 <= i < k implies !hint_matches(#[trigger] command_table()[i].1, v1, v2) by {
        lemma_hint_words(i);
        let (w1, w2) = command_words()[k];
        assert(command_words()[i].0 != w1 || (command_words()[i].1 is Some && w2 is Some && command_words()[i].1
            != w2));
    }
    lemma_hint_words(k);
    assert(hint_matches(command_table()[k].1, v1, v2));
    lemma_first_command_skip(0, k, v1, v2);
}

/// Every command's own slash form parses to its action.
pub proof fn lemma_hint_parses(k: int)
    requires
        0 <= k < command_table().len(),
    ensures
        slash_action(command_table()[k].1) == Some(command_table()[k].2),
{
    lemma_hint_words(k);
    lemma_command_words_parse(command_table()[k].1, k);
}

proof fn lemma_first_command_in_table(j: int, w1: Seq<char>, w2: Option<Seq<char>>)
    ensures
        first_command(j, w1, w2) matches Some(a) ==> exists|k: int|
            0 <= k < command_table().len() && #[trigger] command_table()[k].2 == a,
    decreases command_table().len() - j,
{
    if 0 <= j < command_table().len() && !hint_matches(command_table()[j].1, w1, w2) {
        lemma_first_command_in_table(j + 1, w1, w2);
    }
}

/// Whatever a text parses to is the action of a command of the table.
pub proof fn lemma_parsed_actions_are_commands(t: Seq<char>)
    ensures
        slash_action(t) matches Some(a) ==> exists|k: int|
            0 <= k < command_table().len() && #[trigger] command_table()[k].2 == a,
{
    let x = strip_lead(trim(t), '/');
    if next_word(x) is Some {
        let (w1, w2) = two_words(x);
        lemma_first_command_in_table(0, w1, w2);
    }
}


/// The ASCII uppercase of a text: `a`-`z` become `A`-`Z`, the others stay.
pub open spec fn ascii_upper(s: Seq<char>) -> Seq<char> {
    s.map_values(|c: char| if 'a' <= c && c <= 'z' { ((c as u32) - 32) as char } else { c })
}

proof fn lemma_upper_word(w: Seq<char>)
    requires
        lower_letters(w),
    ensures
        ascii_upper(w).len() == w.len(),
        ascii_upper(w).len() > 0 ==> ascii_upper(w)[0] != '/',
        no_ws(ascii_upper(w)),
        lowered(ascii_upper(w)) == w,
{
    lemma_lower_letters(w);
    let u = ascii_upper(w);
    assert forall|i: int| 0 <= i < u.len() implies 'A' <= #[trigger] u[i] && u[i] <= 'Z' by {
        assert('a' <= w[i] && w[i] <= 'z');
    }
    assert forall|i: int| 0 <= i < u.len() implies !is_ws(#[trigger] u[i]) by {
        assert('A' <= u[i] && u[i] <= 'Z');
    }
    assert forall|i: int| 0 <= i < u.len() implies (#[trigger] u[i] as u32) < 128 by {
        assert('A' <= u[i] && u[i] <= 'Z');
    }
    assert forall|i: int| 0 <= i < u.len() implies #[trigger] ascii_lower(u)[i] == w[i] by {
        assert('A' <= u[i] && u[i] <= 'Z');
        assert(ascii_lower_char(u[i]) == w[i]);
    }
    assert(ascii_lower(u) =~= w);
}

/// Every command's slash form, upper-cased, parses to its action.
pub proof fn lemma_upper_hint_parses(k: int)
    requires
        0 <= k < command_table().len(),
    ensures
        slash_action(ascii_upper(command_table()[k].1)) == Some(command_table()[k].2),
{
    lemma_command_forms();
    let (w1, w2) = command_words()[k];
    lemma_upper_word(w1);
    let u2: Option<Seq<char>> = match w2 {
        Some(v) => Some(ascii_upper(v)),
        None => None,
    };
    if let Some(v) = w2 {
        lemma_upper_word(v);
    }
    let h = command_table()[k].1;
    assert(h == slash_form(w1, w2));
    assert(ascii_upper(h) =~= slash_form(ascii_upper(w1), u2));
    lemma_slash_form_words(ascii_upper(w1), u2);
    lemma_command_words_parse(ascii_upper(h), k);
}


proof fn lemma_ws_prefix(p: Seq<char>, x: Seq<char>)
    requires
        forall|i: int| 0 <= i < p.len() ==> is_ws(#[trigger] p[i]),
        x.len() == 0 || !is_ws(x[0]),
    ensures
        trim_start_len(p + x) == p.len(),
    decreases p.len(),
{
    if p.len() > 0 {
        assert((p + x).drop_first() =~= p.drop_first() + x);
        assert((p + x)[0] == p[0]);
        assert forall|i: int| 0 <= i < p.drop_first().len() implies is_ws(#[trigger] p.drop_first()[i]) by {
            assert(p.drop_first()[i] == p[i + 1]);
        }
        lemma_ws_prefix(p.drop_first(), x);
    } else {
        assert(p + x =~= x);
    }
}

proof fn lemma_ws_suffix(x: Seq<char>, q: Seq<char>)
    requires
        forall|i: int| 0 <= i < q.len() ==> is_ws(#[trigger] q[i]),
        x.len() == 0 || !is_ws(x.last()),
    ensures
        crate::util::trim_end_len(x + q) == x.len(),
    decreases q.len(),
{
    if q.len() > 0 {
        assert((x + q).drop_last() =~= x + q.drop_last());
        assert((x + q).last() == q[q.len() - 1]);
        lemma_ws_suffix(x, q.drop_last());
    } else {
        assert(x + q =~= x);
    }
}

/// Every command's slash form parses to its action with white space around
/// it, and without its leading `/`.
pub proof fn lemma_padded_hint_parses(k: int, pre: Seq<char>, post: Seq<char>)
    requires
        0 <= k < command_table().len(),
        forall|i: int| 0 <= i < pre.len() ==> is_ws(#[trigger] pre[i]),
        forall|i: int| 0 <= i < post.len() ==> is_ws(#[trigger] post[i]),
    ensures
        slash_action(pre + command_table()[k].1 + post) == Some(command_table()[k].2),
        slash_action(command_table()[k].1.skip(1)) == Some(command_table()[k].2),
{
    lemma_command_forms();
    lemma_hint_parses(k);
    lemma_hint_words(k);
    let h = command_table()[k].1;
    let (w1, w2) = command_words()[k];
    lemma_lower_letters(w1);
    if let Some(v) = w2 {
        lemma_lower_letters(v);
    }
    assert(h == slash_form(w1, w2));
    assert(h[0] == '/');
    assert(!is_ws(h[0]));
    let last_ok = !is_ws(h.last());
    assert(last_ok) by {
        match w2 {
            Some(v) => {
                assert(h.last() == v[v.len() - 1]);
            },
            None => {
                assert(h.last() == w1[w1.len() - 1]);
            },
        }
    }
    let t = pre + h + post;
    lemma_ws_prefix(pre, h + post);
    assert(t =~= pre + (h + post));
    assert(crate::util::trim_start(t) =~= h + post);
    lemma_ws_suffix(h, post);
    assert(trim(t) =~= h);
    assert(trim(h) == h);
    let x = h.skip(1);
    assert(x[0] == w1[0]);
    assert('a' <= w1[0] && w1[0] <= 'z');
    assert(x.last() == h.last());
    crate::util::lemma_trim_untouched(x);
    assert(lead_count(h.drop_first(), '/') == 0);
    assert(h.drop_first() =~= x);
    assert(lead_count(h, '/') == 1);
    assert(strip_lead(h, '/') =~= x);
    assert(strip_lead(x, '/') =~= x);
}

} // verus!
