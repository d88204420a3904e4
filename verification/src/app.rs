//! The decisions of the application: which provider and model a new session
//! takes, what a request carries, scrolling and selection, exports, and the
//! configuration changes of the forms.
use vstd::prelude::*;

use crate::config::{first_named, Config, Provider};
use crate::llm::{opt_view, ChatMessage};
use crate::model::{role_name, Message, Role, Session};
use crate::state::{wrap_down, wrap_up, FormPurpose, FormState};
use crate::util::{chars_of, contains_chars, contains_seq, push_all, str_eq, string_of, trim, trim_range};

verus! {

// ---------------------------------------------------------------------------
// Providers for new sessions and requests
// ---------------------------------------------------------------------------

/// Whether a base address points at this machine.
pub open spec fn is_local(base_url: Seq<char>) -> bool {
    contains_seq(base_url, "localhost"@) || contains_seq(base_url, "127.0.0.1"@)
}

/// Whether requests to `p` can authenticate: a key, or a local server.
pub open spec fn has_credentials(p: Provider) -> bool {
    trim(p.api_key@).len() > 0 || is_local(p.base_url@)
}

/// Whether `p` can be used for a new session (`env_key`: a non-blank
/// `TUAI_API_KEY` is set).
pub open spec fn usable(p: Provider, env_key: bool) -> bool {
    env_key || has_credentials(p)
}

/// Whether the base address of a provider points at this machine.
pub fn base_is_local(base_url: &str) -> (r: bool)
    ensures
        r == is_local(base_url@),
{
    let cs = chars_of(base_url);
    contains_chars(cs.as_slice(), chars_of("localhost").as_slice()) || contains_chars(
        cs.as_slice(),
        chars_of("127.0.0.1").as_slice(),
    )
}

/// Whether requests to `p` can authenticate.
pub fn provider_has_credentials(p: &Provider) -> (r: bool)
    ensures
        r == has_credentials(*p),
{
    let k = chars_of(p.api_key.as_str());
    let (a, b) = trim_range(k.as_slice(), 0, k.len());
    assert(k@.subrange(0, k@.len() as int) =~= k@);
    a < b || base_is_local(p.base_url.as_str())
}

/// The provider of a new session: the default provider when usable, else
/// the first usable provider, else the default provider's name anyway.
pub open spec fn default_choice(c: Config, env_key: bool) -> Seq<char> {
    let def = c.default_provider@;
    let ps = c.providers@;
    if exists|i: int| first_named(ps, def, i) && usable(ps[i], env_key) {
        def
    } else if exists|i: int| 0 <= i < ps.len() && usable(#[trigger] ps[i], env_key) {
        ps[first_usable(ps, env_key)].name@
    } else {
        def
    }
}

/// Index of the first usable provider.
pub open spec fn first_usable(ps: Seq<Provider>, env_key: bool) -> int
    decreases ps.len(),
{
    if ps.len() == 0 || usable(ps[0], env_key) {
        0
    } else {
        1 + first_usable(ps.drop_first(), env_key)
    }
}

proof fn lemma_first_usable(ps: Seq<Provider>, env_key: bool, k: int)
    requires
        0 <= k < ps.len(),
        usable(ps[k], env_key),
        forall|j: int| 0 <= j < k ==> !usable(#[trigger] ps[j], env_key),
    ensures
        first_usable(ps, env_key) == k,
    decreases k,
{
    if k > 0 {
        assert(!usable(ps[0], env_key));
        assert forall|j: int| 0 <= j < k - 1 implies !usable(#[trigger] ps.drop_first()[j], env_key) by {
            assert(ps.drop_first()[j] == ps[j + 1]);
        }
        lemma_first_usable(ps.drop_first(), env_key, k - 1);
    }
}

/// Picks the provider of a new session.
pub fn pick_default_provider(config: &Config, env_key: bool) -> (r: String)
    ensures
        r@ == default_choice(*config, env_key),
{
    let def = config.default_provider.as_str();
    match config.provider(def) {
        Some(p) => {
            if env_key || provider_has_credentials(p) {
                return string_of(chars_of(def).as_slice());
            }
            assert(!(exists|i: int| first_named(config.providers@, def@, i) && usable(config.providers@[i], env_key)));
        },
        None => {
            assert(!(exists|i: int| first_named(config.providers@, def@, i)));
        },
    }
    let mut i: usize = 0;
    while i < config.providers.len()
        invariant
            0 <= i <= config.providers@.len(),
            def@ == config.default_provider@,
            forall|j: int| 0 <= j < i ==> !usable(#[trigger] config.providers@[j], env_key),
            !(exists|k: int| first_named(config.providers@, def@, k) && usable(config.providers@[k], env_key)),
        decreases config.providers@.len() - i,
    {
        let p = &config.providers[i];
        if env_key || provider_has_credentials(p) {
            proof {
                lemma_first_usable(config.providers@, env_key, i as int);
            }
            return p.name.clone();
        }
        i = i + 1;
    }
    string_of(chars_of(def).as_slice())
}

/// The provider and model of a new session: the ones used last, when that
/// provider still exists (its default model when none was remembered);
/// otherwise the picked provider with its default model.
pub open spec fn new_session_choice(c: Config, env_key: bool) -> (Seq<char>, Seq<char>) {
    match c.last_provider {
        Some(lp) if exists|i: int| first_named(c.providers@, lp@, i) => {
            let i = choose|i: int| first_named(c.providers@, lp@, i);
            let model = match c.last_model {
                Some(m) if m@.len() > 0 => m@,
                _ => c.providers@[i].default_model@,
            };
            (lp@, model)
        },
        _ => {
            let p = default_choice(c, env_key);
            let model = if exists|i: int| first_named(c.providers@, p, i) {
                c.providers@[choose|i: int| first_named(c.providers@, p, i)].default_model@
            } else {
                Seq::empty()
            };
            (p, model)
        },
    }
}

proof fn lemma_first_named_unique(ps: Seq<Provider>, name: Seq<char>, i: int, j: int)
    requires
        first_named(ps, name, i),
        first_named(ps, name, j),
    ensures
        i == j,
{
}

/// The provider and model of a new session (`env_key`: a non-blank
/// `TUAI_API_KEY` is set).
pub fn new_session_provider_model(config: &Config, env_key: bool) -> (r: (String, String))
    ensures
        (r.0@, r.1@) == new_session_choice(*config, env_key),
{
    if let Some(lp) = &config.last_provider {
        if let Some(prov) = config.provider(lp.as_str()) {
            let ghost i = choose|i: int| first_named(config.providers@, lp@, i);
            proof {
                let k = choose|k: int| first_named(config.providers@, lp@, k) && *prov == config.providers@[k];
                lemma_first_named_unique(config.providers@, lp@, i, k);
            }
            let model = match &config.last_model {
                Some(m) if chars_of(m.as_str()).len() > 0 => m.clone(),
                _ => prov.default_model.clone(),
            };
            return (lp.clone(), model);
        }
    }
    let provider = pick_default_provider(config, env_key);
    let model = match config.provider(provider.as_str()) {
        Some(p) => {
            proof {
                let k = choose|k: int| first_named(config.providers@, provider@, k) && *p == config.providers@[k];
                let i = choose|i: int| first_named(config.providers@, provider@, i);
                lemma_first_named_unique(config.providers@, provider@, i, k);
            }
            p.default_model.clone()
        },
        None => String::new(),
    };
    (provider, model)
}

/// A new session takes the provider and the model used last, while that
/// provider still exists and a model was remembered (`remember_choice`
/// records them), whatever the default provider is.
pub proof fn lemma_remembered_choice_reused(c: Config, env_key: bool, provider: String, model: String)
    requires
        c.last_provider == Some(provider),
        c.last_model == Some(model),
        model@.len() > 0,
        exists|i: int| 0 <= i < c.providers@.len() && c.providers@[i].name@ == provider@,
    ensures
        new_session_choice(c, env_key) == (provider@, model@),
{
    let k = choose|i: int| 0 <= i < c.providers@.len() && c.providers@[i].name@ == provider@;
    crate::config::lemma_first_named_exists(c.providers@, provider@, k);
    let lp = c.last_provider.unwrap();
    assert(lp@ == provider@);
    assert(exists|i: int| first_named(c.providers@, lp@, i));
    let m = c.last_model.unwrap();
    assert(m@.len() > 0);
}

/// The history sent with a request: every message but system ones, in order.
pub open spec fn history_of(ms: Seq<Message>) -> Seq<(Seq<char>, Seq<char>)>
    decreases ms.len(),
{
    if ms.len() == 0 {
        Seq::empty()
    } else {
        let prev = history_of(ms.drop_last());
        let m = ms.last();
        if m.role == Role::System {
            prev
        } else {
            prev.push((role_name(m.role), m.content@))
        }
    }
}

/// The request history of the messages of a session.
pub fn chat_history(messages: &Vec<Message>) -> (r: Vec<ChatMessage>)
    ensures
        r@.map_values(|m: ChatMessage| crate::llm::message_view(m)) == history_of(messages@),
{
    let mut out: Vec<ChatMessage> = Vec::new();
    let mut i: usize = 0;
    while i < messages.len()
        invariant
            0 <= i <= messages@.len(),
            out@.map_values(|m: ChatMessage| crate::llm::message_view(m)) == history_of(messages@.take(i as int)),
        decreases messages@.len() - i,
    {
        let m = &messages[i];
        proof {
            assert(messages@.take(i + 1).drop_last() =~= messages@.take(i as int));
            assert(messages@.take(i + 1).last() == messages@[i as int]);
        }
        if m.role != Role::System {
            let ghost before = out@;
            let cm = ChatMessage::new(m.role.as_str(), m.content.clone());
            let ghost v = crate::llm::message_view(cm);
            out.push(cm);
            assert(out@.map_values(|m: ChatMessage| crate::llm::message_view(m)) =~= before.map_values(
                |m: ChatMessage| crate::llm::message_view(m),
            ).push(v));
        }
        i = i + 1;
    }
    assert(messages@.take(messages@.len() as int) =~= messages@);
    out
}

/// A non-blank text.
pub open spec fn non_blank(s: Option<Seq<char>>) -> Option<Seq<char>> {
    match s {
        Some(t) if trim(t).len() > 0 => Some(t),
        _ => None,
    }
}

/// Whether an optional string is present and not blank.
fn is_non_blank(s: &Option<String>) -> (r: bool)
    ensures
        r == (non_blank(opt_view(*s)) is Some),
{
    match s {
        Some(t) => {
            let k = chars_of(t.as_str());
            let (a, b) = trim_range(k.as_slice(), 0, k.len());
            assert(k@.subrange(0, k@.len() as int) =~= k@);
            a < b
        },
        None => false,
    }
}

/// The system prompt of a request: the session's when not blank, else the
/// configuration's when not blank.
pub fn effective_system_prompt(session_prompt: &Option<String>, config_prompt: &Option<String>) -> (r:
    Option<String>)
    ensures
        opt_view(r) == match non_blank(opt_view(*session_prompt)) {
            Some(t) => Some(t),
            None => non_blank(opt_view(*config_prompt)),
        },
{
    if is_non_blank(session_prompt) {
        session_prompt.clone()
    } else if is_non_blank(config_prompt) {
        config_prompt.clone()
    } else {
        None
    }
}

// ---------------------------------------------------------------------------
// Scrolling and selection
// ---------------------------------------------------------------------------

/// `a - b`, or 0.
pub open spec fn sat_sub(a: int, b: int) -> int {
    if a > b {
        a - b
    } else {
        0
    }
}

/// The chat offset after scrolling up `n` lines (from the bottom when following it).
pub fn scroll_up(scroll: Option<u16>, total: u16, height: u16, n: u16) -> (r: Option<u16>)
    ensures
        r == Some(
            sat_sub(
                match scroll {
                    Some(o) => o as int,
                    None => sat_sub(total as int, height as int),
                },
                n as int,
            ) as u16,
        ),
{
    let max = total.saturating_sub(height);
    let cur = match scroll {
        Some(o) => o,
        None => max,
    };
    Some(cur.saturating_sub(n))
}

/// The chat offset after scrolling down `n` lines: following the bottom
/// again once the bottom is reached.
pub fn scroll_down(scroll: Option<u16>, total: u16, height: u16, n: u16) -> (r: Option<u16>)
    requires
        scroll matches Some(o) ==> o + n <= u16::MAX,
    ensures
        match scroll {
            None => r is None,
            Some(o) => if o + n >= sat_sub(total as int, height as int) {
                r is None
            } else {
                r == Some((o + n) as u16)
            },
        },
{
    let max = total.saturating_sub(height);
    match scroll {
        None => None,
        Some(o) => if o + n >= max {
            None
        } else {
            Some(o + n)
        },
    }
}

/// The offset that brings the line range `[start, end)` into a view of
/// `height` lines, as `scroll_to_sel` computes it.
pub open spec fn offset_for(start: int, end: int, cur: int, height: int, max: int) -> Option<int> {
    let o1 = if start < cur {
        start
    } else {
        cur
    };
    let o2 = if end > o1 + height {
        sat_sub(end, height)
    } else {
        o1
    };
    let o3 = if o2 < max {
        o2
    } else {
        max
    };
    if o3 >= max {
        None
    } else {
        Some(o3)
    }
}

/// The chat offset that shows the selected message (whose line range is
/// `ranges[sel]`); `None` follows the bottom.
pub fn scroll_to_sel(sel: Option<usize>, ranges: &Vec<(u16, u16)>, scroll: Option<u16>, total: u16, height: u16) -> (r:
    Option<u16>)
    requires
        scroll matches Some(o) ==> o + height <= u16::MAX,
    ensures
        match sel {
            None => r == scroll,
            Some(i) => if i < ranges@.len() {
                let max = sat_sub(total as int, height as int);
                let cur = match scroll {
                    Some(o) => o as int,
                    None => max,
                };
                match offset_for(ranges@[i as int].0 as int, ranges@[i as int].1 as int, cur, height as int, max) {
                    Some(o) => r == Some(o as u16),
                    None => r is None,
                }
            } else {
                r is None
            },
        },
{
    let i = match sel {
        None => return scroll,
        Some(i) => i,
    };
    if i >= ranges.len() {
        return None;
    }
    let (start, end) = ranges[i];
    let h = height;
    let max = total.saturating_sub(h);
    let cur = match scroll {
        Some(o) => o,
        None => max,
    };
    let mut o = cur;
    if start < o {
        o = start;
    }
    if end > o + h {
        o = end.saturating_sub(h);
    }
    if o > max {
        o = max;
    }
    if o >= max {
        None
    } else {
        Some(o)
    }
}

/// The selected message after `j`/Down: the first when none, then the next,
/// from the last to the first.
pub fn next_message(sel: Option<usize>, n: usize) -> (r: Option<usize>)
    ensures
        match sel {
            None => r == Some(0usize),
            Some(i) => if n > 0 {
                r == Some(wrap_down(i as int, n as int) as usize)
            } else {
                r == sel
            },
        },
{
    match sel {
        None => Some(0),
        Some(i) => if n > 0 {
            Some(((i as u128 + 1) % (n as u128)) as usize)
        } else {
            Some(i)
        },
    }
}

/// The selected message after `k`/Up: the last when none, then the
/// previous, from the first to the last.
pub fn prev_message(sel: Option<usize>, n: usize) -> (r: Option<usize>)
    requires
        !(sel == Some(0usize) && n == 0),
    ensures
        match sel {
            None => if n > 0 {
                r == Some((n - 1) as usize)
            } else {
                r is None
            },
            Some(i) => r == Some(wrap_up(i as int, n as int) as usize),
        },
{
    match sel {
        None => if n > 0 {
            Some(n - 1)
        } else {
            None
        },
        Some(i) => if i == 0 {
            Some(n - 1)
        } else {
            Some(i - 1)
        },
    }
}

/// The sidebar selection after `j`/Down, from the last to the first.
pub fn sidebar_down(sel: usize, n: usize) -> (r: usize)
    ensures
        n > 0 ==> r == wrap_down(sel as int, n as int),
        n == 0 ==> r == sel,
{
    if n > 0 {
        ((sel as u128 + 1) % (n as u128)) as usize
    } else {
        sel
    }
}

/// The sidebar selection after `k`/Up, from the first to the last.
pub fn sidebar_up(sel: usize, n: usize) -> (r: usize)
    ensures
        n > 0 ==> r == wrap_up(sel as int, n as int),
        n == 0 ==> r == sel,
{
    if n > 0 {
        if sel == 0 {
            n - 1
        } else {
            sel - 1
        }
    } else {
        sel
    }
}

/// The selection kept after the messages were reloaded to `n` of them:
/// the same index, or the last message, or none.
pub fn clamp_selection(sel: Option<usize>, n: usize) -> (r: Option<usize>)
    ensures
        n == 0 ==> r is None,
        n > 0 ==> match sel {
            Some(i) => r == Some(if i < n { i } else { (n - 1) as usize }),
            None => r is None,
        },
{
    if n == 0 {
        return None;
    }
    match sel {
        Some(i) => Some(if i < n {
            i
        } else {
            n - 1
        }),
        None => None,
    }
}

/// Index of the last user message, the one a regeneration replies to.
pub fn last_user_index(messages: &Vec<Message>) -> (r: Option<usize>)
    ensures
        match r {
            Some(i) => i < messages@.len() && messages@[i as int].role == Role::User && forall|j: int|
                i < j < messages@.len() ==> messages@[j].role != Role::User,
            None => forall|j: int| 0 <= j < messages@.len() ==> messages@[j].role != Role::User,
        },
{
    let mut i = messages.len();
    while i > 0
        invariant
            0 <= i <= messages@.len(),
            forall|j: int| i <= j < messages@.len() ==> messages@[j].role != Role::User,
        decreases i,
    {
        if messages[i - 1].role == Role::User {
            return Some(i - 1);
        }
        i = i - 1;
    }
    None
}

/// The text whose last code block is copied: the newest assistant message,
/// else the reply being generated, else nothing.
pub fn copy_source(messages: &Vec<Message>, generating: Option<&String>) -> (r: String)
    ensures
        (exists|j: int| 0 <= j < messages@.len() && messages@[j].role == Role::Assistant) ==> exists|j: int|
            0 <= j < messages@.len() && messages@[j].role == Role::Assistant && r@ == messages@[j].content@
                && forall|k: int| j < k < messages@.len() ==> messages@[k].role != Role::Assistant,
        !(exists|j: int| 0 <= j < messages@.len() && messages@[j].role == Role::Assistant) ==> r@ == match generating {
            Some(g) => g@,
            None => Seq::<char>::empty(),
        },
{
    let mut i = messages.len();
    while i > 0
        invariant
            0 <= i <= messages@.len(),
            forall|j: int| i <= j < messages@.len() ==> messages@[j].role != Role::Assistant,
        decreases i,
    {
        if messages[i - 1].role == Role::Assistant {
            return messages[i - 1].content.clone();
        }
        i = i - 1;
    }
    match generating {
        Some(g) => g.clone(),
        None => String::new(),
    }
}

// ---------------------------------------------------------------------------
// Export
// ---------------------------------------------------------------------------

/// The heading of a message in an export.
pub open spec fn export_heading(r: Role) -> Seq<char> {
    match r {
        Role::User => "## 你"@,
        Role::Assistant => "## AI"@,
        Role::System => "## 系统"@,
    }
}

/// `s` with every `\n` followed by `> `.
pub open spec fn quote_lines(s: Seq<char>) -> Seq<char>
    decreases s.len(),
{
    if s.len() == 0 {
        Seq::empty()
    } else {
        let prev = quote_lines(s.drop_last());
        if s.last() == '\n' {
            prev + "\n> "@
        } else {
            prev.push(s.last())
        }
    }
}

/// The export of one message: heading, the reasoning as a quote when not
/// empty, and the content.
pub open spec fn export_message(m: Message) -> Seq<char> {
    let reasoning = match m.reasoning {
        Some(r) if r@.len() > 0 => "> 思考："@ + quote_lines(r@) + "\n\n"@,
        _ => Seq::empty(),
    };
    export_heading(m.role) + "\n\n"@ + reasoning + m.content@ + "\n\n"@
}

/// The exports of messages, in order.
pub open spec fn export_messages(ms: Seq<Message>) -> Seq<char>
    decreases ms.len(),
{
    if ms.len() == 0 {
        Seq::empty()
    } else {
        export_messages(ms.drop_last()) + export_message(ms.last())
    }
}

/// The Markdown export of a session.
pub open spec fn export_text(s: Session, ms: Seq<Message>) -> Seq<char> {
    "# "@ + s.title@ + "\n\n> "@ + s.provider@ + " · "@ + s.model@ + "\n\n"@ + export_messages(ms)
}

fn append_str(out: &mut Vec<char>, s: &str)
    ensures
        final(out)@ == old(out)@ + s@,
{
    push_all(out, chars_of(s).as_slice());
}

/// The characters of `s` with `\n` quoted.
fn quoted(s: &str) -> (r: Vec<char>)
    ensures
        r@ == quote_lines(s@),
{
    let cs = chars_of(s);
    let mut out: Vec<char> = Vec::new();
    let mut i: usize = 0;
    while i < cs.len()
        invariant
            0 <= i <= cs@.len(),
            out@ == quote_lines(cs@.take(i as int)),
        decreases cs@.len() - i,
    {
        proof {
            assert(cs@.take(i + 1).drop_last() =~= cs@.take(i as int));
            assert(cs@.take(i + 1).last() == cs@[i as int]);
        }
        if cs[i] == '\n' {
            append_str(&mut out, "\n> ");
        } else {
            out.push(cs[i]);
        }
        i = i + 1;
    }
    assert(cs@.take(cs@.len() as int) =~= cs@);
    out
}

/// Renders a session and its messages as Markdown.
pub fn export_markdown(session: &Session, messages: &Vec<Message>) -> (r: String)
    ensures
        r@ == export_text(*session, messages@),
{
    let mut out: Vec<char> = Vec::new();
    append_str(&mut out, "# ");
    append_str(&mut out, session.title.as_str());
    append_str(&mut out, "\n\n> ");
    append_str(&mut out, session.provider.as_str());
    append_str(&mut out, " · ");
    append_str(&mut out, session.model.as_str());
    append_str(&mut out, "\n\n");
    let ghost head = out@;
    assert(head =~= "# "@ + session.title@ + "\n\n> "@ + session.provider@ + " · "@ + session.model@ + "\n\n"@);
    let mut i: usize = 0;
    while i < messages.len()
        invariant
            0 <= i <= messages@.len(),
            out@ == head + export_messages(messages@.take(i as int)),
        decreases messages@.len() - i,
    {
        let m = &messages[i];
        let ghost before = out@;
        let h = match m.role {
            Role::User => "## 你",
            Role::Assistant => "## AI",
            Role::System => "## 系统",
        };
        append_str(&mut out, h);
        append_str(&mut out, "\n\n");
        if let Some(r) = &m.reasoning {
            if chars_of(r.as_str()).len() > 0 {
                append_str(&mut out, "> 思考：");
                push_all(&mut out, quoted(r.as_str()).as_slice());
                append_str(&mut out, "\n\n");
            }
        }
        append_str(&mut out, m.content.as_str());
        append_str(&mut out, "\n\n");
        proof {
            assert(out@ =~= before + export_message(*m));
            assert(messages@.take(i + 1).drop_last() =~= messages@.take(i as int));
            assert(messages@.take(i + 1).last() == messages@[i as int]);
        }
        i = i + 1;
    }
    assert(messages@.take(messages@.len() as int) =~= messages@);
    string_of(out.as_slice())
}

// ---------------------------------------------------------------------------
// Configuration changes
// ---------------------------------------------------------------------------

/// The model a new provider gets when the form leaves it empty.
pub open spec fn fallback_model(model: Seq<char>) -> Seq<char> {
    if model.len() == 0 {
        "gpt-4o-mini"@
    } else {
        model
    }
}

impl Config {
    /// Adds a provider from the provider form; `None` (nothing changed) when
    /// one with that name exists. The first provider becomes the default.
    /// Returns the model it got and whether it was the first.
    pub fn add_provider(&mut self, name: &str, base_url: &str, api_key: &str, model: &str) -> (r: Option<(String, bool)>)
        ensures
            (exists|i: int| 0 <= i < old(self).providers@.len() && old(self).providers@[i].name@ == name@) ==> r is None && *final(self) == *old(self),
            !(exists|i: int| 0 <= i < old(self).providers@.len() && old(self).providers@[i].name@ == name@) ==> {
                &&& r matches Some((m, first)) && m@ == fallback_model(model@) && first == (old(self).providers@.len() == 0)
                &&& final(self).providers@.len() == old(self).providers@.len() + 1
                &&& final(self).providers@.take(old(self).providers@.len() as int) == old(self).providers@
                &&& final(self).providers@.last().name@ == name@
                &&& final(self).providers@.last().base_url@ == base_url@
                &&& final(self).providers@.last().api_key@ == api_key@
                &&& final(self).providers@.last().default_model@ == fallback_model(model@)
                &&& final(self).default_provider@ == if old(self).providers@.len() == 0 { name@ } else { old(self).default_provider@ }
                &&& final(self).favorites == old(self).favorites
                &&& final(self).last_provider == old(self).last_provider
                &&& final(self).last_model == old(self).last_model
            },
    {
        match self.provider(name) {
            Some(_) => return None,
            None => {},
        }
        let m = if chars_of(model).len() == 0 {
            string_of(chars_of("gpt-4o-mini").as_slice())
        } else {
            string_of(chars_of(model).as_slice())
        };
        let is_first = self.providers.len() == 0;
        let ghost before = self.providers@;
        self.providers.push(
            Provider {
                name: string_of(chars_of(name).as_slice()),
                base_url: string_of(chars_of(base_url).as_slice()),
                api_key: string_of(chars_of(api_key).as_slice()),
                default_model: m.clone(),
            },
        );
        assert(self.providers@.take(before.len() as int) =~= before);
        if is_first {
            self.default_provider = string_of(chars_of(name).as_slice());
        }
        Some((m, is_first))
    }

    /// Applies the provider edit form to the provider `orig`: the base
    /// address always, the key and model when not empty, and the name when
    /// not empty and different (the default provider follows the rename).
    /// `None` when there is no such provider; else whether it was renamed.
    pub fn edit_provider(&mut self, orig: &str, new_name: &str, base_url: &str, api_key: &str, model: &str) -> (r:
        Option<bool>)
        ensures
            (forall|j: int| 0 <= j < old(self).providers@.len() ==> old(self).providers@[j].name@ != orig@) ==> r is None && *final(self) == *old(self),
            (exists|j: int| 0 <= j < old(self).providers@.len() && old(self).providers@[j].name@ == orig@) ==> r is Some,
            r matches Some(renamed) ==> exists|i: int| {
                &&& first_named(old(self).providers@, orig@, i)
                &&& renamed == (new_name@.len() > 0 && new_name@ != orig@)
                &&& final(self).providers@ == old(self).providers@.update(i, Provider {
                    name: if renamed { final(self).providers@[i].name } else { old(self).providers@[i].name },
                    base_url: final(self).providers@[i].base_url,
                    api_key: if api_key@.len() > 0 { final(self).providers@[i].api_key } else { old(self).providers@[i].api_key },
                    default_model: if model@.len() > 0 { final(self).providers@[i].default_model } else { old(self).providers@[i].default_model },
                })
                &&& final(self).providers@[i].base_url@ == base_url@
                &&& renamed ==> final(self).providers@[i].name@ == new_name@
                &&& api_key@.len() > 0 ==> final(self).providers@[i].api_key@ == api_key@
                &&& model@.len() > 0 ==> final(self).providers@[i].default_model@ == model@
                &&& final(self).default_provider@ == if renamed && old(self).default_provider@ == orig@ { new_name@ } else { old(self).default_provider@ }
                &&& final(self).favorites == old(self).favorites
            },
    {
        let mut idx: usize = 0;
        while idx < self.providers.len()
            invariant
                0 <= idx <= self.providers@.len(),
                forall|j: int| 0 <= j < idx ==> self.providers@[j].name@ != orig@,
            ensures
                0 <= idx <= self.providers@.len(),
                forall|j: int| 0 <= j < idx ==> self.providers@[j].name@ != orig@,
                idx < self.providers@.len() ==> self.providers@[idx as int].name@ == orig@,
            decreases self.providers@.len() - idx,
        {
            if str_eq(self.providers[idx].name.as_str(), orig) {
                break;
            }
            idx = idx + 1;
        }
        if idx == self.providers.len() {
            return None;
        }
        assert(first_named(self.providers@, orig@, idx as int));
        let old_p = self.providers[idx].clone();
        let renamed = chars_of(new_name).len() > 0 && !str_eq(new_name, orig);
        let p = Provider {
            name: if renamed { string_of(chars_of(new_name).as_slice()) } else { old_p.name.clone() },
            base_url: string_of(chars_of(base_url).as_slice()),
            api_key: if chars_of(api_key).len() > 0 { string_of(chars_of(api_key).as_slice()) } else { old_p.api_key.clone() },
            default_model: if chars_of(model).len() > 0 { string_of(chars_of(model).as_slice()) } else { old_p.default_model.clone() },
        };
        self.providers.set(idx, p);
        if renamed && str_eq(self.default_provider.as_str(), orig) {
            self.default_provider = string_of(chars_of(new_name).as_slice());
        }
        Some(renamed)
    }

    /// Deletes every provider named `name`; returns whether one was. The
    /// default provider moves to the first remaining one (or none) when it
    /// was deleted, and a remembered choice of it is forgotten.
    pub fn remove_provider(&mut self, name: &str) -> (r: bool)
        ensures
            final(self).providers@ == old(self).providers@.filter(|p: Provider| p.name@ != name@),
            r == (exists|i: int| 0 <= i < old(self).providers@.len() && old(self).providers@[i].name@ == name@),
            !r ==> *final(self) == *old(self),
            r ==> final(self).default_provider@ == if old(self).default_provider@ == name@ {
                if final(self).providers@.len() > 0 { final(self).providers@[0].name@ } else { Seq::empty() }
            } else {
                old(self).default_provider@
            },
            r ==> (match old(self).last_provider {
                Some(lp) if lp@ == name@ => final(self).last_provider is None && final(self).last_model is None,
                _ => final(self).last_provider == old(self).last_provider && final(self).last_model == old(self).last_model,
            }),
            final(self).favorites == old(self).favorites,
    {
        let ghost ps = self.providers@;
        let ghost keep = |p: Provider| p.name@ != name@;
        let mut kept: Vec<Provider> = Vec::new();
        let mut removed = false;
        let mut i: usize = 0;
        while i < self.providers.len()
            invariant
                ps == self.providers@,
                *self == *old(self),
                keep == (|p: Provider| p.name@ != name@),
                0 <= i <= ps.len(),
                kept@ == ps.take(i as int).filter(keep),
                removed == exists|j: int| 0 <= j < i && ps[j].name@ == name@,
                !removed ==> kept@ == ps.take(i as int),
            decreases ps.len() - i,
        {
            proof {
                assert(ps.take(i + 1).drop_last() =~= ps.take(i as int));
                assert(ps.take(i + 1).last() == ps[i as int]);
                reveal(Seq::filter);
            }
            if str_eq(self.providers[i].name.as_str(), name) {
                removed = true;
            } else {
                kept.push(self.providers[i].clone());
            }
            i = i + 1;
        }
        assert(ps.take(ps.len() as int) =~= ps);
        if !removed {
            return false;
        }
        self.providers = kept;
        if str_eq(self.default_provider.as_str(), name) {
            self.default_provider = if self.providers.len() > 0 {
                self.providers[0].name.clone()
            } else {
                String::new()
            };
        }
        let forget = match &self.last_provider {
            Some(lp) => str_eq(lp.as_str(), name),
            None => false,
        };
        if forget {
            self.last_provider = None;
            self.last_model = None;
        }
        true
    }

    /// Remembers the provider and model used last.
    pub fn remember_choice(&mut self, provider: &str, model: &str)
        ensures
            final(self).last_provider matches Some(p) && p@ == provider@,
            final(self).last_model matches Some(m) && m@ == model@,
            final(self).providers == old(self).providers,
            final(self).default_provider == old(self).default_provider,
            final(self).favorites == old(self).favorites,
    {
        self.last_provider = Some(string_of(chars_of(provider).as_slice()));
        self.last_model = Some(string_of(chars_of(model).as_slice()));
    }
}

impl FormState {
    /// Whether a provider form lacks its name or base address (other forms
    /// have no required fields here).
    pub fn missing_required(&self) -> (r: bool)
        requires
            (self.purpose is ProviderAdd || self.purpose is ProviderEdit) ==> self.fields@.len() >= 2,
        ensures
            r == ((self.purpose is ProviderAdd || self.purpose is ProviderEdit) && (trim(self.fields@[0].value@).len() == 0
                || trim(self.fields@[1].value@).len() == 0)),
    {
        match &self.purpose {
            FormPurpose::ProviderAdd | FormPurpose::ProviderEdit { .. } => {
                let a = self.value(0);
                let b = self.value(1);
                chars_of(a.as_str()).len() == 0 || chars_of(b.as_str()).len() == 0
            },
            _ => false,
        }
    }
}

/// A trimmed text, `None` when it is empty (the system prompt form).
pub fn trimmed_or_none(s: &str) -> (r: Option<String>)
    ensures
        trim(s@).len() == 0 ==> r is None,
        trim(s@).len() > 0 ==> (r matches Some(t) && t@ == trim(s@)),
{
    let t = crate::util::trim_string(s);
    if chars_of(t.as_str()).len() == 0 {
        None
    } else {
        Some(t)
    }
}

} // verus!
