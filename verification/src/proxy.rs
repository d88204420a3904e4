//! Which proxy the client goes through: the one forced in the
//! configuration, else the proxy environment variables, else the system
//! proxy (read from the Windows registry by the front end).
use vstd::prelude::*;

use crate::util::{
    chars_of, contains_chars, contains_seq, is_prefix, is_whitespace, is_ws, lines_of, normalize_proxy,
    normalized_proxy, slice_of, split_char, split_chars, starts_with_at, std_lines, string_of, trim,
    trim_end, trim_range,
};

verus! {

/// The environment variables searched for a proxy, in order.
pub open spec fn proxy_vars() -> Seq<Seq<char>> {
    seq!["HTTPS_PROXY"@, "https_proxy"@, "HTTP_PROXY"@, "http_proxy"@, "ALL_PROXY"@, "all_proxy"@]
}

/// The names of the environment variables searched for a proxy, in order.
pub fn proxy_var_names() -> (r: Vec<&'static str>)
    ensures
        r@.map_values(|s: &str| s@) == proxy_vars(),
{
    let r = vec!["HTTPS_PROXY", "https_proxy", "HTTP_PROXY", "http_proxy", "ALL_PROXY", "all_proxy"];
    assert(r@.map_values(|s: &str| s@) =~= proxy_vars());
    r
}

/// The first of the values that is not blank, trimmed.
pub open spec fn first_set(vals: Seq<Option<Seq<char>>>) -> Option<Seq<char>>
    decreases vals.len(),
{
    if vals.len() == 0 {
        None
    } else {
        match vals[0] {
            Some(v) if trim(v).len() > 0 => Some(trim(v)),
            _ => first_set(vals.drop_first()),
        }
    }
}

/// The proxy to use: the forced one when not blank (trimmed); else the
/// first proxy variable set (with `http://` added when it has no scheme);
/// else the system proxy (likewise); else none.
pub open spec fn proxy_choice(forced: Option<Seq<char>>, vars: Seq<Option<Seq<char>>>, system: Option<Seq<char>>) -> Option<
    Seq<char>,
> {
    match forced {
        Some(f) if trim(f).len() > 0 => Some(trim(f)),
        _ => match first_set(vars) {
            Some(v) => Some(normalized_proxy(v)),
            None => match system {
                Some(s) => Some(normalized_proxy(s)),
                None => None,
            },
        },
    }
}

/// The texts of optional strings.
pub open spec fn opt_texts(v: Seq<Option<String>>) -> Seq<Option<Seq<char>>> {
    v.map_values(|o: Option<String>| crate::llm::opt_view(o))
}

/// The trimmed text, when not blank.
fn trimmed_set(s: &str) -> (r: Option<String>)
    ensures
        trim(s@).len() > 0 ==> (r matches Some(t) && t@ == trim(s@)),
        trim(s@).len() == 0 ==> r is None,
{
    let cs = chars_of(s);
    let (a, b) = trim_range(cs.as_slice(), 0, cs.len());
    assert(cs@.subrange(0, cs@.len() as int) =~= cs@);
    if a < b {
        Some(string_of(slice_of(cs.as_slice(), a, b).as_slice()))
    } else {
        None
    }
}

/// The proxy to use, from the forced address, the values of the proxy
/// variables (in the order of `proxy_var_names`) and the system proxy.
pub fn pick_proxy(forced: Option<&str>, vars: &Vec<Option<String>>, system: Option<&str>) -> (r: Option<String>)
    ensures
        crate::llm::opt_view(r) == proxy_choice(
            match forced {
                Some(f) => Some(f@),
                None => None,
            },
            opt_texts(vars@),
            match system {
                Some(s) => Some(s@),
                None => None,
            },
        ),
{
    if let Some(f) = forced {
        if let Some(t) = trimmed_set(f) {
            return Some(t);
        }
    }
    let ghost vs = opt_texts(vars@);
    let mut i: usize = 0;
    assert(vs.skip(0) =~= vs);
    while i < vars.len()
        invariant
            0 <= i <= vars@.len(),
            vs == opt_texts(vars@),
            first_set(vs) == first_set(vs.skip(i as int)),
            match forced {
                Some(f) => trim(f@).len() == 0,
                None => true,
            },
        decreases vars@.len() - i,
    {
        assert(vs.skip(i as int)[0] == crate::llm::opt_view(vars@[i as int]));
        assert(vs.skip(i as int).drop_first() =~= vs.skip(i + 1));
        if let Some(v) = &vars[i] {
            if let Some(t) = trimmed_set(v.as_str()) {
                return Some(normalize_proxy(t.as_str()));
            }
        }
        i = i + 1;
    }
    match system {
        Some(s) => Some(normalize_proxy(s)),
        None => None,
    }
}

// ---------------------------------------------------------------------------
// The system proxy in the registry
// ---------------------------------------------------------------------------

/// Number of trailing characters of `s` that are not white space.
pub open spec fn trail_word_len(s: Seq<char>) -> nat
    decreases s.len(),
{
    if s.len() > 0 && !is_ws(s.last()) {
        1 + trail_word_len(s.drop_last())
    } else {
        0
    }
}

/// The last white-space-separated word of `s` (as `split_whitespace().last()`).
pub open spec fn last_word(s: Seq<char>) -> Option<Seq<char>> {
    let t = trim_end(s);
    if t.len() == 0 {
        None
    } else {
        Some(t.skip(t.len() - trail_word_len(t)))
    }
}

/// The first line that mentions `ProxyServer`.
pub open spec fn server_line(lines: Seq<Seq<char>>) -> Option<Seq<char>>
    decreases lines.len(),
{
    if lines.len() == 0 {
        None
    } else if contains_seq(lines[0], "ProxyServer"@) {
        Some(lines[0])
    } else {
        server_line(lines.drop_first())
    }
}

/// The address of the first `https=` or `http=` entry of a per-protocol
/// server list (`http=...;https=...`).
pub open spec fn protocol_entry(parts: Seq<Seq<char>>) -> Option<Seq<char>>
    decreases parts.len(),
{
    if parts.len() == 0 {
        None
    } else if is_prefix("https="@, parts[0]) {
        Some(parts[0].skip(6))
    } else if is_prefix("http="@, parts[0]) {
        Some(parts[0].skip(5))
    } else {
        protocol_entry(parts.drop_first())
    }
}

/// The system proxy from the answers of `reg query` for `ProxyEnable` and
/// `ProxyServer`: none unless enabled (`0x1`); else the last word of the
/// `ProxyServer` line, or its `https=`/`http=` entry when it lists one per
/// protocol.
pub open spec fn registry_proxy(enable: Seq<char>, server: Seq<char>) -> Option<Seq<char>> {
    if !contains_seq(enable, "0x1"@) {
        None
    } else {
        match server_line(std_lines(server)) {
            None => None,
            Some(line) => match last_word(line) {
                None => None,
                Some(w) => if w.contains('=') {
                    protocol_entry(split_char(w, ';'))
                } else if w.len() == 0 {
                    None
                } else {
                    Some(w)
                },
            },
        }
    }
}

/// The last word of `cs`.
fn last_word_of(cs: &Vec<char>) -> (r: Option<Vec<char>>)
    ensures
        match last_word(cs@) {
            Some(w) => (r matches Some(v) && v@ == w),
            None => r is None,
        },
{
    let e = crate::util::trim_end_index(cs.as_slice(), 0, cs.len());
    assert(cs@.subrange(0, cs@.len() as int) =~= cs@);
    let ghost t = trim_end(cs@);
    assert(cs@.take(e as int) =~= t);
    if e == 0 {
        return None;
    }
    let mut b: usize = e;
    while b > 0 && !is_whitespace(cs[b - 1])
        invariant
            0 <= b <= e <= cs@.len(),
            t == cs@.take(e as int),
            trail_word_len(t) == (e - b) + trail_word_len(cs@.take(b as int)),
        decreases b,
    {
        assert(cs@.take(b as int).last() == cs@[b - 1]);
        assert(cs@.take(b as int).drop_last() =~= cs@.take(b - 1));
        b = b - 1;
    }
    if b > 0 {
        assert(cs@.take(b as int).last() == cs@[b - 1]);
    }
    assert(t.skip(t.len() - trail_word_len(t)) =~= cs@.subrange(b as int, e as int));
    Some(slice_of(cs.as_slice(), b, e))
}

/// The address of the first `https=` or `http=` entry.
fn protocol_entry_of(parts: &Vec<Vec<char>>) -> (r: Option<Vec<char>>)
    ensures
        match protocol_entry(parts@.map_values(|p: Vec<char>| p@)) {
            Some(w) => (r matches Some(v) && v@ == w),
            None => r is None,
        },
{
    let ghost pv = parts@.map_values(|p: Vec<char>| p@);
    let https = chars_of("https=");
    let http = chars_of("http=");
    proof {
        reveal_strlit("https=");
        reveal_strlit("http=");
    }
    let mut i: usize = 0;
    assert(pv.skip(0) =~= pv);
    while i < parts.len()
        invariant
            0 <= i <= parts@.len(),
            pv == parts@.map_values(|p: Vec<char>| p@),
            https@ == "https="@,
            http@ == "http="@,
            https@.len() == 6,
            http@.len() == 5,
            protocol_entry(pv) == protocol_entry(pv.skip(i as int)),
        decreases parts@.len() - i,
    {
        assert(pv.skip(i as int)[0] == parts@[i as int]@);
        assert(pv.skip(i as int).drop_first() =~= pv.skip(i + 1));
        let p = &parts[i];
        assert(p@.skip(0) =~= p@);
        if starts_with_at(p.as_slice(), 0, https.as_slice()) {
            return Some(slice_of(p.as_slice(), 6, p.len()));
        }
        if starts_with_at(p.as_slice(), 0, http.as_slice()) {
            return Some(slice_of(p.as_slice(), 5, p.len()));
        }
        i = i + 1;
    }
    None
}

/// The system proxy from the answers of `reg query` for `ProxyEnable` and
/// `ProxyServer` (their output read as text).
pub fn system_proxy_from_registry(enable: &str, server: &str) -> (r: Option<String>)
    ensures
        crate::llm::opt_view(r) == registry_proxy(enable@, server@),
{
    if !contains_chars(chars_of(enable).as_slice(), chars_of("0x1").as_slice()) {
        return None;
    }
    let ls = lines_of(chars_of(server).as_slice());
    let ghost lv = std_lines(server@);
    let key = chars_of("ProxyServer");
    let mut i: usize = 0;
    assert(lv.skip(0) =~= lv);
    let mut found = false;
    while i < ls.len() && !found
        invariant
            0 <= i <= ls@.len(),
            ls@.len() == lv.len(),
            forall|k: int| 0 <= k < ls@.len() ==> #[trigger] ls@[k]@ == lv[k],
            key@ == "ProxyServer"@,
            found ==> i < ls@.len() && server_line(lv) == Some(lv[i as int]),
            !found ==> server_line(lv) == server_line(lv.skip(i as int)),
        decreases ls@.len() - i, (if found { 0int } else { 1int }),
    {
        assert(lv.skip(i as int)[0] == lv[i as int]);
        assert(lv.skip(i as int).drop_first() =~= lv.skip(i + 1));
        if contains_chars(ls[i].as_slice(), key.as_slice()) {
            found = true;
        } else {
            i = i + 1;
        }
    }
    if !found {
        assert(lv.skip(i as int) =~= Seq::<Seq<char>>::empty());
        return None;
    }
    let idx = i;
    let w = match last_word_of(&ls[idx]) {
        Some(w) => w,
        None => {
            return None;
        },
    };
    let mut has_eq = false;
    let mut j: usize = 0;
    while j < w.len()
        invariant
            0 <= j <= w@.len(),
            has_eq == exists|k: int| 0 <= k < j && w@[k] == '=',
        decreases w@.len() - j,
    {
        if w[j] == '=' {
            has_eq = true;
        }
        j = j + 1;
    }
    proof {
        if w@.contains('=') {
            let k = choose|k: int| 0 <= k < w@.len() && w@[k] == '=';
            assert(w@[k] == '=');
        }
    }
    if has_eq {
        let parts = split_chars(w.as_slice(), ';');
        proof {
            assert(parts@.map_values(|p: Vec<char>| p@) =~= split_char(w@, ';'));
        }
        match protocol_entry_of(&parts) {
            Some(v) => Some(string_of(v.as_slice())),
            None => None,
        }
    } else if w.len() == 0 {
        None
    } else {
        Some(string_of(w.as_slice()))
    }
}

} // verus!
