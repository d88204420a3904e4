//! The configuration: providers, favourite models and remembered choices.
use vstd::prelude::*;

use crate::util::{
    chars_of, is_prefix, push_all, slice_of, starts_with_at, str_eq, string_of, trim, trim_range,
};

verus! {

/// An OpenAI-compatible provider.
#[derive(Debug)]
pub struct Provider {
    /// Unique name, such as `deepseek`.
    pub name: String,
    /// API base address, ending in `/v1`.
    pub base_url: String,
    /// API key (may be overridden by `TUAI_API_KEY`).
    pub api_key: String,
    /// Default model.
    pub default_model: String,
}

impl Clone for Provider {
    fn clone(&self) -> (r: Self)
        ensures
            r == *self,
    {
        Provider {
            name: self.name.clone(),
            base_url: self.base_url.clone(),
            api_key: self.api_key.clone(),
            default_model: self.default_model.clone(),
        }
    }
}

/// The global configuration.
#[derive(Debug)]
pub struct Config {
    /// Name of the default provider.
    pub default_provider: String,
    /// Global system prompt, used when a session has none.
    pub system_prompt: Option<String>,
    pub providers: Vec<Provider>,
    /// Favourite models, each `provider/model`.
    pub favorites: Vec<String>,
    /// Forced proxy address; none means detect it.
    pub proxy: Option<String>,
    /// Provider used last (new sessions start with it).
    pub last_provider: Option<String>,
    /// Model used last (new sessions start with it).
    pub last_model: Option<String>,
}

/// The names of the favourites of a configuration.
pub open spec fn favs_view(c: Config) -> Seq<Seq<char>> {
    c.favorites@.map_values(|s: String| s@)
}

/// The favourite entry for a provider and a model: `provider/model`.
pub open spec fn fav_key(provider: Seq<char>, model: Seq<char>) -> Seq<char> {
    provider.push('/') + model
}

/// Index of the first occurrence of `x` in `s`.
pub open spec fn first_index(s: Seq<Seq<char>>, x: Seq<char>) -> Option<int>
    decreases s.len(),
{
    if s.len() == 0 {
        None
    } else if s[0] == x {
        Some(0)
    } else {
        match first_index(s.drop_first(), x) {
            Some(i) => Some(i + 1),
            None => None,
        }
    }
}

/// The favourites after toggling `key`, and whether `key` is then a favourite.
pub open spec fn toggled(favs: Seq<Seq<char>>, key: Seq<char>) -> (Seq<Seq<char>>, bool) {
    match first_index(favs, key) {
        Some(i) => (favs.remove(i), false),
        None => (favs.push(key), true),
    }
}

/// The models of the favourites that start with `prefix`, the prefix removed.
pub open spec fn favs_under(favs: Seq<Seq<char>>, prefix: Seq<char>) -> Seq<Seq<char>>
    decreases favs.len(),
{
    if favs.len() == 0 {
        Seq::empty()
    } else {
        let rest = favs_under(favs.drop_last(), prefix);
        if is_prefix(prefix, favs.last()) {
            rest.push(favs.last().skip(prefix.len() as int))
        } else {
            rest
        }
    }
}

/// Whether the `i`-th provider is the first one named `name`.
pub open spec fn first_named(ps: Seq<Provider>, name: Seq<char>, i: int) -> bool {
    &&& 0 <= i < ps.len()
    &&& ps[i].name@ == name
    &&& forall|j: int| 0 <= j < i ==> ps[j].name@ != name
}

/// A provider named `name` makes one of them the first so named.
pub(crate) proof fn lemma_first_named_exists(ps: Seq<Provider>, name: Seq<char>, k: int)
    requires
        0 <= k < ps.len(),
        ps[k].name@ == name,
    ensures
        exists|i: int| first_named(ps, name, i),
    decreases k,
{
    if forall|j: int| 0 <= j < k ==> ps[j].name@ != name {
        assert(first_named(ps, name, k));
    } else {
        let j = choose|j: int| 0 <= j < k && ps[j].name@ == name;
        lemma_first_named_exists(ps, name, j);
    }
}

/// `s` without its trailing slashes.
pub open spec fn strip_trailing_slashes(s: Seq<char>) -> Seq<char>
    decreases s.len(),
{
    if s.len() > 0 && s.last() == '/' {
        strip_trailing_slashes(s.drop_last())
    } else {
        s
    }
}

/// A provider with the environment overrides applied: a non-blank key
/// replaces the API key, a non-blank base address (trailing slashes removed)
/// replaces the base address; both are trimmed.
pub open spec fn overridden(p: Provider, env_key: Option<Seq<char>>, env_base: Option<Seq<char>>) -> (
    Seq<char>,
    Seq<char>,
) {
    let key = match env_key {
        Some(k) if trim(k).len() > 0 => trim(k),
        _ => p.api_key@,
    };
    let base = match env_base {
        Some(b) if trim(b).len() > 0 => strip_trailing_slashes(trim(b)),
        _ => p.base_url@,
    };
    (key, base)
}

pub proof fn lemma_first_index_bound(s: Seq<Seq<char>>, x: Seq<char>)
    ensures
        first_index(s, x) matches Some(i) ==> 0 <= i < s.len() && s[i] == x && forall|j: int|
            0 <= j < i ==> s[j] != x,
        first_index(s, x) is None ==> !s.contains(x),
    decreases s.len(),
{
    if s.len() > 0 && s[0] != x {
        lemma_first_index_bound(s.drop_first(), x);
        if first_index(s.drop_first(), x) is None {
            assert forall|j: int| 0 <= j < s.len() implies s[j] != x by {
                if j > 0 {
                    assert(s[j] == s.drop_first()[j - 1]);
                }
            }
        } else {
            let i = first_index(s.drop_first(), x)->0;
            assert forall|j: int| 0 <= j < i + 1 implies s[j] != x by {
                if j > 0 {
                    assert(s[j] == s.drop_first()[j - 1]);
                }
            }
        }
    }
}

/// Owned copy of a string slice.
fn owned(s: &str) -> (r: String)
    ensures
        r@ == s@,
{
    string_of(chars_of(s).as_slice())
}

/// The characters of `provider/model`.
fn fav_key_chars(provider: &str, model: &str) -> (r: Vec<char>)
    ensures
        r@ == fav_key(provider@, model@),
{
    let mut k = chars_of(provider);
    k.push('/');
    let m = chars_of(model);
    push_all(&mut k, m.as_slice());
    k
}

/// The trimmed form of `s`, `None` when it is blank.
fn non_blank(s: &str) -> (r: Option<Vec<char>>)
    ensures
        trim(s@).len() > 0 ==> (r matches Some(v) && v@ == trim(s@)),
        trim(s@).len() == 0 ==> r is None,
{
    let cs = chars_of(s);
    let (a, b) = trim_range(cs.as_slice(), 0, cs.len());
    assert(cs@.subrange(0, cs@.len() as int) =~= cs@);
    if a == b {
        None
    } else {
        Some(slice_of(cs.as_slice(), a, b))
    }
}

impl Config {
    /// The first provider named `name`.
    pub fn provider(&self, name: &str) -> (r: Option<&Provider>)
        ensures
            r matches Some(p) ==> exists|i: int| first_named(self.providers@, name@, i) && *p
                == self.providers@[i],
            r is None ==> forall|j: int|
                0 <= j < self.providers@.len() ==> self.providers@[j].name@ != name@,
    {
        let mut i: usize = 0;
        while i < self.providers.len()
            invariant
                0 <= i <= self.providers@.len(),
                forall|j: int| 0 <= j < i ==> self.providers@[j].name@ != name@,
            decreases self.providers@.len() - i,
        {
            if str_eq(self.providers[i].name.as_str(), name) {
                assert(first_named(self.providers@, name@, i as int));
                return Some(&self.providers[i]);
            }
            i = i + 1;
        }
        None
    }

    /// The provider named `name` with the environment overrides
    /// (`TUAI_API_KEY`, `TUAI_BASE_URL`, read by the caller) applied.
    pub fn effective_provider(&self, name: &str, env_key: Option<&str>, env_base: Option<&str>) -> (r:
        Option<Provider>)
        ensures
            r matches Some(q) ==> exists|i: int|
                {
                    &&& first_named(self.providers@, name@, i)
                    &&& q.name == self.providers@[i].name
                    &&& q.default_model == self.providers@[i].default_model
                    &&& (q.api_key@, q.base_url@) == overridden(
                        self.providers@[i],
                        match env_key {
                            Some(k) => Some(k@),
                            None => None,
                        },
                        match env_base {
                            Some(b) => Some(b@),
                            None => None,
                        },
                    )
                },
            r is None ==> forall|j: int|
                0 <= j < self.providers@.len() ==> self.providers@[j].name@ != name@,
    {
        let found = self.provider(name);
        let p0 = match found {
            Some(p) => p,
            None => return None,
        };
        let mut p = p0.clone();
        if let Some(k) = env_key {
            if let Some(v) = non_blank(k) {
                p.api_key = string_of(v.as_slice());
            }
        }
        if let Some(b) = env_base {
            if let Some(v) = non_blank(b) {
                let mut e = v.len();
                assert(v@.take(v@.len() as int) =~= v@);
                while e > 0 && v[e - 1] == '/'
                    invariant
                        0 <= e <= v@.len(),
                        strip_trailing_slashes(v@) == strip_trailing_slashes(v@.take(e as int)),
                    decreases e,
                {
                    assert(v@.take(e as int).drop_last() =~= v@.take(e - 1));
                    e = e - 1;
                }
                proof {
                    if e > 0 {
                        assert(v@.take(e as int).last() == v@[e - 1]);
                    }
                    assert(v@.take(v@.len() as int) =~= v@);
                    assert(v@.subrange(0, e as int) =~= v@.take(e as int));
                }
                let s = slice_of(v.as_slice(), 0, e);
                p.base_url = string_of(s.as_slice());
            }
        }
        Some(p)
    }

    /// Whether `provider/model` is a favourite.
    pub fn is_favorite(&self, provider: &str, model: &str) -> (r: bool)
        ensures
            r == favs_view(*self).contains(fav_key(provider@, model@)),
    {
        let key = fav_key_chars(provider, model);
        let ghost f = favs_view(*self);
        let mut i: usize = 0;
        while i < self.favorites.len()
            invariant
                f == favs_view(*self),
                key@ == fav_key(provider@, model@),
                0 <= i <= self.favorites@.len(),
                forall|j: int| 0 <= j < i ==> f[j] != key@,
            decreases self.favorites@.len() - i,
        {
            let c = chars_of(self.favorites[i].as_str());
            if crate::util::chars_eq(c.as_slice(), key.as_slice()) {
                assert(f[i as int] == key@);
                assert(f.contains(key@));
                return true;
            }
            i = i + 1;
        }
        false
    }

    /// Toggles `provider/model` as a favourite; returns whether it is one afterwards.
    pub fn toggle_favorite(&mut self, provider: &str, model: &str) -> (r: bool)
        ensures
            (favs_view(*final(self)), r) == toggled(favs_view(*old(self)), fav_key(provider@, model@)),
            final(self).default_provider == old(self).default_provider,
            final(self).system_prompt == old(self).system_prompt,
            final(self).providers == old(self).providers,
            final(self).proxy == old(self).proxy,
            final(self).last_provider == old(self).last_provider,
            final(self).last_model == old(self).last_model,
    {
        let key = fav_key_chars(provider, model);
        let ghost f = favs_view(*self);
        proof {
            lemma_first_index_bound(f, key@);
        }
        let mut i: usize = 0;
        while i < self.favorites.len()
            invariant
                f == favs_view(*self),
                key@ == fav_key(provider@, model@),
                *self == *old(self),
                0 <= i <= self.favorites@.len(),
                forall|j: int| 0 <= j < i ==> f[j] != key@,
            decreases self.favorites@.len() - i,
        {
            let c = chars_of(self.favorites[i].as_str());
            if crate::util::chars_eq(c.as_slice(), key.as_slice()) {
                proof {
                    lemma_first_index_bound(f, key@);
                    assert(f[i as int] == key@);
                    if let Some(j) = first_index(f, key@) {
                        assert(j == i);
                    } else {
                        assert(f.contains(key@));
                    }
                }
                self.favorites.remove(i);
                assert(favs_view(*self) =~= f.remove(i as int));
                return false;
            }
            i = i + 1;
        }
        proof {
            if let Some(j) = first_index(f, key@) {
                assert(f[j] == key@);
            }
        }
        self.favorites.push(string_of(key.as_slice()));
        assert(favs_view(*self) =~= f.push(key@));
        true
    }

    /// The favourite models of `provider`.
    pub fn favorites_of(&self, provider: &str) -> (r: Vec<String>)
        ensures
            r@.map_values(|s: String| s@) == favs_under(favs_view(*self), provider@.push('/')),
    {
        let mut pre = chars_of(provider);
        pre.push('/');
        let ghost f = favs_view(*self);
        let mut out: Vec<String> = Vec::new();
        let mut i: usize = 0;
        while i < self.favorites.len()
            invariant
                f == favs_view(*self),
                pre@ == provider@.push('/'),
                0 <= i <= self.favorites@.len(),
                out@.map_values(|s: String| s@) == favs_under(f.take(i as int), pre@),
            decreases self.favorites@.len() - i,
        {
            let c = chars_of(self.favorites[i].as_str());
            proof {
                assert(f.take(i + 1).drop_last() =~= f.take(i as int));
                assert(f.take(i + 1).last() == c@);
                assert(c@.skip(0) =~= c@);
            }
            if starts_with_at(c.as_slice(), 0, pre.as_slice()) {
                let rest = slice_of(c.as_slice(), pre.len(), c.len());
                let ghost before = out@;
                out.push(string_of(rest.as_slice()));
                proof {
                    assert(c@.subrange(pre@.len() as int, c@.len() as int) =~= c@.skip(pre@.len() as int));
                    assert(out@.map_values(|s: String| s@) =~= before.map_values(|s: String| s@).push(rest@));
                }
            }
            i = i + 1;
        }
        assert(f.take(f.len() as int) =~= f);
        out
    }

    /// The initial configuration: no providers, nothing remembered.
    pub fn default() -> (c: Config)
        ensures
            c.default_provider@ == Seq::<char>::empty(),
            c.system_prompt is None,
            c.providers@.len() == 0,
            c.favorites@.len() == 0,
            c.proxy is None,
            c.last_provider is None,
            c.last_model is None,
    {
        Config {
            default_provider: String::new(),
            system_prompt: None,
            providers: Vec::new(),
            favorites: Vec::new(),
            proxy: None,
            last_provider: None,
            last_model: None,
        }
    }
}

/// The entry `key` occurs at most once among the favourites.
pub open spec fn at_most_once(favs: Seq<Seq<char>>, key: Seq<char>) -> bool {
    forall|a: int, b: int| 0 <= a < b < favs.len() ==> !(favs[a] == key && favs[b] == key)
}

/// When the entry occurs at most once, toggling it twice leaves the same
/// favourites (as a multiset: an entry that was there moves to the end;
/// one that was not comes back to exactly the same list).
pub proof fn lemma_toggle_twice(favs: Seq<Seq<char>>, key: Seq<char>)
    requires
        at_most_once(favs, key),
    ensures
        toggled(toggled(favs, key).0, key).0.to_multiset() == favs.to_multiset(),
        !favs.contains(key) ==> toggled(toggled(favs, key).0, key).0 == favs,
{
    lemma_first_index_bound(favs, key);
    lemma_toggle_reports_membership(favs, key);
    favs.to_multiset_ensures();
    match first_index(favs, key) {
        Some(i) => {
            let f1 = favs.remove(i);
            lemma_first_index_bound(f1, key);
            f1.to_multiset_ensures();
            assert(first_index(f1, key) is None) by {
                if let Some(j) = first_index(f1, key) {
                    assert(f1.contains(key));
                }
            }
            let m = favs.to_multiset();
            assert(m.count(key) > 0) by {
                assert(favs.contains(key));
            }
            assert(m.remove(key).insert(key) =~= m);
        },
        None => {
            let f1 = favs.push(key);
            lemma_first_index_bound(f1, key);
            assert(f1[favs.len() as int] == key);
            match first_index(f1, key) {
                Some(j) => {
                    assert(j == favs.len()) by {
                        if j < favs.len() {
                            assert(favs[j] == key);
                            assert(favs.contains(key));
                        }
                    }
                    assert(f1.remove(j) =~= favs);
                },
                None => {
                    assert(f1.contains(key));
                },
            }
        },
    }
}

/// Every model listed by `favorites_of(provider)` is a favourite of that
/// provider (`is_favorite` holds of it).
pub proof fn lemma_favorites_of_are_favorites(favs: Seq<Seq<char>>, provider: Seq<char>)
    ensures
        forall|k: int|
            0 <= k < favs_under(favs, provider.push('/')).len() ==> favs.contains(
                fav_key(provider, #[trigger] favs_under(favs, provider.push('/'))[k]),
            ),
    decreases favs.len(),
{
    let pre = provider.push('/');
    if favs.len() > 0 {
        let prev = favs.drop_last();
        lemma_favorites_of_are_favorites(prev, provider);
        let r = favs_under(favs, pre);
        let rest = favs_under(prev, pre);
        assert forall|k: int| 0 <= k < r.len() implies favs.contains(fav_key(provider, #[trigger] r[k])) by {
            if k < rest.len() {
                assert(r[k] == rest[k]);
                let j = choose|j: int| 0 <= j < prev.len() && prev[j] == fav_key(provider, rest[k]);
                assert(favs[j] == prev[j]);
            } else {
                let e = favs.last();
                assert(r[k] == e.skip(pre.len() as int));
                assert(e.take(pre.len() as int) == pre);
                assert(fav_key(provider, r[k]) =~= e);
                assert(favs[favs.len() - 1] == e);
            }
        }
    }
}

/// Starring a model that was not a favourite puts it last among the
/// provider's favourites (`favorites_of` then ends with it).
pub proof fn lemma_starred_model_listed_last(favs: Seq<Seq<char>>, provider: Seq<char>, model: Seq<char>)
    requires
        toggled(favs, fav_key(provider, model)).1,
    ensures
        favs_under(toggled(favs, fav_key(provider, model)).0, provider.push('/')) == favs_under(
            favs,
            provider.push('/'),
        ).push(model),
{
    let key = fav_key(provider, model);
    let pre = provider.push('/');
    let f1 = favs.push(key);
    assert(f1.drop_last() =~= favs);
    assert(key.take(pre.len() as int) =~= pre);
    assert(key.skip(pre.len() as int) =~= model);
}

/// When the entry occurs at most once, the result of a toggle tells whether
/// it is a favourite afterwards; favourites without duplicates keep none.
pub proof fn lemma_toggle_reports_membership(favs: Seq<Seq<char>>, key: Seq<char>)
    requires
        at_most_once(favs, key),
    ensures
        toggled(favs, key).0.contains(key) == toggled(favs, key).1,
        favs.no_duplicates() ==> toggled(favs, key).0.no_duplicates(),
{
    lemma_first_index_bound(favs, key);
    match first_index(favs, key) {
        Some(i) => {
            let f1 = favs.remove(i);
            if f1.contains(key) {
                let j = choose|j: int| 0 <= j < f1.len() && f1[j] == key;
                if j < i {
                    assert(favs[j] == key);
                } else {
                    assert(favs[j + 1] == key);
                    assert(!(favs[i] == key && favs[j + 1] == key));
                }
            }
            if favs.no_duplicates() {
                assert forall|a: int, b: int| 0 <= a < b < f1.len() implies f1[a] != f1[b] by {
                    let a2 = if a < i { a } else { a + 1 };
                    let b2 = if b < i { b } else { b + 1 };
                    assert(f1[a] == favs[a2]);
                    assert(f1[b] == favs[b2]);
                }
            }
        },
        None => {
            let f1 = favs.push(key);
            assert(f1[favs.len() as int] == key);
            if favs.no_duplicates() {
                assert forall|a: int, b: int| 0 <= a < b < f1.len() implies f1[a] != f1[b] by {
                    if b == favs.len() {
                        assert(favs[a] != key);
                    } else {
                        assert(f1[a] == favs[a]);
                        assert(f1[b] == favs[b]);
                    }
                }
            }
        },
    }
}

} // verus!
