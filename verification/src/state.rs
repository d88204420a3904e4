//! UI state: focus, command palette, forms, notices and the chat view.
use vstd::prelude::*;

use crate::commands::{all, command_table, command_view, Action, CommandDef};
use crate::input::{clamp, insert_at, normalize_newlines};
use crate::model::{Message, Session};
use crate::util::{chars_of, fuzzy_result, fuzzy_score, push_all, slice_of, str_eq, string_of, trim, trim_string};

verus! {

/// The focused area.
#[derive(Debug, Clone, Copy, PartialEq, Eq, Structural)]
pub enum Focus {
    Input,
    Chat,
    Sidebar,
}

impl Focus {
    /// The next area in Tab order: input, messages, sidebar, input.
    pub fn next(self) -> (r: Focus)
        ensures
            r == focus_after(self),
    {
        match self {
            Focus::Input => Focus::Chat,
            Focus::Chat => Focus::Sidebar,
            Focus::Sidebar => Focus::Input,
        }
    }
}

/// The area after `f` in Tab order.
pub open spec fn focus_after(f: Focus) -> Focus {
    match f {
        Focus::Input => Focus::Chat,
        Focus::Chat => Focus::Sidebar,
        Focus::Sidebar => Focus::Input,
    }
}

/// Three presses of Tab come back to the same area.
pub proof fn lemma_focus_cycle(f: Focus)
    ensures
        focus_after(focus_after(focus_after(f))) == f,
{
}

/// What the palette is choosing.
#[derive(Debug, Clone, Copy, PartialEq, Eq, Structural)]
pub enum PaletteKind {
    Commands,
    Models,
    ProvidersEdit,
    ProvidersDelete,
    ProvidersSwitch,
}

#[verifier::external_type_specification]
#[verifier::external_body]
pub struct ExInstant(std::time::Instant);

/// A short notice (it expires after three seconds).
pub struct Toast {
    pub text: String,
    pub error: bool,
    pub at: std::time::Instant,
}

/// An entry of the palette.
#[derive(Debug)]
pub struct PaletteItem {
    pub label: String,
    pub hint: String,
    pub action: Action,
    /// Favourite mark (shown as ★ in the model palette).
    pub starred: bool,
}

/// The content of an entry: label, hint, action, favourite mark.
pub open spec fn item_view(i: PaletteItem) -> (Seq<char>, Seq<char>, Action, bool) {
    (i.label@, i.hint@, i.action, i.starred)
}

/// The contents of entries.
pub open spec fn items_view(v: Seq<PaletteItem>) -> Seq<(Seq<char>, Seq<char>, Action, bool)> {
    v.map_values(|i: PaletteItem| item_view(i))
}

impl PaletteItem {
    /// A copy of the entry.
    pub fn clone_item(&self) -> (r: PaletteItem)
        ensures
            r == *self,
    {
        PaletteItem {
            label: self.label.clone(),
            hint: self.hint.clone(),
            action: self.action.clone(),
            starred: self.starred,
        }
    }
}

/// The command palette.
pub struct PaletteState {
    pub filter: String,
    pub selected: usize,
    /// The entries that pass the filter.
    pub visible: Vec<PaletteItem>,
    /// All entries.
    pub items: Vec<PaletteItem>,
}

/// Whether an entry passes the filter: its label or its hint matches it.
pub open spec fn passes(i: PaletteItem, needle: Seq<char>) -> bool {
    fuzzy_result(i.label@, needle) is Some || fuzzy_result(i.hint@, needle) is Some
}

/// The entries that pass the filter, in order.
pub open spec fn filtered(items: Seq<PaletteItem>, needle: Seq<char>) -> Seq<PaletteItem>
    decreases items.len(),
{
    if items.len() == 0 {
        Seq::empty()
    } else {
        let r = filtered(items.drop_last(), needle);
        if passes(items.last(), needle) {
            r.push(items.last())
        } else {
            r
        }
    }
}

/// With an empty filter the palette shows every entry, in order.
pub proof fn lemma_empty_filter_shows_all(items: Seq<PaletteItem>)
    ensures
        filtered(items, Seq::empty()) == items,
    decreases items.len(),
{
    if items.len() > 0 {
        lemma_empty_filter_shows_all(items.drop_last());
        assert(items.drop_last().push(items.last()) =~= items);
    }
}

/// The entries shown are entries of the palette: each passes the filter,
/// and there are never more of them than entries.
pub proof fn lemma_filtered_entries_pass(items: Seq<PaletteItem>, needle: Seq<char>)
    ensures
        filtered(items, needle).len() <= items.len(),
        forall|k: int|
            0 <= k < filtered(items, needle).len() ==> passes(#[trigger] filtered(items, needle)[k], needle)
                && items.contains(filtered(items, needle)[k]),
    decreases items.len(),
{
    if items.len() > 0 {
        let prev = items.drop_last();
        lemma_filtered_entries_pass(prev, needle);
        let r = filtered(prev, needle);
        let f = filtered(items, needle);
        assert forall|k: int| 0 <= k < f.len() implies passes(#[trigger] f[k], needle) && items.contains(f[k]) by {
            if k < r.len() {
                assert(f[k] == r[k]);
                let j = choose|j: int| 0 <= j < prev.len() && prev[j] == r[k];
                assert(items[j] == prev[j]);
            } else {
                assert(f[k] == items.last());
                assert(items[items.len() - 1] == items.last());
            }
        }
    }
}

/// Index of the first entry labelled `label`.
pub open spec fn label_index(v: Seq<PaletteItem>, label: Seq<char>) -> Option<int>
    decreases v.len(),
{
    if v.len() == 0 {
        None
    } else if v[0].label@ == label {
        Some(0)
    } else {
        match label_index(v.drop_first(), label) {
            Some(i) => Some(i + 1),
            None => None,
        }
    }
}

/// The selection after filtering: the entry selected before if it is still
/// visible, else the first.
pub open spec fn reselected(old_visible: Seq<PaletteItem>, old_sel: int, new_visible: Seq<PaletteItem>) -> int {
    if 0 <= old_sel < old_visible.len() {
        match label_index(new_visible, old_visible[old_sel].label@) {
            Some(i) => i,
            None => 0,
        }
    } else {
        0
    }
}

/// Filtering again with the same filter changes nothing: the entries shown
/// stay, and so does the selection.
pub proof fn lemma_refilter_settles(old_visible: Seq<PaletteItem>, old_sel: int, items: Seq<PaletteItem>, needle: Seq<char>)
    ensures
        ({
            let v = filtered(items, needle);
            let s1 = reselected(old_visible, old_sel, v);
            filtered(items, needle) == v && reselected(v, s1, v) == s1
        }),
{
    let v = filtered(items, needle);
    let s1 = reselected(old_visible, old_sel, v);
    if 0 <= old_sel < old_visible.len() {
        lemma_label_index(v, old_visible[old_sel].label@);
        if let Some(i) = label_index(v, old_visible[old_sel].label@) {
            lemma_label_index(v, v[i].label@);
        } else if v.len() > 0 {
            lemma_label_index(v, v[0].label@);
        }
    } else if v.len() > 0 {
        lemma_label_index(v, v[0].label@);
    }
}

/// The entries of the model palette: the favourites first, starred, then
/// the models not yet listed.
pub open spec fn model_entries(base: Seq<(Seq<char>, Seq<char>, Action, bool)>, models: Seq<String>) -> Seq<
    (Seq<char>, Seq<char>, Action, bool),
>
    decreases models.len(),
{
    if models.len() == 0 {
        base
    } else {
        let acc = model_entries(base, models.drop_last());
        let m = models.last();
        if exists|k: int| 0 <= k < acc.len() && (#[trigger] acc[k]).0 == m@ {
            acc
        } else {
            acc.push((m@, Seq::empty(), Action::SetModel(m), false))
        }
    }
}

/// The starred entries of the favourite models.
pub open spec fn favorite_entries(favs: Seq<String>) -> Seq<(Seq<char>, Seq<char>, Action, bool)> {
    favs.map_values(|m: String| (m@, Seq::<char>::empty(), Action::SetModel(m), true))
}

proof fn lemma_label_index(v: Seq<PaletteItem>, label: Seq<char>)
    ensures
        label_index(v, label) matches Some(i) ==> 0 <= i < v.len() && v[i].label@ == label && forall|j: int|
            0 <= j < i ==> v[j].label@ != label,
        label_index(v, label) is None ==> forall|j: int| 0 <= j < v.len() ==> v[j].label@ != label,
    decreases v.len(),
{
    if v.len() > 0 && v[0].label@ != label {
        lemma_label_index(v.drop_first(), label);
        assert forall|j: int| 1 <= j < v.len() implies v[j] == v.drop_first()[j - 1] by {}
    }
}

/// A palette showing `items`, unfiltered.
fn palette_of(items: Vec<PaletteItem>) -> (p: PaletteState)
    ensures
        p.items == items,
        p.visible@ == filtered(items@, Seq::empty()),
        p.filter@ == Seq::<char>::empty(),
        p.selected == 0,
{
    let mut p = PaletteState { filter: String::new(), selected: 0, visible: Vec::new(), items };
    p.refilter();
    p
}

impl PaletteState {
    /// The palette of all commands.
    pub fn commands() -> (p: PaletteState)
        ensures
            items_view(p.items@) == command_table().map_values(
                |c: (Seq<char>, Seq<char>, Action)| (c.0, c.1, c.2, false),
            ),
            p.visible@ == filtered(p.items@, Seq::empty()),
            p.filter@ == Seq::<char>::empty(),
            p.selected == 0,
    {
        let defs = all();
        let ghost t = command_table();
        let mut items: Vec<PaletteItem> = Vec::new();
        let mut i: usize = 0;
        while i < defs.len()
            invariant
                0 <= i <= defs@.len(),
                defs@.map_values(|c: CommandDef| command_view(c)) == t,
                items_view(items@) == t.take(i as int).map_values(
                    |c: (Seq<char>, Seq<char>, Action)| (c.0, c.1, c.2, false),
                ),
            decreases defs@.len() - i,
        {
            let d = &defs[i];
            let it = PaletteItem {
                label: string_of(chars_of(d.label).as_slice()),
                hint: string_of(chars_of(d.hint).as_slice()),
                action: d.action.clone(),
                starred: false,
            };
            let ghost before = items@;
            let ghost iv = item_view(it);
            items.push(it);
            proof {
                let f = |c: (Seq<char>, Seq<char>, Action)| (c.0, c.1, c.2, false);
                assert(t[i as int] == command_view(defs@[i as int]));
                assert(iv == f(t[i as int]));
                assert(items_view(items@) =~= items_view(before).push(iv));
                assert(t.take(i + 1).map_values(f) =~= t.take(i as int).map_values(f).push(f(t[i as int])));
            }
            i = i + 1;
        }
        assert(t.take(t.len() as int) =~= t);
        palette_of(items)
    }

    /// The model palette: favourites first (starred), then the other models
    /// without repeats.
    pub fn models(models: Vec<String>, favorites: Vec<String>) -> (p: PaletteState)
        ensures
            items_view(p.items@) == model_entries(favorite_entries(favorites@), models@),
            p.visible@ == filtered(p.items@, Seq::empty()),
            p.filter@ == Seq::<char>::empty(),
            p.selected == 0,
    {
        let mut items: Vec<PaletteItem> = Vec::new();
        let ghost fe = favorite_entries(favorites@);
        let mut i: usize = 0;
        while i < favorites.len()
            invariant
                0 <= i <= favorites@.len(),
                fe == favorite_entries(favorites@),
                items_view(items@) == fe.take(i as int),
            decreases favorites@.len() - i,
        {
            let m = favorites[i].clone();
            let it = PaletteItem { label: m.clone(), hint: String::new(), action: Action::SetModel(m), starred: true };
            let ghost before = items@;
            let ghost iv = item_view(it);
            items.push(it);
            proof {
                assert(iv == fe[i as int]);
                assert(items_view(items@) =~= items_view(before).push(iv));
                assert(fe.take(i + 1) =~= fe.take(i as int).push(fe[i as int]));
            }
            i = i + 1;
        }
        assert(fe.take(fe.len() as int) =~= fe);
        let mut j: usize = 0;
        while j < models.len()
            invariant
                0 <= j <= models@.len(),
                fe == favorite_entries(favorites@),
                items_view(items@) == model_entries(fe, models@.take(j as int)),
            decreases models@.len() - j,
        {
            let m = &models[j];
            let ghost acc = items_view(items@);
            proof {
                assert(models@.take(j + 1).drop_last() =~= models@.take(j as int));
                assert(models@.take(j + 1).last() == models@[j as int]);
            }
            let mut seen = false;
            let mut k: usize = 0;
            while k < items.len()
                invariant
                    0 <= k <= items@.len(),
                    acc == items_view(items@),
                    !seen ==> forall|q: int| 0 <= q < k ==> (#[trigger] acc[q]).0 != m@,
                    seen ==> exists|q: int| 0 <= q < acc.len() && (#[trigger] acc[q]).0 == m@,
                decreases items@.len() - k,
            {
                if str_eq(items[k].label.as_str(), m.as_str()) {
                    assert(acc[k as int].0 == m@);
                    seen = true;
                }
                k = k + 1;
            }
            if !seen {
                let it = PaletteItem {
                    label: m.clone(),
                    hint: String::new(),
                    action: Action::SetModel(m.clone()),
                    starred: false,
                };
                items.push(it);
                assert(items_view(items@) =~= acc.push((m@, Seq::empty(), Action::SetModel(*m), false)));
            }
            j = j + 1;
        }
        assert(models@.take(models@.len() as int) =~= models@);
        palette_of(items)
    }

    /// A palette of provider names, each entry with the action `action(name)`.
    pub fn providers<F: Fn(String) -> Action>(action: F, names: Vec<String>) -> (p: PaletteState)
        requires
            forall|n: String| action.requires((n,)),
        ensures
            p.items@.len() == names@.len(),
            forall|k: int|
                0 <= k < names@.len() ==> {
                    &&& (#[trigger] p.items@[k]).label@ == names@[k]@
                    &&& p.items@[k].hint@ == Seq::<char>::empty()
                    &&& !p.items@[k].starred
                    &&& action.ensures((names@[k],), p.items@[k].action)
                },
            p.visible@ == filtered(p.items@, Seq::empty()),
            p.filter@ == Seq::<char>::empty(),
            p.selected == 0,
    {
        let mut items: Vec<PaletteItem> = Vec::new();
        let mut i: usize = 0;
        while i < names.len()
            invariant
                0 <= i <= names@.len(),
                forall|n: String| action.requires((n,)),
                items@.len() == i,
                forall|k: int|
                    0 <= k < i ==> {
                        &&& (#[trigger] items@[k]).label@ == names@[k]@
                        &&& items@[k].hint@ == Seq::<char>::empty()
                        &&& !items@[k].starred
                        &&& action.ensures((names@[k],), items@[k].action)
                    },
            decreases names@.len() - i,
        {
            let n = names[i].clone();
            let a = action(n);
            items.push(PaletteItem { label: names[i].clone(), hint: String::new(), action: a, starred: false });
            i = i + 1;
        }
        palette_of(items)
    }

    /// Filters the entries by `filter` (label or hint), keeping the selected
    /// entry selected when it is still visible.
    pub fn refilter(&mut self)
        ensures
            final(self).visible@ == filtered(old(self).items@, old(self).filter@),
            final(self).selected == reselected(old(self).visible@, old(self).selected as int, final(self).visible@),
            final(self).items == old(self).items,
            final(self).filter == old(self).filter,
    {
        let ghost ov = self.visible@;
        let ghost os = self.selected as int;
        let keep: Option<String> = if self.selected < self.visible.len() {
            Some(self.visible[self.selected].label.clone())
        } else {
            None
        };
        let mut vis: Vec<PaletteItem> = Vec::new();
        let mut i: usize = 0;
        let ghost its = self.items@;
        let ghost needle = self.filter@;
        while i < self.items.len()
            invariant
                its == self.items@,
                needle == self.filter@,
                self.items == old(self).items,
                self.filter == old(self).filter,
                0 <= i <= its.len(),
                vis@ == filtered(its.take(i as int), needle),
            decreases its.len() - i,
        {
            let it = &self.items[i];
            let a = fuzzy_score(it.label.as_str(), self.filter.as_str());
            let b = fuzzy_score(it.hint.as_str(), self.filter.as_str());
            proof {
                assert(its.take(i + 1).drop_last() =~= its.take(i as int));
                assert(its.take(i + 1).last() == its[i as int]);
            }
            if a.is_some() || b.is_some() {
                let c = it.clone_item();
                vis.push(c);
            }
            i = i + 1;
        }
        assert(its.take(its.len() as int) =~= its);
        self.visible = vis;
        self.selected = 0;
        let ghost nv = self.visible@;
        match keep {
            None => {
                assert(reselected(ov, os, nv) == 0);
            },
            Some(label) => {
                assert(label@ == ov[os].label@);
                proof {
                    lemma_label_index(nv, label@);
                }
                let mut k: usize = 0;
                while k < self.visible.len()
                    invariant
                        nv == self.visible@,
                        nv == filtered(old(self).items@, old(self).filter@),
                        ov == old(self).visible@,
                        os == old(self).selected as int,
                        0 <= os < ov.len(),
                        label@ == ov[os].label@,
                        0 <= k <= nv.len(),
                        forall|j: int| 0 <= j < k ==> nv[j].label@ != label@,
                        self.selected == 0,
                        self.items == old(self).items,
                        self.filter == old(self).filter,
                    decreases nv.len() - k,
                {
                    if str_eq(self.visible[k].label.as_str(), label.as_str()) {
                        self.selected = k;
                        proof {
                            lemma_label_index(nv, label@);
                            if let Some(q) = label_index(nv, label@) {
                                assert(q == k) by {
                                    if q < k {
                                        assert(nv[q].label@ != label@);
                                    }
                                    if q > k {
                                        assert(nv[k as int].label@ == label@);
                                    }
                                }
                            }
                        }
                        return;
                    }
                    k = k + 1;
                }
                proof {
                    lemma_label_index(nv, label@);
                    if let Some(q) = label_index(nv, label@) {
                        assert(nv[q].label@ == label@);
                    }
                }
            },
        }
    }

    /// Moves the selection up, from the top to the bottom.
    pub fn move_up(&mut self)
        ensures
            old(self).visible@.len() == 0 ==> final(self).selected == old(self).selected,
            old(self).visible@.len() > 0 ==> final(self).selected == wrap_up(
                old(self).selected as int,
                old(self).visible@.len() as int,
            ),
            final(self).visible == old(self).visible,
            final(self).items == old(self).items,
            final(self).filter == old(self).filter,
    {
        if self.visible.len() > 0 {
            self.selected = if self.selected == 0 {
                self.visible.len() - 1
            } else {
                self.selected - 1
            };
        }
    }

    /// Moves the selection down, from the bottom to the top.
    pub fn move_down(&mut self)
        requires
            old(self).selected < usize::MAX,
        ensures
            old(self).visible@.len() == 0 ==> final(self).selected == old(self).selected,
            old(self).visible@.len() > 0 ==> final(self).selected == wrap_down(
                old(self).selected as int,
                old(self).visible@.len() as int,
            ),
            final(self).visible == old(self).visible,
            final(self).items == old(self).items,
            final(self).filter == old(self).filter,
    {
        if self.visible.len() > 0 {
            self.selected = (self.selected + 1) % self.visible.len();
        }
    }
}

/// The entry below `sel` in a list of `n` entries, the first after the last.
pub open spec fn wrap_down(sel: int, n: int) -> int {
    (sel + 1) % n
}

/// The entry above `sel` in a list of `n` entries, the last before the first.
pub open spec fn wrap_up(sel: int, n: int) -> int {
    if sel == 0 {
        n - 1
    } else {
        sel - 1
    }
}

/// In a list that wraps (the palette, the sidebar, the messages), moving
/// down then up, or up then down, comes back to the same entry, and either
/// move stays in the list.
pub proof fn lemma_wrap_inverse(sel: int, n: int)
    requires
        0 <= sel < n,
    ensures
        wrap_up(wrap_down(sel, n), n) == sel,
        wrap_down(wrap_up(sel, n), n) == sel,
        0 <= wrap_down(sel, n) < n,
        0 <= wrap_up(sel, n) < n,
{
    vstd::arithmetic::div_mod::lemma_mod_self_0(n);
    if sel + 1 < n {
        vstd::arithmetic::div_mod::lemma_small_mod((sel + 1) as nat, n as nat);
    }
    vstd::arithmetic::div_mod::lemma_small_mod(sel as nat, n as nat);
    if sel > 0 {
        vstd::arithmetic::div_mod::lemma_small_mod(sel as nat, n as nat);
    }
}

/// A form field.
#[derive(Debug)]
pub struct FormField {
    pub label: String,
    pub value: String,
    /// Cursor, in characters.
    pub cx: usize,
    /// Shown masked (an API key).
    pub secret: bool,
}

/// What a form is for.
#[derive(Debug, Clone, PartialEq)]
pub enum FormPurpose {
    ProviderAdd,
    ProviderEdit { name: String },
    RenameSession { session_id: i64 },
    SystemPrompt { session_id: i64 },
    /// Editing a message; `regenerate` after editing a user message.
    EditMessage { message_id: i64, regenerate: bool },
}

/// A modal form.
pub struct FormState {
    pub title: String,
    pub purpose: FormPurpose,
    pub fields: Vec<FormField>,
    pub idx: usize,
    /// Key hints.
    pub hint: String,
}

/// A field with the cursor at the end of its value.
fn field(label: &str, value: &str, secret: bool) -> (f: FormField)
    ensures
        f.label@ == label@,
        f.value@ == value@,
        f.cx == value@.len(),
        f.secret == secret,
{
    let v = chars_of(value);
    FormField { label: string_of(chars_of(label).as_slice()), value: string_of(v.as_slice()), cx: v.len(), secret }
}

/// The form field after inserting `t` at its cursor.
pub open spec fn field_inserted(f: FormField, t: Seq<char>) -> (Seq<char>, int) {
    (insert_at(f.value@, clamp(f.cx as int, f.value@.len() as int), t), f.cx + t.len())
}

/// In a form field, Backspace right after typing a character takes the
/// value and the cursor back to where they were.
pub proof fn lemma_form_backspace_undoes_char(f: FormField, c: char)
    requires
        f.cx <= f.value@.len(),
    ensures
        field_inserted(f, seq![c]).1 - 1 == f.cx,
        field_inserted(f, seq![c]).0.remove(field_inserted(f, seq![c]).1 - 1) == f.value@,
{
    let v = f.value@;
    assert(insert_at(v, f.cx as int, seq![c]).remove(f.cx as int) =~= v);
}

impl FormState {
    /// The provider form (name, base URL, API key, default model), titled
    /// for editing or adding.
    pub fn provider(purpose: FormPurpose, name: &str, base_url: &str, api_key: &str, model: &str) -> (f: FormState)
        ensures
            f.purpose == purpose,
            f.fields@.len() == 4,
            f.fields@[0].value@ == name@ && f.fields@[0].cx == name@.len() && !f.fields@[0].secret,
            f.fields@[1].value@ == base_url@ && f.fields@[1].cx == base_url@.len() && !f.fields@[1].secret,
            f.fields@[2].value@ == api_key@ && f.fields@[2].cx == api_key@.len() && f.fields@[2].secret,
            f.fields@[3].value@ == model@ && f.fields@[3].cx == model@.len() && !f.fields@[3].secret,
            f.fields@[0].label@ == "名称"@,
            f.fields@[1].label@ == "Base URL（以 /v1 结尾）"@,
            f.fields@[2].label@ == "API Key（留空 = 不变）"@,
            f.fields@[3].label@ == "默认模型"@,
            f.idx == 0,
            f.title@ == (if purpose is ProviderEdit { "编辑提供商"@ } else { "添加提供商"@ }),
            f.hint@ == "Tab 切换字段 · Enter 提交 · Esc 取消"@,
    {
        let title = match &purpose {
            FormPurpose::ProviderEdit { .. } => "编辑提供商",
            _ => "添加提供商",
        };
        let mut fields: Vec<FormField> = Vec::new();
        fields.push(field("名称", name, false));
        fields.push(field("Base URL（以 /v1 结尾）", base_url, false));
        fields.push(field("API Key（留空 = 不变）", api_key, true));
        fields.push(field("默认模型", model, false));
        FormState {
            title: string_of(chars_of(title).as_slice()),
            purpose,
            fields,
            idx: 0,
            hint: string_of(chars_of("Tab 切换字段 · Enter 提交 · Esc 取消").as_slice()),
        }
    }

    /// A form of one field.
    pub fn simple(title: &str, purpose: FormPurpose, label: &str, value: &str) -> (f: FormState)
        ensures
            f.title@ == title@,
            f.purpose == purpose,
            f.fields@.len() == 1,
            f.fields@[0].label@ == label@,
            f.fields@[0].value@ == value@,
            f.fields@[0].cx == value@.len(),
            !f.fields@[0].secret,
            f.idx == 0,
            f.hint@ == "Enter 提交 · Esc 取消"@,
    {
        let mut fields: Vec<FormField> = Vec::new();
        fields.push(field(label, value, false));
        FormState {
            title: string_of(chars_of(title).as_slice()),
            purpose,
            fields,
            idx: 0,
            hint: string_of(chars_of("Enter 提交 · Esc 取消").as_slice()),
        }
    }

    /// The current field.
    pub fn field(&self) -> (r: &FormField)
        requires
            self.idx < self.fields@.len(),
        ensures
            *r == self.fields@[self.idx as int],
    {
        &self.fields[self.idx]
    }

    /// The current field, to change it; the form's other parts stay.
    pub fn field_mut(&mut self) -> (r: &mut FormField)
        requires
            old(self).idx < old(self).fields@.len(),
        ensures
            *r == old(self).fields@[old(self).idx as int],
            final(self).fields@ == old(self).fields@.update(old(self).idx as int, *final(r)),
            final(self).idx == old(self).idx,
            final(self).title == old(self).title,
            final(self).purpose == old(self).purpose,
            final(self).hint == old(self).hint,
    {
        &mut self.fields[self.idx]
    }

    /// Moves to the next field, from the last to the first.
    pub fn next_field(&mut self)
        requires
            old(self).fields@.len() > 0,
            old(self).idx < usize::MAX,
        ensures
            final(self).title == old(self).title,
            final(self).hint == old(self).hint,
            final(self).idx == (old(self).idx + 1) % (old(self).fields@.len() as int),
            final(self).fields == old(self).fields,
            final(self).purpose == old(self).purpose,
    {
        self.idx = (self.idx + 1) % self.fields.len();
    }

    /// Inserts the characters `t` at the cursor of the current field.
    fn insert_chars(&mut self, t: &[char])
        requires
            old(self).idx < old(self).fields@.len(),
            old(self).fields@[old(self).idx as int].cx + t@.len() <= usize::MAX,
        ensures
            final(self).title == old(self).title,
            final(self).hint == old(self).hint,
            final(self).fields@.len() == old(self).fields@.len(),
            final(self).idx == old(self).idx,
            final(self).purpose == old(self).purpose,
            forall|k: int| 0 <= k < old(self).fields@.len() && k != old(self).idx ==> final(self).fields@[k] == old(self).fields@[k],
            ({
                let f = old(self).fields@[old(self).idx as int];
                let g = final(self).fields@[old(self).idx as int];
                &&& (g.value@, g.cx as int) == field_inserted(f, t@)
                &&& g.label == f.label
                &&& g.secret == f.secret
            }),
    {
        let i = self.idx;
        let cs = chars_of(self.fields[i].value.as_str());
        let cx = self.fields[i].cx;
        let k = if cx < cs.len() {
            cx
        } else {
            cs.len()
        };
        let mut out = slice_of(cs.as_slice(), 0, k);
        push_all(&mut out, t);
        push_all(&mut out, slice_of(cs.as_slice(), k, cs.len()).as_slice());
        proof {
            assert(cs@.subrange(0, k as int) =~= cs@.take(k as int));
            assert(cs@.subrange(k as int, cs@.len() as int) =~= cs@.skip(k as int));
        }
        let f = FormField {
            label: self.fields[i].label.clone(),
            value: string_of(out.as_slice()),
            cx: cx + t.len(),
            secret: self.fields[i].secret,
        };
        self.fields.set(i, f);
    }

    /// Inserts `c` at the cursor of the current field.
    pub fn insert_char(&mut self, c: char)
        requires
            old(self).idx < old(self).fields@.len(),
            old(self).fields@[old(self).idx as int].cx < usize::MAX,
        ensures
            final(self).title == old(self).title,
            final(self).hint == old(self).hint,
            final(self).fields@.len() == old(self).fields@.len(),
            final(self).idx == old(self).idx,
            final(self).purpose == old(self).purpose,
            forall|k: int| 0 <= k < old(self).fields@.len() && k != old(self).idx ==> final(self).fields@[k] == old(self).fields@[k],
            ({
                let f = old(self).fields@[old(self).idx as int];
                let g = final(self).fields@[old(self).idx as int];
                &&& (g.value@, g.cx as int) == field_inserted(f, seq![c])
                &&& g.label == f.label
                &&& g.secret == f.secret
            }),
    {
        let one = vec![c];
        assert(one@ =~= seq![c]);
        self.insert_chars(one.as_slice());
    }

    /// Inserts a line break at the cursor of the current field.
    pub fn newline(&mut self)
        requires
            old(self).idx < old(self).fields@.len(),
            old(self).fields@[old(self).idx as int].cx < usize::MAX,
        ensures
            final(self).title == old(self).title,
            final(self).hint == old(self).hint,
            final(self).fields@.len() == old(self).fields@.len(),
            final(self).idx == old(self).idx,
            final(self).purpose == old(self).purpose,
            forall|k: int| 0 <= k < old(self).fields@.len() && k != old(self).idx ==> final(self).fields@[k] == old(self).fields@[k],
            ({
                let f = old(self).fields@[old(self).idx as int];
                let g = final(self).fields@[old(self).idx as int];
                &&& (g.value@, g.cx as int) == field_inserted(f, seq!['\n'])
                &&& g.label == f.label
                &&& g.secret == f.secret
            }),
    {
        self.insert_char('\n');
    }

    /// Pastes `text` at the cursor of the current field (`\r\n` and `\r` become `\n`).
    pub fn insert_text(&mut self, text: &str)
        requires
            old(self).idx < old(self).fields@.len(),
            old(self).fields@[old(self).idx as int].cx + normalize_newlines(text@).len() <= usize::MAX,
        ensures
            final(self).title == old(self).title,
            final(self).hint == old(self).hint,
            final(self).purpose == old(self).purpose,
            final(self).fields@.len() == old(self).fields@.len(),
            final(self).idx == old(self).idx,
            forall|k: int| 0 <= k < old(self).fields@.len() && k != old(self).idx ==> final(self).fields@[k] == old(self).fields@[k],
            ({
                let f = old(self).fields@[old(self).idx as int];
                let g = final(self).fields@[old(self).idx as int];
                (g.value@, g.cx as int) == field_inserted(f, normalize_newlines(text@))
            }),
    {
        let t = crate::input::normalized_chars(text);
        self.insert_chars(t.as_slice());
    }

    /// Deletes the character before the cursor of the current field.
    pub fn backspace(&mut self)
        requires
            old(self).idx < old(self).fields@.len(),
            old(self).fields@[old(self).idx as int].cx > 0 ==> old(self).fields@[old(self).idx as int].cx
                <= old(self).fields@[old(self).idx as int].value@.len(),
        ensures
            final(self).title == old(self).title,
            final(self).hint == old(self).hint,
            final(self).purpose == old(self).purpose,
            final(self).fields@.len() == old(self).fields@.len(),
            final(self).idx == old(self).idx,
            forall|k: int| 0 <= k < old(self).fields@.len() && k != old(self).idx ==> final(self).fields@[k] == old(self).fields@[k],
            ({
                let f = old(self).fields@[old(self).idx as int];
                let g = final(self).fields@[old(self).idx as int];
                &&& g.label == f.label
                &&& g.secret == f.secret
                &&& if f.cx > 0 {
                    g.value@ == f.value@.remove(f.cx - 1) && g.cx == f.cx - 1
                } else {
                    g == f
                }
            }),
    {
        let i = self.idx;
        if self.fields[i].cx > 0 {
            let cs = chars_of(self.fields[i].value.as_str());
            let k = self.fields[i].cx - 1;
            let mut out = slice_of(cs.as_slice(), 0, k);
            push_all(&mut out, slice_of(cs.as_slice(), k + 1, cs.len()).as_slice());
            assert(out@ =~= cs@.remove(k as int));
            let f = FormField {
                label: self.fields[i].label.clone(),
                value: string_of(out.as_slice()),
                cx: k,
                secret: self.fields[i].secret,
            };
            self.fields.set(i, f);
        }
    }

    /// The trimmed value of field `i`.
    pub fn value(&self, i: usize) -> (r: String)
        requires
            i < self.fields@.len(),
        ensures
            r@ == trim(self.fields@[i as int].value@),
    {
        trim_string(self.fields[i].value.as_str())
    }
}

/// The sessions, the current one, and its messages.
pub struct ChatView {
    pub sessions: Vec<Session>,
    pub current: Option<usize>,
    pub messages: Vec<Message>,
}

} // verus!
