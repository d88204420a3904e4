//! The model list of a provider: the ids of the `GET /models` reply, in
//! order.
use vstd::prelude::*;

use crate::json::{as_text, get_key, json_parse, spec_json_parse, JsonValue};
use crate::llm::{error_of_text, parse_error};
use crate::util::{chars_of, push_all, string_of, truncate_by_width, truncated};

verus! {

broadcast use vstd::seq_lib::to_multiset_insert, vstd::seq_lib::to_multiset_build;

/// Lexicographic order of texts, character by character (the order of
/// `String`'s `Ord`: UTF-8 keeps the order of the characters).
pub open spec fn text_le(a: Seq<char>, b: Seq<char>) -> bool
    decreases a.len(),
{
    if a.len() == 0 {
        true
    } else if b.len() == 0 {
        false
    } else if a[0] != b[0] {
        (a[0] as int) < (b[0] as int)
    } else {
        text_le(a.drop_first(), b.drop_first())
    }
}

/// Any two texts are ordered one way or the other.
pub proof fn lemma_text_le_total(a: Seq<char>, b: Seq<char>)
    ensures
        text_le(a, b) || text_le(b, a),
    decreases a.len(),
{
    if a.len() > 0 && b.len() > 0 {
        if a[0] == b[0] {
            lemma_text_le_total(a.drop_first(), b.drop_first());
        } else {
            assert((a[0] as int) != (b[0] as int));
        }
    }
}

/// The order is transitive.
pub proof fn lemma_text_le_trans(a: Seq<char>, b: Seq<char>, c: Seq<char>)
    requires
        text_le(a, b),
        text_le(b, c),
    ensures
        text_le(a, c),
    decreases a.len(),
{
    if a.len() > 0 && b.len() > 0 && c.len() > 0 && a[0] == b[0] && b[0] == c[0] {
        lemma_text_le_trans(a.drop_first(), b.drop_first(), c.drop_first());
    }
}

/// Whether the texts are in order.
pub open spec fn sorted_texts(s: Seq<Seq<char>>) -> bool {
    forall|i: int, j: int| 0 <= i < j < s.len() ==> text_le(s[i], s[j])
}

/// The texts of strings.
pub open spec fn texts_of(v: Seq<String>) -> Seq<Seq<char>> {
    v.map_values(|s: String| s@)
}

/// Whether `a` comes before `b` or equals it.
fn text_le_chars(a: &[char], b: &[char]) -> (r: bool)
    ensures
        r == text_le(a@, b@),
{
    let mut i: usize = 0;
    assert(a@.skip(0) =~= a@);
    assert(b@.skip(0) =~= b@);
    while i < a.len() && i < b.len() && a[i] == b[i]
        invariant
            0 <= i <= a@.len(),
            i <= b@.len(),
            text_le(a@, b@) == text_le(a@.skip(i as int), b@.skip(i as int)),
        decreases a@.len() - i,
    {
        assert(a@.skip(i as int).drop_first() =~= a@.skip(i + 1));
        assert(b@.skip(i as int).drop_first() =~= b@.skip(i + 1));
        i = i + 1;
    }
    if i == a.len() {
        true
    } else if i == b.len() {
        false
    } else {
        a[i] < b[i]
    }
}

/// Sorts texts into order (insertion sort).
pub fn sort_texts(v: Vec<String>) -> (r: Vec<String>)
    ensures
        sorted_texts(texts_of(r@)),
        texts_of(r@).to_multiset() == texts_of(v@).to_multiset(),
{
    let mut out: Vec<String> = Vec::new();
    let mut i: usize = 0;
    proof {
        assert(texts_of(out@) =~= Seq::<Seq<char>>::empty());
        assert(texts_of(v@.take(0)) =~= Seq::<Seq<char>>::empty());
    }
    while i < v.len()
        invariant
            0 <= i <= v@.len(),
            sorted_texts(texts_of(out@)),
            texts_of(out@).to_multiset() == texts_of(v@.take(i as int)).to_multiset(),
        decreases v@.len() - i,
    {
        let x = v[i].clone();
        let xs = chars_of(x.as_str());
        let ghost ov = texts_of(out@);
        let mut k: usize = out.len();
        while k > 0 && !text_le_chars(chars_of(out[k - 1].as_str()).as_slice(), xs.as_slice())
            invariant
                0 <= k <= out@.len(),
                ov == texts_of(out@),
                xs@ == x@,
                sorted_texts(ov),
                forall|j: int| k <= j < ov.len() ==> !text_le(#[trigger] ov[j], x@),
            decreases k,
        {
            k = k - 1;
        }
        proof {
            assert forall|j: int| k <= j < ov.len() implies text_le(x@, #[trigger] ov[j]) by {
                lemma_text_le_total(ov[j], x@);
            }
            if k > 0 {
                assert(text_le(ov[k - 1], x@));
                assert forall|j: int| 0 <= j < k implies text_le(#[trigger] ov[j], x@) by {
                    if j < k - 1 {
                        lemma_text_le_trans(ov[j], ov[k - 1], x@);
                    }
                }
            }
        }
        out.insert(k, x);
        proof {
            let nv = texts_of(out@);
            assert(nv =~= ov.insert(k as int, x@));
            assert forall|a: int, b: int| 0 <= a < b < nv.len() implies text_le(nv[a], nv[b]) by {
                if a < k && b == k {
                } else if a == k && b > k {
                    assert(nv[b] == ov[b - 1]);
                } else if a < k && b > k {
                    assert(nv[b] == ov[b - 1]);
                    lemma_text_le_trans(nv[a], x@, nv[b]);
                } else if b < k {
                } else {
                    assert(nv[a] == ov[a - 1]);
                    assert(nv[b] == ov[b - 1]);
                }
            }
            assert(v@.take(i + 1) =~= v@.take(i as int).push(v@[i as int]));
            assert(texts_of(v@.take(i + 1)) =~= texts_of(v@.take(i as int)).push(x@));
        }
        i = i + 1;
    }
    proof {
        assert(v@.take(v@.len() as int) =~= v@);
    }
    out
}

/// The ids of the entries of a model list (`id` members that are strings).
pub open spec fn ids_of(items: Seq<JsonValue>) -> Seq<Seq<char>>
    decreases items.len(),
{
    if items.len() == 0 {
        Seq::empty()
    } else {
        let prev = ids_of(items.drop_last());
        match get_key(items.last(), "id"@) {
            Some(x) => match as_text(x) {
                Some(t) => prev.push(t),
                None => prev,
            },
            None => prev,
        }
    }
}

/// The ids of a `GET /models` reply: those of the `data` array.
pub open spec fn model_ids(v: JsonValue) -> Seq<Seq<char>> {
    match get_key(v, "data"@) {
        Some(JsonValue::Array(a)) => ids_of(a@),
        _ => Seq::empty(),
    }
}

/// The ids of the entries of an array.
fn ids_from(items: &Vec<JsonValue>) -> (r: Vec<String>)
    ensures
        texts_of(r@) == ids_of(items@),
{
    let mut out: Vec<String> = Vec::new();
    let mut i: usize = 0;
    while i < items.len()
        invariant
            0 <= i <= items@.len(),
            texts_of(out@) == ids_of(items@.take(i as int)),
        decreases items@.len() - i,
    {
        proof {
            assert(items@.take(i + 1).drop_last() =~= items@.take(i as int));
            assert(items@.take(i + 1).last() == items@[i as int]);
        }
        match items[i].get("id") {
            Some(x) => match x.as_str() {
                Some(t) => {
                    let ghost before = out@;
                    let s = string_of(chars_of(t).as_slice());
                    out.push(s);
                    proof {
                        assert(texts_of(out@) =~= texts_of(before).push(s@));
                    }
                },
                None => {},
            },
            None => {},
        }
        i = i + 1;
    }
    proof {
        assert(items@.take(items@.len() as int) =~= items@);
    }
    out
}

/// The message of a failed model list request.
pub open spec fn models_http_message(status: Seq<char>, body: Seq<char>) -> Seq<char> {
    "HTTP "@ + status + ": "@ + match error_of_text(body) {
        Some(m) => m,
        None => truncated(body, 200),
    }
}

/// The model ids of a `GET /models` reply, in order: a failure status
/// gives the body's error message (else its first 200 columns), a body
/// that is not JSON the parser's message, and a reply without a `data`
/// array no model.
pub fn models_from_reply(ok: bool, status: &str, body: &str) -> (r: Result<Vec<String>, String>)
    ensures
        !ok ==> (r matches Err(m) && m@ == models_http_message(status@, body@)),
        ok ==> match spec_json_parse(body@) {
            Ok(v) => (r matches Ok(list) && sorted_texts(texts_of(list@)) && texts_of(list@).to_multiset()
                == model_ids(v).to_multiset()),
            Err(e) => (r matches Err(m) && m@ == "解析模型列表失败: "@ + e),
        },
{
    if !ok {
        let detail = match parse_error(body) {
            Some(m) => m,
            None => truncate_by_width(body, 200),
        };
        let mut m = chars_of("HTTP ");
        push_all(&mut m, chars_of(status).as_slice());
        push_all(&mut m, chars_of(": ").as_slice());
        push_all(&mut m, chars_of(detail.as_str()).as_slice());
        return Err(string_of(m.as_slice()));
    }
    match json_parse(body) {
        Ok(v) => {
            let ids = match v.get("data") {
                Some(d) => match d {
                    JsonValue::Array(a) => ids_from(a),
                    _ => {
                        let e: Vec<String> = Vec::new();
                        assert(texts_of(e@) =~= Seq::<Seq<char>>::empty());
                        e
                    },
                },
                None => {
                    let e: Vec<String> = Vec::new();
                    assert(texts_of(e@) =~= Seq::<Seq<char>>::empty());
                    e
                },
            };
            Ok(sort_texts(ids))
        },
        Err(e) => {
            let mut m = chars_of("解析模型列表失败: ");
            push_all(&mut m, chars_of(e.as_str()).as_slice());
            Err(string_of(m.as_slice()))
        },
    }
}

} // verus!
