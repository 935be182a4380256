//! JSON values.
//!
//! `serde_json` reads a text once; the tree that the library works on is built
//! from the value that it hands out, one level of nesting at a time. A value is
//! known by the characters as which `serde_json` writes it.

use serde_json::Value;
use vstd::prelude::*;

use crate::text;

verus! {

/// `serde_json` refuses texts whose arrays and objects nest this deep.
pub const MAX_DEPTH: u32 = 128;

// ── Model ───────────────────────────────────────────────

/// A JSON value. A number is known by what it is as an `i64` and as a `u64`;
/// it is neither if it has a fraction, an exponent or too many digits.
pub enum JsonView {
    Null,
    Bool(bool),
    Number(Option<i64>, Option<u64>),
    Text(Seq<char>),
    Array(Seq<JsonView>),
    Object(Seq<(Seq<char>, JsonView)>),
}

/// One level of a JSON value. Its elements and members are given as they are
/// written.
pub enum LayerView {
    Null,
    Bool(bool),
    Number(Option<i64>, Option<u64>),
    Text(Seq<char>),
    Array(Seq<Seq<char>>),
    Object(Seq<(Seq<char>, Seq<char>)>),
}

/// `serde_json::Value`.
#[verifier::external_type_specification]
#[verifier::external_body]
pub struct ExValue(Value);

/// What a `serde_json::Value` holds: the characters as which `serde_json` writes
/// it.
pub uninterp spec fn written(value: Value) -> Seq<char>;

/// What `serde_json::from_str` reads from a text, as `serde_json` writes it; or
/// nothing where it reports an error.
pub uninterp spec fn read_json(text: Seq<char>) -> Option<Seq<char>>;

/// What the value is made of that `serde_json` writes as `text`.
pub uninterp spec fn json_layer(text: Seq<char>) -> LayerView;

/// The value that is written as `text`, down to `depth` levels of nesting.
pub open spec fn tree(text: Seq<char>, depth: nat) -> JsonView
    decreases depth,
{
    if depth == 0 {
        JsonView::Null
    } else {
        match json_layer(text) {
            LayerView::Null => JsonView::Null,
            LayerView::Bool(b) => JsonView::Bool(b),
            LayerView::Number(i, u) => JsonView::Number(i, u),
            LayerView::Text(s) => JsonView::Text(s),
            LayerView::Array(items) => JsonView::Array(
                Seq::new(items.len(), |i: int| tree(items[i], (depth - 1) as nat)),
            ),
            LayerView::Object(members) => JsonView::Object(
                Seq::new(
                    members.len(),
                    |i: int| (members[i].0, tree(members[i].1, (depth - 1) as nat)),
                ),
            ),
        }
    }
}

/// The value that is written as `text`.
pub open spec fn value_of(text: Seq<char>) -> JsonView {
    tree(text, MAX_DEPTH as nat)
}

/// The value that is read from `text`, if `text` is JSON.
pub open spec fn parsed_json(text: Seq<char>) -> Option<JsonView> {
    match read_json(text) {
        Some(w) => Some(value_of(w)),
        None => None,
    }
}

/// The first member with the name `key`.
pub open spec fn lookup<T>(members: Seq<(Seq<char>, T)>, key: Seq<char>) -> Option<T>
    decreases members.len(),
{
    if members.len() == 0 {
        None
    } else if members[0].0 == key {
        Some(members[0].1)
    } else {
        lookup(members.drop_first(), key)
    }
}

/// What `lookup` finds is the first with the key: nothing is found exactly if
/// there is none.
pub proof fn law_lookup<T>(members: Seq<(Seq<char>, T)>, key: Seq<char>, k: int)
    requires
        0 <= k <= members.len(),
        k < members.len() ==> members[k].0 == key,
        forall|i: int| 0 <= i < k ==> (#[trigger] members[i]).0 != key,
    ensures
        lookup(members, key) == if k < members.len() {
            Some(members[k].1)
        } else {
            None
        },
    decreases members.len(),
{
    if members.len() > 0 && k > 0 {
        let rest = members.drop_first();
        assert(members[0].0 != key);
        assert forall|i: int| 0 <= i < k - 1 implies (#[trigger] rest[i]).0 != key by {
            assert(rest[i] == members[i + 1]);
        }
        law_lookup(rest, key, k - 1);
    }
}

/// What `lookup` finds is part of what it searched.
pub proof fn lemma_lookup_smaller(members: Seq<(Seq<char>, JsonView)>, key: Seq<char>)
    ensures
        lookup(members, key) matches Some(v) ==> decreases_to!(members => v),
    decreases members.len(),
{
    if members.len() > 0 {
        if members[0].0 == key {
            assert(decreases_to!(members => members[0]));
            assert(decreases_to!(members[0] => members[0].1));
        } else {
            lemma_lookup_smaller(members.drop_first(), key);
            assert(decreases_to!(members => members.drop_first()));
        }
    }
}

/// The elements of a member are part of the value.
pub proof fn lemma_elements_smaller(v: JsonView, key: Seq<char>)
    ensures
        v.at(key).as_array() matches Some(items) ==> decreases_to!(v => items),
{
    if let JsonView::Object(members) = v {
        lemma_lookup_smaller(members, key);
    }
}

impl JsonView {
    /// The member `key`, if the value is an object that has it.
    pub open spec fn get(self, key: Seq<char>) -> Option<JsonView> {
        match self {
            JsonView::Object(members) => lookup(members, key),
            _ => None,
        }
    }

    /// The member `key`, or null.
    pub open spec fn at(self, key: Seq<char>) -> JsonView {
        match self.get(key) {
            Some(v) => v,
            None => JsonView::Null,
        }
    }

    pub open spec fn as_text(self) -> Option<Seq<char>> {
        match self {
            JsonView::Text(s) => Some(s),
            _ => None,
        }
    }

    /// The text, or the empty text if the value is none.
    pub open spec fn text_or_empty(self) -> Seq<char> {
        match self {
            JsonView::Text(s) => s,
            _ => Seq::empty(),
        }
    }

    pub open spec fn as_bool(self) -> Option<bool> {
        match self {
            JsonView::Bool(b) => Some(b),
            _ => None,
        }
    }

    pub open spec fn as_i64(self) -> Option<i64> {
        match self {
            JsonView::Number(i, u) => i,
            _ => None,
        }
    }

    pub open spec fn as_u64(self) -> Option<u64> {
        match self {
            JsonView::Number(i, u) => u,
            _ => None,
        }
    }

    pub open spec fn as_array(self) -> Option<Seq<JsonView>> {
        match self {
            JsonView::Array(items) => Some(items),
            _ => None,
        }
    }
}

// ── Values ──────────────────────────────────────────────

/// A JSON value.
#[derive(Debug)]
pub enum Json {
    Null,
    Bool(bool),
    Number(Option<i64>, Option<u64>),
    Text(String),
    Array(Vec<Json>),
    Object(Vec<(String, Json)>),
}

impl Json {
    pub open spec fn view(&self) -> JsonView
        decreases self,
    {
        match self {
            Json::Null => JsonView::Null,
            Json::Bool(b) => JsonView::Bool(*b),
            Json::Number(i, u) => JsonView::Number(*i, *u),
            Json::Text(s) => JsonView::Text(s@),
            Json::Array(items) => JsonView::Array(
                Seq::new(
                    items@.len(),
                    |i: int|
                        if 0 <= i < items@.len() {
                            items@[i].view()
                        } else {
                            JsonView::Null
                        },
                ),
            ),
            Json::Object(members) => JsonView::Object(
                Seq::new(
                    members@.len(),
                    |i: int|
                        if 0 <= i < members@.len() {
                            (members@[i].0@, members@[i].1.view())
                        } else {
                            (Seq::empty(), JsonView::Null)
                        },
                ),
            ),
        }
    }
}

/// One level of a JSON value, as `serde_json` holds it.
enum Layer {
    Null,
    Bool(bool),
    Number(Option<i64>, Option<u64>),
    Text(String),
    Array(Vec<Value>),
    Object(Vec<(String, Value)>),
}

/// Some values as they are written.
spec fn written_items(items: Seq<Value>) -> Seq<Seq<char>> {
    Seq::new(items.len(), |i: int| written(items[i]))
}

/// Some members, their values as they are written.
spec fn written_members(members: Seq<(String, Value)>) -> Seq<(Seq<char>, Seq<char>)> {
    Seq::new(members.len(), |i: int| (members[i].0@, written(members[i].1)))
}

spec fn layer_view(layer: Layer) -> LayerView {
    match layer {
        Layer::Null => LayerView::Null,
        Layer::Bool(b) => LayerView::Bool(b),
        Layer::Number(i, u) => LayerView::Number(i, u),
        Layer::Text(s) => LayerView::Text(s@),
        Layer::Array(items) => LayerView::Array(written_items(items@)),
        Layer::Object(members) => LayerView::Object(written_members(members@)),
    }
}

// ── Calls into serde_json ───────────────────────────────

/// `serde_json::from_str` on a `serde_json::Value`. Nothing is said of which
/// texts are JSON.
#[verifier::external_body]
fn serde_read(text: &str) -> (r: Option<Value>)
    ensures
        r is Some <==> read_json(text@) is Some,
        r matches Some(v) ==> read_json(text@) == Some(written(v)),
{
    serde_json::from_str::<Value>(text).ok()
}

/// `serde_json::to_string` of a `serde_json::Value`, by its `Display`: the value
/// as it is written.
#[verifier::external_body]
fn serde_write(value: &Value) -> (r: String)
    ensures
        r@ == written(*value),
{
    value.to_string()
}

/// `Clone` of a `serde_json::Value`: the copy is written alike.
#[verifier::external_body]
fn serde_clone(value: &Value) -> (r: Value)
    ensures
        written(r) == written(*value),
{
    value.clone()
}

/// A `serde_json::Value` taken apart by its variants; a number by
/// `Number::as_i64` and `Number::as_u64`. Values that are written alike are the
/// same, and so are their parts.
#[verifier::external_body]
fn serde_open(value: Value) -> (r: Layer)
    ensures
        layer_view(r) == json_layer(written(value)),
{
    match value {
        Value::Null => Layer::Null,
        Value::Bool(b) => Layer::Bool(b),
        Value::Number(n) => Layer::Number(n.as_i64(), n.as_u64()),
        Value::String(s) => Layer::Text(s),
        Value::Array(items) => Layer::Array(items),
        Value::Object(members) => Layer::Object(members.into_iter().collect()),
    }
}

/// The tree of a value, down to `depth` levels of nesting.
fn read_tree(value: Value, depth: u32) -> (r: Json)
    ensures
        r.view() == tree(written(value), depth as nat),
    decreases depth,
{
    if depth == 0 {
        return Json::Null;
    }
    match serde_open(value) {
        Layer::Null => Json::Null,
        Layer::Bool(b) => Json::Bool(b),
        Layer::Number(i, u) => Json::Number(i, u),
        Layer::Text(s) => Json::Text(s),
        Layer::Array(items) => {
            let ghost texts = written_items(items@);
            let mut out: Vec<Json> = Vec::new();
            for v in it: items
                invariant
                    depth > 0,
                    texts == written_items(it.seq()),
                    out.len() == it.index(),
                    forall|k: int|
                        0 <= k < it.index() ==> (#[trigger] out@[k]).view() == tree(
                            texts[k],
                            (depth - 1) as nat,
                        ),
            {
                out.push(read_tree(v, depth - 1));
            }
            let r = Json::Array(out);
            assert(r.view()->Array_0 =~= tree(written(value), depth as nat)->Array_0);
            r
        },
        Layer::Object(members) => {
            let ghost texts = written_members(members@);
            let mut out: Vec<(String, Json)> = Vec::new();
            for m in it: members
                invariant
                    depth > 0,
                    texts == written_members(it.seq()),
                    out.len() == it.index(),
                    forall|k: int|
                        0 <= k < it.index() ==> (#[trigger] out@[k]).0@ == texts[k].0
                            && out@[k].1.view() == tree(texts[k].1, (depth - 1) as nat),
            {
                out.push((m.0, read_tree(m.1, depth - 1)));
            }
            let r = Json::Object(out);
            assert(r.view()->Object_0 =~= tree(written(value), depth as nat)->Object_0);
            r
        },
    }
}

// ── Reading ─────────────────────────────────────────────

/// The value of an object without members.
pub open spec fn empty_object() -> JsonView {
    JsonView::Object(Seq::empty())
}

/// The value written in a parameter text; an empty object if it is not JSON.
pub open spec fn param_of(text: Seq<char>) -> JsonView {
    match parsed_json(text) {
        Some(v) => v,
        None => empty_object(),
    }
}

/// The member `key` of the object that is written as `text`, as it is written.
pub open spec fn member_of(text: Seq<char>, key: Seq<char>) -> Option<Seq<char>> {
    match json_layer(text) {
        LayerView::Object(members) => lookup(members, key),
        _ => None,
    }
}

/// The elements of the array that is written as `text`, as they are written.
pub open spec fn elements_of(text: Seq<char>) -> Option<Seq<Seq<char>>> {
    match json_layer(text) {
        LayerView::Array(items) => Some(items),
        _ => None,
    }
}

/// The value that is read from `text`, if `text` is JSON.
pub fn parse_json(text: &str) -> (r: Option<Json>)
    ensures
        r is Some <==> parsed_json(text@) is Some,
        r matches Some(v) ==> parsed_json(text@) == Some(v.view()),
{
    match serde_read(text) {
        Some(value) => Some(read_tree(value, MAX_DEPTH)),
        None => None,
    }
}

/// The value of a parameter text; an empty object if it is not JSON.
pub fn param_value(recur_param: &str) -> (r: Json)
    ensures
        r.view() == param_of(recur_param@),
{
    match parse_json(recur_param) {
        Some(v) => v,
        None => {
            let members: Vec<(String, Json)> = Vec::new();
            let r = Json::Object(members);
            assert(r.view()->Object_0 =~= Seq::empty());
            r
        },
    }
}

// ── Documents ───────────────────────────────────────────

/// A JSON value that can be written again, or a part of one. It is modelled by
/// the characters as which it is written.
#[derive(Debug)]
pub struct Doc {
    value: Value,
}

impl View for Doc {
    type V = Seq<char>;

    closed spec fn view(&self) -> Seq<char> {
        written(self.value)
    }
}

/// The characters as which some documents are written.
pub open spec fn doc_texts(docs: Seq<Doc>) -> Seq<Seq<char>> {
    Seq::new(docs.len(), |i: int| docs[i]@)
}

/// An optional document as it is written.
pub open spec fn opt_doc(doc: Option<Doc>) -> Option<Seq<char>> {
    match doc {
        Some(d) => Some(d@),
        None => None,
    }
}

impl Doc {
    /// The document that is read from `text`, if `text` is JSON.
    pub fn parse(text: &str) -> (r: Option<Doc>)
        ensures
            opt_doc(r) == read_json(text@),
    {
        match serde_read(text) {
            Some(value) => Some(Doc { value }),
            None => None,
        }
    }

    /// The document as it is written.
    pub fn write(&self) -> (r: String)
        ensures
            r@ == self@,
    {
        serde_write(&self.value)
    }

    /// The same document once more.
    pub fn copy(&self) -> (r: Doc)
        ensures
            r@ == self@,
    {
        Doc { value: serde_clone(&self.value) }
    }

    /// The value of the document.
    pub fn json(&self) -> (r: Json)
        ensures
            r.view() == value_of(self@),
    {
        read_tree(serde_clone(&self.value), MAX_DEPTH)
    }

    /// The member `key`, if the document is an object that has it.
    pub fn into_member(self, key: &str) -> (r: Option<Doc>)
        ensures
            opt_doc(r) == member_of(self@, key@),
    {
        match serde_open(self.value) {
            Layer::Object(members) => {
                let ghost all = written_members(members@);
                assert(all.skip(0) == all);
                for m in it: members
                    invariant
                        all == written_members(it.seq()),
                        json_layer(self@) == LayerView::Object(all),
                        lookup(all, key@) == lookup(all.skip(it.index()), key@),
                {
                    let ghost i = it.index();
                    assert(all.skip(i).drop_first() == all.skip(i + 1));
                    assert(all.skip(i)[0] == (m.0@, written(m.1)));
                    if m.0.as_str().eq(key) {
                        return Some(Doc { value: m.1 });
                    }
                }
                None
            },
            _ => None,
        }
    }

    /// The elements, if the document is an array.
    pub fn into_elements(self) -> (r: Option<Vec<Doc>>)
        ensures
            r is Some <==> elements_of(self@) is Some,
            r matches Some(v) ==> elements_of(self@) == Some(doc_texts(v@)),
    {
        match serde_open(self.value) {
            Layer::Array(items) => {
                let ghost all = written_items(items@);
                let mut out: Vec<Doc> = Vec::new();
                for value in it: items
                    invariant
                        all == written_items(it.seq()),
                        out.len() == it.index(),
                        forall|k: int|
                            0 <= k < it.index() ==> (#[trigger] out@[k])@ == all[k],
                {
                    out.push(Doc { value });
                }
                assert(doc_texts(out@) =~= all);
                Some(out)
            },
            _ => None,
        }
    }
}

// ── Access ──────────────────────────────────────────────

/// The views of a list of values.
pub open spec fn values(items: Seq<Json>) -> Seq<JsonView> {
    Seq::new(items.len(), |i: int| items[i].view())
}

impl Json {
    /// The member `key`, if the value is an object that has it.
    pub fn get(&self, key: &str) -> (r: Option<&Json>)
        ensures
            r is Some <==> self.view().get(key@) is Some,
            r matches Some(v) ==> self.view().get(key@) == Some(v.view()),
    {
        match self {
            Json::Object(members) => {
                let ghost view = self.view()->Object_0;
                let mut i: usize = 0;
                assert(view.skip(0) == view);
                while i < members.len()
                    invariant
                        self.view() == JsonView::Object(view),
                        view.len() == members.len(),
                        forall|k: int|
                            0 <= k < members.len() ==> #[trigger] view[k] == (
                                members@[k].0@,
                                members@[k].1.view(),
                            ),
                        i <= members.len(),
                        lookup(view, key@) == lookup(view.skip(i as int), key@),
                    decreases members.len() - i,
                {
                    assert(view.skip(i as int).drop_first() == view.skip(i + 1));
                    if members[i].0.as_str().eq(key) {
                        return Some(&members[i].1);
                    }
                    i += 1;
                }
                None
            },
            _ => None,
        }
    }

    /// The member `key`, or null.
    pub fn at(&self, key: &str) -> (r: &Json)
        ensures
            r.view() == self.view().at(key@),
    {
        match self.get(key) {
            Some(v) => v,
            None => &Json::Null,
        }
    }

    /// The text of the member `key`, if it is one.
    pub fn text_at(&self, key: &str) -> (r: Option<String>)
        ensures
            text::opt_text(r) == self.view().at(key@).as_text(),
    {
        match self.get(key) {
            Some(Json::Text(s)) => Some(s.clone()),
            _ => None,
        }
    }

    /// The text of the member `key`, or the empty text.
    pub fn text_or_empty_at(&self, key: &str) -> (r: String)
        ensures
            r@ == self.view().at(key@).text_or_empty(),
    {
        match self.get(key) {
            Some(Json::Text(s)) => s.clone(),
            _ => String::new(),
        }
    }

    pub fn bool_at(&self, key: &str) -> (r: Option<bool>)
        ensures
            r == self.view().at(key@).as_bool(),
    {
        match self.get(key) {
            Some(Json::Bool(b)) => Some(*b),
            _ => None,
        }
    }

    pub fn i64_at(&self, key: &str) -> (r: Option<i64>)
        ensures
            r == self.view().at(key@).as_i64(),
    {
        match self.get(key) {
            Some(Json::Number(i, _)) => *i,
            _ => None,
        }
    }

    pub fn u64_at(&self, key: &str) -> (r: Option<u64>)
        ensures
            r == self.view().at(key@).as_u64(),
    {
        match self.get(key) {
            Some(Json::Number(_, u)) => *u,
            _ => None,
        }
    }

    /// The elements of the member `key`, if it is an array.
    pub fn array_at(&self, key: &str) -> (r: Option<&Vec<Json>>)
        ensures
            r is Some <==> self.view().at(key@).as_array() is Some,
            r matches Some(v) ==> self.view().at(key@).as_array() == Some(values(v@)),
    {
        match self.get(key) {
            Some(Json::Array(items)) => {
                assert(self.view().at(key@)->Array_0 =~= values(items@));
                Some(items)
            },
            _ => None,
        }
    }

    /// The number of a value, if it is one that fits a `u64`.
    pub fn as_u64(&self) -> (r: Option<u64>)
        ensures
            r == self.view().as_u64(),
    {
        match self {
            Json::Number(_, u) => *u,
            _ => None,
        }
    }
}

} // verus!
