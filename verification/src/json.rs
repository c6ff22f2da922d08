//! JSON values as plain data.
//!
//! Reading and writing JSON text is `serde_json`'s work. What it reads is taken apart into [`Json`],
//! which the rest of the crate looks into.
use vstd::prelude::*;

use crate::text::{decimal, decimal_of, owned, same};

verus! {

/// A JSON value.
#[derive(Debug)]
pub enum Json {
    Null,
    Bool(bool),
    /// A number: its value where it is a `u64`, and how it is written.
    Number(Option<u64>, String),
    Text(String),
    Array(Vec<Json>),
    /// The members of an object, in order.
    Object(Vec<(String, Json)>),
}

/// What a JSON value holds.
#[verifier::ext_equal]
pub enum JsonView {
    Null,
    Bool(bool),
    Number(Option<u64>, Seq<char>),
    Text(Seq<char>),
    Array(Seq<JsonView>),
    Object(Seq<(Seq<char>, JsonView)>),
}

impl Json {
    /// What the value holds.
    pub open spec fn model(&self) -> JsonView
        decreases self,
    {
        match self {
            Json::Null => JsonView::Null,
            Json::Bool(b) => JsonView::Bool(*b),
            Json::Number(n, s) => JsonView::Number(*n, s@),
            Json::Text(s) => JsonView::Text(s@),
            Json::Array(v) => JsonView::Array(
                Seq::new(
                    v@.len(),
                    |i: int|
                        if 0 <= i < v@.len() {
                            v@[i].model()
                        } else {
                            JsonView::Null
                        },
                ),
            ),
            Json::Object(v) => JsonView::Object(
                Seq::new(
                    v@.len(),
                    |i: int|
                        if 0 <= i < v@.len() {
                            (v@[i].0@, v@[i].1.model())
                        } else {
                            (Seq::empty(), JsonView::Null)
                        },
                ),
            ),
        }
    }
}

impl View for Json {
    type V = JsonView;

    open spec fn view(&self) -> JsonView {
        self.model()
    }
}

/// The values behind a list of JSON values.
pub open spec fn json_views(v: Seq<Json>) -> Seq<JsonView> {
    Seq::new(v.len(), |i: int| v[i]@)
}

/// The members of an object.
pub open spec fn member_views(v: Seq<(String, Json)>) -> Seq<(Seq<char>, JsonView)> {
    Seq::new(v.len(), |i: int| (v[i].0@, v[i].1@))
}

/// What arrays and objects hold, over the views of their parts.
pub broadcast proof fn lemma_views(j: Json)
    ensures
        #![trigger j@]
        j matches Json::Array(v) ==> j@ == JsonView::Array(json_views(v@)),
        j matches Json::Object(v) ==> j@ == JsonView::Object(member_views(v@)),
{
    match j {
        Json::Array(v) => {
            assert(j@->Array_0 =~= json_views(v@));
        },
        Json::Object(v) => {
            assert(j@->Object_0 =~= member_views(v@));
        },
        _ => {},
    }
}

// ---------------------------------------------------------------------------------------------
// Looking into values
// ---------------------------------------------------------------------------------------------

/// The value of the first member with the given name.
pub open spec fn member_in(ms: Seq<(Seq<char>, JsonView)>, key: Seq<char>) -> Option<JsonView>
    decreases ms.len(),
{
    if ms.len() == 0 {
        None
    } else if ms[0].0 == key {
        Some(ms[0].1)
    } else {
        member_in(ms.drop_first(), key)
    }
}

impl JsonView {
    /// The member with the given name, where the value is an object that has one.
    pub open spec fn member(self, key: Seq<char>) -> Option<JsonView> {
        match self {
            JsonView::Object(ms) => member_in(ms, key),
            _ => None,
        }
    }

    /// The text, where the value is a string.
    pub open spec fn text(self) -> Option<Seq<char>> {
        match self {
            JsonView::Text(s) => Some(s),
            _ => None,
        }
    }

    /// The number, where the value is one that `u64` holds.
    pub open spec fn uint(self) -> Option<u64> {
        match self {
            JsonView::Number(n, _) => n,
            _ => None,
        }
    }

    /// The elements, where the value is an array.
    pub open spec fn items(self) -> Option<Seq<JsonView>> {
        match self {
            JsonView::Array(v) => Some(v),
            _ => None,
        }
    }

    /// What the pointer step `0` leads to: the first element of an array, or the member that is
    /// named so.
    pub open spec fn zeroth(self) -> Option<JsonView> {
        match self {
            JsonView::Array(v) => if v.len() > 0 {
                Some(v[0])
            } else {
                None
            },
            JsonView::Object(ms) => member_in(ms, "0"@),
            _ => None,
        }
    }

    /// The text of the member with the given name, where it is a string.
    pub open spec fn text_member(self, key: Seq<char>) -> Option<Seq<char>> {
        match self.member(key) {
            Some(v) => v.text(),
            None => None,
        }
    }

    /// The number of the member with the given name, where it is one that `u64` holds.
    pub open spec fn uint_member(self, key: Seq<char>) -> Option<u64> {
        match self.member(key) {
            Some(v) => v.uint(),
            None => None,
        }
    }

    /// The elements of the member with the given name, where it is an array.
    pub open spec fn items_member(self, key: Seq<char>) -> Option<Seq<JsonView>> {
        match self.member(key) {
            Some(v) => v.items(),
            None => None,
        }
    }
}

/// The character sequence of an optional string.
pub open spec fn optional_text(s: Option<&str>) -> Option<Seq<char>> {
    match s {
        Some(t) => Some(t@),
        None => None,
    }
}

/// The view of an optional value.
pub open spec fn optional_json(v: Option<&Json>) -> Option<JsonView> {
    match v {
        Some(j) => Some(j@),
        None => None,
    }
}

impl Json {
    /// The member of an object with the given name.
    pub fn get(&self, key: &str) -> (r: Option<&Json>)
        ensures
            optional_json(r) == self@.member(key@),
    {
        broadcast use lemma_views;

        match self {
            Json::Object(ms) => {
                let ghost all = member_views(ms@);
                assert(all.skip(0) =~= all);
                for i in 0..ms.len()
                    invariant
                        self@ == JsonView::Object(all),
                        all == member_views(ms@),
                        member_in(all, key@) == member_in(all.skip(i as int), key@),
                {
                    assert(all.skip(i as int)[0] == all[i as int]);
                    assert(all.skip(i as int).drop_first() =~= all.skip(i + 1));
                    if same(ms[i].0.as_str(), key) {
                        return Some(&ms[i].1);
                    }
                }
                None
            },
            _ => None,
        }
    }

    /// The text of a string.
    pub fn as_str(&self) -> (r: Option<&str>)
        ensures
            optional_text(r) == self@.text(),
    {
        match self {
            Json::Text(s) => Some(s.as_str()),
            _ => None,
        }
    }

    /// The value of a number that `u64` holds.
    pub fn as_u64(&self) -> (r: Option<u64>)
        ensures
            r == self@.uint(),
    {
        match self {
            Json::Number(n, _) => *n,
            _ => None,
        }
    }

    /// The elements of an array.
    pub fn as_array(&self) -> (r: Option<&Vec<Json>>)
        ensures
            match r {
                Some(v) => self@.items() == Some(json_views(v@)),
                None => self@.items() is None,
            },
    {
        broadcast use lemma_views;

        match self {
            Json::Array(v) => Some(v),
            _ => None,
        }
    }

    /// What the pointer step `0` leads to.
    pub fn zero(&self) -> (r: Option<&Json>)
        ensures
            optional_json(r) == self@.zeroth(),
    {
        broadcast use lemma_views;

        match self {
            Json::Array(v) => {
                if v.len() > 0 {
                    Some(&v[0])
                } else {
                    None
                }
            },
            Json::Object(_) => self.get("0"),
            _ => None,
        }
    }

    /// The text of a member.
    pub fn str_at(&self, key: &str) -> (r: Option<&str>)
        ensures
            optional_text(r) == self@.text_member(key@),
    {
        match self.get(key) {
            Some(v) => v.as_str(),
            None => None,
        }
    }

    /// The value of a member that is a number which `u64` holds.
    pub fn u64_at(&self, key: &str) -> (r: Option<u64>)
        ensures
            r == self@.uint_member(key@),
    {
        match self.get(key) {
            Some(v) => v.as_u64(),
            None => None,
        }
    }

    /// The elements of a member that is an array.
    pub fn array_at(&self, key: &str) -> (r: Option<&Vec<Json>>)
        ensures
            match r {
                Some(v) => self@.items_member(key@) == Some(json_views(v@)),
                None => self@.items_member(key@) is None,
            },
    {
        match self.get(key) {
            Some(v) => v.as_array(),
            None => None,
        }
    }
}

/// A member is found by its name wherever it stands among others with other names, and nothing is
/// found by a name that no member has.
pub proof fn law_a_member_is_found_by_its_name(
    before: Seq<(Seq<char>, JsonView)>,
    key: Seq<char>,
    value: JsonView,
    after: Seq<(Seq<char>, JsonView)>,
)
    requires
        forall|i: int| 0 <= i < before.len() ==> (#[trigger] before[i]).0 != key,
    ensures
        JsonView::Object(before.push((key, value)) + after).member(key) == Some(value),
        JsonView::Object(before).member(key) is None,
    decreases before.len(),
{
    let all = before.push((key, value)) + after;
    if before.len() == 0 {
        assert(all[0] == (key, value));
    } else {
        assert(all[0] == before[0]);
        assert(all.drop_first() =~= before.drop_first().push((key, value)) + after);
        assert forall|i: int| 0 <= i < before.drop_first().len() implies (
        #[trigger] before.drop_first()[i]).0 != key by {
            assert(before.drop_first()[i] == before[i + 1]);
        }
        law_a_member_is_found_by_its_name(before.drop_first(), key, value, after);
    }
}

/// The member at an index is found by its name where no earlier one has it.
pub proof fn lemma_member_at(ms: Seq<(Seq<char>, JsonView)>, i: int)
    requires
        0 <= i < ms.len(),
        forall|j: int| 0 <= j < i ==> (#[trigger] ms[j]).0 != ms[i].0,
    ensures
        JsonView::Object(ms).member(ms[i].0) == Some(ms[i].1),
{
    law_a_member_is_found_by_its_name(ms.take(i), ms[i].0, ms[i].1, ms.skip(i + 1));
    assert(ms.take(i).push((ms[i].0, ms[i].1)) + ms.skip(i + 1) =~= ms);
}

/// No member is found by a name that none has.
pub proof fn lemma_no_member(ms: Seq<(Seq<char>, JsonView)>, key: Seq<char>)
    requires
        forall|j: int| 0 <= j < ms.len() ==> (#[trigger] ms[j]).0 != key,
    ensures
        JsonView::Object(ms).member(key) is None,
{
    law_a_member_is_found_by_its_name(ms, key, JsonView::Null, Seq::empty());
}

/// What is looked up in a value is what it holds there: a text, a number or a list, and only that.
pub proof fn law_a_lookup_gives_what_is_there(
    v: &Json,
    key: &str,
    at: Option<&Json>,
    text: Option<&str>,
    number: Option<u64>,
)
    requires
        call_ensures(Json::get, (v, key), at),
        call_ensures(Json::str_at, (v, key), text),
        call_ensures(Json::u64_at, (v, key), number),
    ensures
        at is None ==> text is None && number is None,
        at matches Some(j) ==> match j@ {
            JsonView::Text(s) => text is Some && text->0@ == s && number is None,
            JsonView::Number(n, _) => text is None && number == n,
            _ => text is None && number is None,
        },
{
}

// ---------------------------------------------------------------------------------------------
// Building values
// ---------------------------------------------------------------------------------------------

/// A string.
pub fn text(s: &str) -> (r: Json)
    ensures
        r@ == JsonView::Text(s@),
{
    Json::Text(owned(s))
}

/// The view of a number that `u64` holds.
pub open spec fn uint_view(n: u64) -> JsonView {
    JsonView::Number(Some(n), decimal(n as nat))
}

/// A number.
pub fn uint(n: u64) -> (r: Json)
    ensures
        r@ == uint_view(n),
{
    Json::Number(Some(n), decimal_of(n))
}

/// No members; more are pushed.
pub open spec fn no_members() -> Seq<(Seq<char>, JsonView)> {
    Seq::empty()
}

/// No members yet.
pub fn members() -> (r: Vec<(String, Json)>)
    ensures
        member_views(r@) == no_members(),
{
    let r: Vec<(String, Json)> = Vec::new();
    assert(member_views(r@) =~= Seq::empty());
    r
}

/// The members with one more at the end.
pub fn with(ms: Vec<(String, Json)>, key: &str, value: Json) -> (r: Vec<(String, Json)>)
    ensures
        member_views(r@) == member_views(ms@).push((key@, value@)),
{
    let mut out = ms;
    out.push((owned(key), value));
    assert(member_views(out@) =~= member_views(ms@).push((key@, value@)));
    out
}

/// An object with the given members.
pub fn object(ms: Vec<(String, Json)>) -> (r: Json)
    ensures
        r@ == JsonView::Object(member_views(ms@)),
{
    broadcast use lemma_views;

    Json::Object(ms)
}

/// No elements; more are pushed.
pub open spec fn no_items() -> Seq<JsonView> {
    Seq::empty()
}

/// No elements yet.
pub fn no_json() -> (r: Vec<Json>)
    ensures
        json_views(r@) == no_items(),
{
    let r: Vec<Json> = Vec::new();
    assert(json_views(r@) =~= Seq::empty());
    r
}

/// The elements with one more at the end.
pub fn and(v: Vec<Json>, item: Json) -> (r: Vec<Json>)
    ensures
        json_views(r@) == json_views(v@).push(item@),
{
    let mut out = v;
    out.push(item);
    assert(json_views(out@) =~= json_views(v@).push(item@));
    out
}

/// An array with the given elements.
pub fn array(v: Vec<Json>) -> (r: Json)
    ensures
        r@ == JsonView::Array(json_views(v@)),
{
    broadcast use lemma_views;

    Json::Array(v)
}

/// The view of an array of strings.
pub open spec fn texts_view(v: Seq<Seq<char>>) -> JsonView {
    JsonView::Array(Seq::new(v.len(), |i: int| JsonView::Text(v[i])))
}

/// An array of strings.
pub fn texts(v: &[String]) -> (r: Json)
    ensures
        r@ == texts_view(crate::text::views(v@)),
{
    let mut out: Vec<Json> = Vec::new();
    for i in 0..v.len()
        invariant
            json_views(out@) == texts_view(crate::text::views(v@))->Array_0.take(i as int),
    {
        let ghost before = json_views(out@);
        let item = text(v[i].as_str());
        out.push(item);
        assert(json_views(out@) =~= before.push(item@));
        assert(texts_view(crate::text::views(v@))->Array_0.take(i + 1) =~= before.push(item@));
    }
    assert(json_views(out@) =~= texts_view(crate::text::views(v@))->Array_0);
    array(out)
}

/// Copies a JSON value.
pub fn copy(j: &Json) -> (r: Json)
    ensures
        r@ == j@,
    decreases j,
{
    broadcast use lemma_views;

    match j {
        Json::Null => Json::Null,
        Json::Bool(b) => Json::Bool(*b),
        Json::Number(n, s) => Json::Number(*n, s.clone()),
        Json::Text(s) => Json::Text(s.clone()),
        Json::Array(v) => {
            let mut out: Vec<Json> = Vec::new();
            for i in 0..v.len()
                invariant
                    *j matches Json::Array(w) && w@ == v@,
                    json_views(out@) == json_views(v@).take(i as int),
                decreases v@.len() - i,
            {
                let ghost before = json_views(out@);
                assert(decreases_to!(*j => j->Array_0));
                assert(decreases_to!(v@ => v@[i as int]));
                let item = copy(&v[i]);
                out.push(item);
                assert(json_views(out@) =~= before.push(item@));
                assert(json_views(v@).take(i + 1) =~= before.push(item@));
            }
            assert(json_views(out@) =~= json_views(v@));
            Json::Array(out)
        },
        Json::Object(v) => {
            let mut out: Vec<(String, Json)> = Vec::new();
            for i in 0..v.len()
                invariant
                    *j matches Json::Object(w) && w@ == v@,
                    member_views(out@) == member_views(v@).take(i as int),
                decreases v@.len() - i,
            {
                let ghost before = member_views(out@);
                assert(decreases_to!(*j => j->Object_0));
                assert(decreases_to!(v@ => v@[i as int]));
                assert(decreases_to!(v@[i as int] => v@[i as int].1));
                let item = copy(&v[i].1);
                let key = v[i].0.clone();
                out.push((key, item));
                assert(member_views(out@) =~= before.push((key@, item@)));
                assert(member_views(v@).take(i + 1) =~= before.push((key@, item@)));
            }
            assert(member_views(out@) =~= member_views(v@));
            Json::Object(out)
        },
    }
}

/// Copies JSON values into an array.
pub fn copy_all(v: &[Json]) -> (r: Json)
    ensures
        r@ == JsonView::Array(json_views(v@)),
{
    let mut out: Vec<Json> = Vec::new();
    for i in 0..v.len()
        invariant
            json_views(out@) == json_views(v@).take(i as int),
    {
        let ghost before = json_views(out@);
        let item = copy(&v[i]);
        out.push(item);
        assert(json_views(out@) =~= before.push(item@));
        assert(json_views(v@).take(i + 1) =~= before.push(item@));
    }
    assert(json_views(out@) =~= json_views(v@));
    array(out)
}

// ---------------------------------------------------------------------------------------------
// JSON text
// ---------------------------------------------------------------------------------------------

/// `serde_json`'s own JSON value.
#[verifier::external_type_specification]
#[verifier::external_body]
pub struct ExValue(serde_json::Value);

/// What a `serde_json` value holds.
pub uninterp spec fn held(v: serde_json::Value) -> JsonView;

/// What JSON text reads as, or the complaint about it.
pub uninterp spec fn read(text: Seq<char>) -> Result<JsonView, Seq<char>>;

/// How a JSON value is written without white space.
pub uninterp spec fn compact(v: JsonView) -> Seq<char>;

/// The outermost layer of a JSON value.
pub enum Layer {
    Null,
    Bool(bool),
    Number(Option<u64>, String),
    Text(String),
    Array(Vec<serde_json::Value>),
    Object(Vec<(String, serde_json::Value)>),
}

/// What the elements of an array hold.
pub open spec fn held_all(v: Seq<serde_json::Value>) -> Seq<JsonView> {
    Seq::new(v.len(), |i: int| held(v[i]))
}

/// What the members of an object hold.
pub open spec fn held_members(v: Seq<(String, serde_json::Value)>) -> Seq<(Seq<char>, JsonView)> {
    Seq::new(v.len(), |i: int| (v[i].0@, held(v[i].1)))
}

/// What a layer and the values inside it hold.
pub open spec fn layer_view(l: Layer) -> JsonView {
    match l {
        Layer::Null => JsonView::Null,
        Layer::Bool(b) => JsonView::Bool(b),
        Layer::Number(n, s) => JsonView::Number(n, s@),
        Layer::Text(s) => JsonView::Text(s@),
        Layer::Array(v) => JsonView::Array(held_all(v@)),
        Layer::Object(v) => JsonView::Object(held_members(v@)),
    }
}

/// Calls `serde_json::from_str`: what it reads, or how its error reads, depends on the text alone.
#[verifier::external_body]
fn from_str(s: &str) -> (r: Result<serde_json::Value, String>)
    ensures
        match r {
            Ok(v) => read(s@) == Ok::<JsonView, Seq<char>>(held(v)),
            Err(e) => read(s@) == Err::<JsonView, Seq<char>>(e@),
        },
{
    serde_json::from_str::<serde_json::Value>(s).map_err(|e| e.to_string())
}

/// Tells the variants of `serde_json::Value` apart. The layer holds what the value holds: a
/// number comes with what `Number::as_u64` and `Number::to_string` say of it, and the members of
/// an object come in the order in which the map is walked.
#[verifier::external_body]
fn open(v: &serde_json::Value) -> (r: Layer)
    ensures
        layer_view(r) == held(*v),
{
    match v {
        serde_json::Value::Null => Layer::Null,
        serde_json::Value::Bool(b) => Layer::Bool(*b),
        serde_json::Value::Number(n) => Layer::Number(n.as_u64(), n.to_string()),
        serde_json::Value::String(s) => Layer::Text(s.clone()),
        serde_json::Value::Array(v) => Layer::Array(v.clone()),
        serde_json::Value::Object(m) => Layer::Object(m.clone().into_iter().collect()),
    }
}

/// Calls `serde_json::Value::to_string`, which writes what the value holds without white space.
#[verifier::external_body]
fn to_string(v: &serde_json::Value) -> (r: String)
    ensures
        r@ == compact(held(*v)),
{
    v.to_string()
}

/// Takes a `serde_json` value apart.
pub fn from_value(v: &serde_json::Value) -> (r: Json)
    ensures
        r@ == held(*v),
    decreases held(*v),
{
    broadcast use lemma_views;

    match open(v) {
        Layer::Null => Json::Null,
        Layer::Bool(b) => Json::Bool(b),
        Layer::Number(n, s) => Json::Number(n, s),
        Layer::Text(s) => Json::Text(s),
        Layer::Array(items) => {
            let mut out: Vec<Json> = Vec::new();
            for i in 0..items.len()
                invariant
                    held(*v) == JsonView::Array(held_all(items@)),
                    json_views(out@) == held_all(items@).take(i as int),
                decreases items@.len() - i,
            {
                let ghost before = json_views(out@);
                assert(held_all(items@)[i as int] == held(items@[i as int]));
                assert(decreases_to!(held(*v) => held(*v)->Array_0));
                assert(decreases_to!(held_all(items@) => held_all(items@)[i as int]));
                let item = from_value(&items[i]);
                out.push(item);
                assert(json_views(out@) =~= before.push(item@));
                assert(held_all(items@).take(i + 1) =~= before.push(item@));
            }
            assert(json_views(out@) =~= held_all(items@));
            Json::Array(out)
        },
        Layer::Object(ms) => {
            let mut out: Vec<(String, Json)> = Vec::new();
            for i in 0..ms.len()
                invariant
                    held(*v) == JsonView::Object(held_members(ms@)),
                    member_views(out@) == held_members(ms@).take(i as int),
                decreases ms@.len() - i,
            {
                let ghost before = member_views(out@);
                assert(held_members(ms@)[i as int].1 == held(ms@[i as int].1));
                assert(decreases_to!(held(*v) => held(*v)->Object_0));
                assert(decreases_to!(held_members(ms@) => held_members(ms@)[i as int]));
                assert(decreases_to!(held_members(ms@)[i as int] => held_members(ms@)[i as int].1));
                let item = from_value(&ms[i].1);
                let key = ms[i].0.clone();
                out.push((key, item));
                assert(member_views(out@) =~= before.push((key@, item@)));
                assert(held_members(ms@).take(i + 1) =~= before.push((key@, item@)));
            }
            assert(member_views(out@) =~= held_members(ms@));
            Json::Object(out)
        },
    }
}

/// Reads JSON text. The error is how the complaint about the text reads.
pub fn parse(s: &str) -> (r: Result<Json, String>)
    ensures
        match r {
            Ok(j) => read(s@) == Ok::<JsonView, Seq<char>>(j@),
            Err(e) => read(s@) == Err::<JsonView, Seq<char>>(e@),
        },
{
    match from_str(s) {
        Ok(v) => Ok(from_value(&v)),
        Err(e) => Err(e),
    }
}

/// How a value is shown in a line of text: a string as it is, anything else as JSON.
pub open spec fn shown(v: JsonView) -> Seq<char> {
    match v {
        JsonView::Text(s) => s,
        _ => compact(v),
    }
}

/// The members of an object with their values as they are shown, where the value is an object.
pub open spec fn shown_members(v: JsonView) -> Option<Seq<(Seq<char>, Seq<char>)>> {
    match v {
        JsonView::Object(ms) => Some(Seq::new(ms.len(), |i: int| (ms[i].0, shown(ms[i].1)))),
        _ => None,
    }
}

/// The character sequences of pairs of strings.
pub open spec fn pair_views(v: Seq<(String, String)>) -> Seq<(Seq<char>, Seq<char>)> {
    Seq::new(v.len(), |i: int| (v[i].0@, v[i].1@))
}

/// The members of an object with their values as they are shown.
pub fn shown_entries(v: &serde_json::Value) -> (r: Option<Vec<(String, String)>>)
    ensures
        match r {
            Some(es) => shown_members(held(*v)) == Some(pair_views(es@)),
            None => shown_members(held(*v)) is None,
        },
{
    match open(v) {
        Layer::Object(ms) => {
            let ghost all = shown_members(held(*v))->0;
            let mut out: Vec<(String, String)> = Vec::new();
            for i in 0..ms.len()
                invariant
                    held(*v) == JsonView::Object(held_members(ms@)),
                    shown_members(held(*v)) == Some(all),
                    pair_views(out@) == all.take(i as int),
            {
                let ghost before = pair_views(out@);
                let key = ms[i].0.clone();
                let value = match open(&ms[i].1) {
                    Layer::Text(s) => s,
                    _ => to_string(&ms[i].1),
                };
                assert(held_members(ms@)[i as int] == (key@, held(ms@[i as int].1)));
                out.push((key, value));
                assert(pair_views(out@) =~= before.push((key@, value@)));
                assert(all.take(i + 1) =~= before.push((key@, value@)));
            }
            assert(pair_views(out@) =~= all);
            Some(out)
        },
        _ => None,
    }
}

} // verus!
