//! JSON values.

use crate::text::same;
use vstd::prelude::*;

verus! {

/// A JSON number: an integer of either sign, or the text of any other number.
#[derive(Debug, PartialEq, Eq)]
pub enum JsonNumber {
    Unsigned(u64),
    Negative(i64),
    Other(String),
}

/// A JSON value. The members of an object keep their order, and objects whose
/// members stand in another order are not `==`.
#[derive(Debug, PartialEq, Eq)]
pub enum Json {
    Null,
    Bool(bool),
    Number(JsonNumber),
    Text(String),
    Array(Vec<Json>),
    Object(Vec<(String, Json)>),
}

/// What a [`JsonNumber`] is.
pub enum NumberView {
    Unsigned(u64),
    Negative(i64),
    Other(Seq<char>),
}

/// What a [`Json`] is.
pub enum JsonView {
    Null,
    Bool(bool),
    Number(NumberView),
    Text(Seq<char>),
    Array(Seq<JsonView>),
    Object(Seq<(Seq<char>, JsonView)>),
}

impl View for JsonNumber {
    type V = NumberView;

    open spec fn view(&self) -> NumberView {
        match self {
            JsonNumber::Unsigned(n) => NumberView::Unsigned(*n),
            JsonNumber::Negative(n) => NumberView::Negative(*n),
            JsonNumber::Other(s) => NumberView::Other(s@),
        }
    }
}

/// What a JSON value is.
pub open spec fn seen(j: Json) -> JsonView
    decreases j,
{
    match j {
        Json::Null => JsonView::Null,
        Json::Bool(b) => JsonView::Bool(b),
        Json::Number(n) => JsonView::Number(n@),
        Json::Text(s) => JsonView::Text(s@),
        Json::Array(items) => JsonView::Array(
            Seq::new(
                items@.len(),
                |i: int|
                    if 0 <= i < items@.len() {
                        seen(items@[i])
                    } else {
                        JsonView::Null
                    },
            ),
        ),
        Json::Object(members) => JsonView::Object(
            Seq::new(
                members@.len(),
                |i: int|
                    if 0 <= i < members@.len() {
                        (members@[i].0@, seen(members@[i].1))
                    } else {
                        (seq![], JsonView::Null)
                    },
            ),
        ),
    }
}

impl View for Json {
    type V = JsonView;

    open spec fn view(&self) -> JsonView {
        seen(*self)
    }
}

/// The members of an object through their views.
pub open spec fn members_view(members: Seq<(String, Json)>) -> Seq<(Seq<char>, JsonView)> {
    members.map_values(|m: (String, Json)| (m.0@, m.1@))
}

proof fn lemma_array(items: Vec<Json>)
    ensures
        seen(Json::Array(items)) == JsonView::Array(items.deep_view()),
{
    assert(seen(Json::Array(items))->Array_0 =~= items.deep_view());
}

proof fn lemma_object(members: Vec<(String, Json)>)
    ensures
        seen(Json::Object(members)) == JsonView::Object(members_view(members@)),
{
    assert(seen(Json::Object(members))->Object_0 =~= members_view(members@));
}

impl DeepView for Json {
    type V = JsonView;

    open spec fn deep_view(&self) -> JsonView {
        self@
    }
}

/// The first member of that name.
pub open spec fn find_member(members: Seq<(Seq<char>, JsonView)>, key: Seq<char>) -> Option<JsonView>
    decreases members.len(),
{
    if members.len() == 0 {
        None
    } else if members[0].0 == key {
        Some(members[0].1)
    } else {
        find_member(members.drop_first(), key)
    }
}

impl JsonView {
    /// The member of that name, when this is an object that has one.
    pub open spec fn get(self, key: Seq<char>) -> Option<JsonView> {
        match self {
            JsonView::Object(members) => find_member(members, key),
            _ => None,
        }
    }

    /// The text, when this is a string.
    pub open spec fn as_text(self) -> Option<Seq<char>> {
        match self {
            JsonView::Text(s) => Some(s),
            _ => None,
        }
    }

    /// The text of the member of that name.
    pub open spec fn text_of(self, key: Seq<char>) -> Option<Seq<char>> {
        match self.get(key) {
            Some(v) => v.as_text(),
            None => None,
        }
    }

    /// The object without members.
    pub open spec fn empty_object() -> JsonView {
        JsonView::Object(seq![])
    }

    /// This object with one member more.
    pub open spec fn with(self, key: Seq<char>, value: JsonView) -> JsonView {
        match self {
            JsonView::Object(members) => JsonView::Object(members.push((key, value))),
            _ => self,
        }
    }
}

/// The member of that name of an optional value.
pub open spec fn get_of(v: Option<JsonView>, key: Seq<char>) -> Option<JsonView> {
    match v {
        Some(j) => j.get(key),
        None => None,
    }
}

/// The text of the member of that name of an optional value.
pub open spec fn text_in(v: Option<JsonView>, key: Seq<char>) -> Option<Seq<char>> {
    match v {
        Some(j) => j.text_of(key),
        None => None,
    }
}

/// An optional value through its view.
pub open spec fn json_view(v: Option<&Json>) -> Option<JsonView> {
    match v {
        Some(j) => Some(j@),
        None => None,
    }
}

/// An optional value through its view.
pub open spec fn maybe_json(v: Option<Json>) -> Option<JsonView> {
    match v {
        Some(j) => Some(j@),
        None => None,
    }
}

/// An optional string through its view.
pub open spec fn str_view(v: Option<&str>) -> Option<Seq<char>> {
    match v {
        Some(s) => Some(s@),
        None => None,
    }
}

impl Json {
    /// The member of that name, when this is an object that has one.
    pub fn get(&self, key: &str) -> (r: Option<&Json>)
        ensures
            json_view(r) == self@.get(key@),
    {
        match self {
            Json::Object(members) => {
                let ghost all = members_view(members@);
                let mut i: usize = 0;
                proof {
                    lemma_object(*members);
                }
                assert(all.skip(0) =~= all);
                while i < members.len()
                    invariant
                        i <= members@.len() == all.len(),
                        self@ == JsonView::Object(all),
                        all == members_view(members@),
                        find_member(all, key@) == find_member(all.skip(i as int), key@),
                    decreases members@.len() - i,
                {
                    assert(all[i as int] == (members@[i as int].0@, members@[i as int].1@));
                    assert(all.skip(i as int)[0] == all[i as int]);
                    assert(all.skip(i as int).drop_first() =~= all.skip(i + 1));
                    if same(members[i].0.as_str(), key) {
                        return Some(&members[i].1);
                    }
                    i += 1;
                }
                assert(all.skip(i as int).len() == 0);
                None
            },
            _ => None,
        }
    }

    /// The text, when this is a string.
    pub fn as_str(&self) -> (r: Option<&str>)
        ensures
            str_view(r) == self@.as_text(),
    {
        match self {
            Json::Text(s) => Some(s.as_str()),
            _ => None,
        }
    }

    /// The text of the member of that name.
    pub fn get_str(&self, key: &str) -> (r: Option<&str>)
        ensures
            str_view(r) == self@.text_of(key@),
    {
        match self.get(key) {
            Some(v) => v.as_str(),
            None => None,
        }
    }

    /// The items, when this is an array.
    pub fn as_array(&self) -> (r: Option<&Vec<Json>>)
        ensures
            r is Some <==> self@ is Array,
            r matches Some(items) ==> self@ == JsonView::Array(items.deep_view()),
    {
        match self {
            Json::Array(items) => {
                proof {
                    lemma_array(*items);
                }
                Some(items)
            },
            _ => None,
        }
    }

    /// The boolean, when this is one.
    pub fn as_bool(&self) -> (r: Option<bool>)
        ensures
            r == (match self@ {
                JsonView::Bool(b) => Some(b),
                _ => None,
            }),
    {
        match self {
            Json::Bool(b) => Some(*b),
            _ => None,
        }
    }

    /// The number, when this is one that is not negative and has no fraction.
    pub fn as_u64(&self) -> (r: Option<u64>)
        ensures
            r == (match self@ {
                JsonView::Number(NumberView::Unsigned(n)) => Some(n),
                _ => None,
            }),
    {
        match self {
            Json::Number(JsonNumber::Unsigned(n)) => Some(*n),
            _ => None,
        }
    }

    /// A string value.
    pub fn text(s: &str) -> (r: Json)
        ensures
            r@ == JsonView::Text(s@),
    {
        Json::Text(s.to_owned())
    }

    /// A number.
    pub fn number(n: u64) -> (r: Json)
        ensures
            r@ == JsonView::Number(NumberView::Unsigned(n)),
    {
        Json::Number(JsonNumber::Unsigned(n))
    }

    /// An integer of either sign.
    pub fn integer(n: i64) -> (r: Json)
        ensures
            r@ == JsonView::Number(integer_view(n)),
    {
        if n >= 0 {
            Json::Number(JsonNumber::Unsigned(n as u64))
        } else {
            Json::Number(JsonNumber::Negative(n))
        }
    }

    /// The object without members.
    pub fn object() -> (r: Json)
        ensures
            r@ == JsonView::empty_object(),
    {
        let members: Vec<(String, Json)> = Vec::new();
        proof {
            lemma_object(members);
            assert(members_view(members@) =~= seq![]);
        }
        Json::Object(members)
    }

    /// An array.
    pub fn array(items: Vec<Json>) -> (r: Json)
        ensures
            r@ == JsonView::Array(items.deep_view()),
    {
        let r = Json::Array(items);
        proof {
            lemma_array(items);
        }
        r
    }

    /// This object with one member more; any other value as it is.
    pub fn with(self, key: &str, value: Json) -> (r: Json)
        ensures
            r@ == self@.with(key@, value@),
    {
        match self {
            Json::Object(members) => {
                proof {
                    lemma_object(members);
                }
                let mut members = members;
                let ghost before = members@;
                members.push((key.to_owned(), value));
                proof {
                    lemma_object(members);
                    assert(members_view(members@) =~= members_view(before).push((key@, value@)));
                }
                Json::Object(members)
            },
            other => other,
        }
    }
}

/// An integer of either sign.
pub open spec fn integer_view(n: i64) -> NumberView {
    if n >= 0 {
        NumberView::Unsigned(n as u64)
    } else {
        NumberView::Negative(n)
    }
}

impl Clone for JsonNumber {
    fn clone(&self) -> (r: Self)
        ensures
            r@ == self@,
    {
        match self {
            JsonNumber::Unsigned(n) => JsonNumber::Unsigned(*n),
            JsonNumber::Negative(n) => JsonNumber::Negative(*n),
            JsonNumber::Other(s) => JsonNumber::Other(s.clone()),
        }
    }
}

impl Clone for Json {
    fn clone(&self) -> (r: Self)
        ensures
            r@ == self@,
        decreases self,
    {
        match self {
            Json::Null => Json::Null,
            Json::Bool(b) => Json::Bool(*b),
            Json::Number(n) => Json::Number(n.clone()),
            Json::Text(s) => Json::Text(s.clone()),
            Json::Array(items) => {
                let mut out: Vec<Json> = Vec::new();
                let mut i: usize = 0;
                while i < items.len()
                    invariant
                        i <= items@.len(),
                        *self == Json::Array(*items),
                        out.deep_view() =~= items.deep_view().take(i as int),
                    decreases items@.len() - i,
                {
                    let ghost sofar = out.deep_view();
                    assert(decreases_to!(*self => self->Array_0));
                    assert(decreases_to!(self->Array_0 => items@));
                    assert(decreases_to!(items@ => items@[i as int]));
                    let item = items[i].clone();
                    out.push(item);
                    assert(out.deep_view() =~= sofar.push(items@[i as int]@));
                    i += 1;
                }
                proof {
                    assert(items.deep_view().take(i as int) =~= items.deep_view());
                    lemma_array(*items);
                    lemma_array(out);
                }
                Json::Array(out)
            },
            Json::Object(members) => {
                let mut out: Vec<(String, Json)> = Vec::new();
                let mut i: usize = 0;
                while i < members.len()
                    invariant
                        i <= members@.len(),
                        *self == Json::Object(*members),
                        members_view(out@) =~= members_view(members@).take(i as int),
                    decreases members@.len() - i,
                {
                    let ghost sofar = members_view(out@);
                    assert(decreases_to!(*self => self->Object_0));
                    assert(decreases_to!(self->Object_0 => members@));
                    assert(decreases_to!(members@ => members@[i as int]));
                    assert(decreases_to!(members@[i as int] => members@[i as int].1));
                    let item = members[i].1.clone();
                    out.push((members[i].0.clone(), item));
                    assert(members_view(out@) =~= sofar.push(
                        (members@[i as int].0@, members@[i as int].1@),
                    ));
                    i += 1;
                }
                proof {
                    assert(members_view(members@).take(i as int) =~= members_view(members@));
                    lemma_object(*members);
                    lemma_object(out);
                }
                Json::Object(out)
            },
        }
    }
}

/// A member that was added is found under its name, unless an earlier one has
/// it, and every other name is found or not found as before.
pub broadcast proof fn law_added_member_is_found(
    o: JsonView,
    name: Seq<char>,
    value: JsonView,
    key: Seq<char>,
)
    requires
        o is Object,
    ensures
        #[trigger] o.with(name, value).get(key) == (if o.get(key) is Some {
            o.get(key)
        } else if key == name {
            Some(value)
        } else {
            None
        }),
{
    lemma_find_pushed(o->Object_0, name, value, key);
}

proof fn lemma_find_pushed(
    members: Seq<(Seq<char>, JsonView)>,
    name: Seq<char>,
    value: JsonView,
    key: Seq<char>,
)
    ensures
        find_member(members.push((name, value)), key) == (if find_member(members, key) is Some {
            find_member(members, key)
        } else if key == name {
            Some(value)
        } else {
            None
        }),
    decreases members.len(),
{
    let more = members.push((name, value));
    if members.len() == 0 {
        assert(more.drop_first() =~= Seq::<(Seq<char>, JsonView)>::empty());
        assert(find_member(more.drop_first(), key) is None);
    } else {
        assert(more[0] == members[0]);
        assert(more.drop_first() =~= members.drop_first().push((name, value)));
        lemma_find_pushed(members.drop_first(), name, value, key);
    }
}

/// What is found under a name is a member of that name, and a member of that
/// name is found whenever there is one.
pub proof fn law_found_member_has_the_name(o: JsonView, key: Seq<char>)
    requires
        o is Object,
    ensures
        match o.get(key) {
            Some(v) => o->Object_0.contains((key, v)),
            None => forall|i: int|
                0 <= i < o->Object_0.len() ==> (#[trigger] o->Object_0[i]).0 != key,
        },
{
    lemma_found(o->Object_0, key);
}

proof fn lemma_found(members: Seq<(Seq<char>, JsonView)>, key: Seq<char>)
    ensures
        match find_member(members, key) {
            Some(v) => members.contains((key, v)),
            None => forall|i: int| 0 <= i < members.len() ==> (#[trigger] members[i]).0 != key,
        },
    decreases members.len(),
{
    if members.len() > 0 && members[0].0 != key {
        let rest = members.drop_first();
        lemma_found(rest, key);
        match find_member(rest, key) {
            Some(v) => {
                let i = rest.index_of((key, v));
                assert(members[i + 1] == (key, v));
            },
            None => {
                assert forall|i: int| 0 <= i < members.len() implies (#[trigger] members[i]).0
                    != key by {
                    if i > 0 {
                        assert(rest[i - 1] == members[i]);
                    }
                }
            },
        }
    } else if members.len() > 0 {
        assert(members[0] == (key, members[0].1));
    }
}

} // verus!
