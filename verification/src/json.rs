//! JSON values.
use vstd::prelude::*;

use crate::text::text_eq;

verus! {

/// A JSON value.
#[derive(Debug)]
pub enum Json {
    Null,
    Bool(bool),

    /// A number, in decimal notation.
    Number(String),
    Text(String),
    Array(Vec<Json>),
    Object(Vec<(String, Json)>),
}

/// What a JSON value stands for.
pub enum JsonView {
    Null,
    Bool(bool),
    Number(Seq<char>),
    Text(Seq<char>),
    Array(Seq<JsonView>),
    Object(Seq<(Seq<char>, JsonView)>),
}

/// The views of the elements of an array.
pub open spec fn element_views(elements: Seq<Json>) -> Seq<JsonView>
    decreases elements,
{
    if elements.len() == 0 {
        Seq::empty()
    } else {
        element_views(elements.drop_last()).push(json_view(elements.last()))
    }
}

/// The views of the members of an object.
pub open spec fn member_views(members: Seq<(String, Json)>) -> Seq<(Seq<char>, JsonView)>
    decreases members,
{
    if members.len() == 0 {
        Seq::empty()
    } else {
        member_views(members.drop_last()).push((members.last().0@, json_view(members.last().1)))
    }
}

/// What `json` stands for.
pub open spec fn json_view(json: Json) -> JsonView
    decreases json,
{
    match json {
        Json::Null => JsonView::Null,
        Json::Bool(b) => JsonView::Bool(b),
        Json::Number(n) => JsonView::Number(n@),
        Json::Text(s) => JsonView::Text(s@),
        Json::Array(elements) => JsonView::Array(element_views(elements@)),
        Json::Object(members) => JsonView::Object(member_views(members@)),
    }
}

/// `serde_json::Value`, a parsed JSON value.
#[verifier::external_type_specification]
#[verifier::external_body]
pub struct ExValue(serde_json::Value);

/// What a parsed value stands for.
pub uninterp spec fn value_view(value: serde_json::Value) -> JsonView;

/// The JSON value that `bytes` hold; if they hold none, the message that says why.
pub uninterp spec fn parsed_json(bytes: Seq<u8>) -> Result<JsonView, Seq<char>>;

/// `serde_json::from_slice`: parses `bytes`. The JSON value that they hold, or the message of the
/// error, depends on the bytes alone.
#[verifier::external_body]
fn value_from_slice(bytes: &[u8]) -> (r: Result<serde_json::Value, String>)
    ensures
        match r {
            Ok(value) => parsed_json(bytes@) == Ok::<JsonView, Seq<char>>(value_view(value)),
            Err(message) => parsed_json(bytes@) == Err::<JsonView, Seq<char>>(message@),
        },
{
    serde_json::from_slice::<serde_json::Value>(bytes).map_err(|error| error.to_string())
}

/// Takes a `serde_json::Value` apart, variant by variant.
#[verifier::external_body]
fn json_from_value(value: serde_json::Value) -> (r: Json)
    ensures
        json_view(r) == value_view(value),
{
    match value {
        serde_json::Value::Null => Json::Null,
        serde_json::Value::Bool(b) => Json::Bool(b),
        serde_json::Value::Number(n) => Json::Number(n.to_string()),
        serde_json::Value::String(s) => Json::Text(s),
        serde_json::Value::Array(a) => Json::Array(a.into_iter().map(json_from_value).collect()),
        serde_json::Value::Object(o) => Json::Object(
            o.into_iter().map(|(k, v)| (k, json_from_value(v))).collect(),
        ),
    }
}

/// The member `key` of an object; `None` if there is none or the value is no object.
pub open spec fn member(json: JsonView, key: Seq<char>) -> Option<JsonView> {
    match json {
        JsonView::Object(members) => first_member(members, key),
        _ => None,
    }
}

/// The first of `members` whose key is `key`.
pub open spec fn first_member(members: Seq<(Seq<char>, JsonView)>, key: Seq<char>) -> Option<
    JsonView,
>
    decreases members.len(),
{
    if members.len() == 0 {
        None
    } else if members[0].0 == key {
        Some(members[0].1)
    } else {
        first_member(members.drop_first(), key)
    }
}

/// The text of the member `key`; `None` if there is no such member or it is no text.
pub open spec fn text_member(json: JsonView, key: Seq<char>) -> Option<Seq<char>> {
    match member(json, key) {
        Some(JsonView::Text(text)) => Some(text),
        _ => None,
    }
}

proof fn lemma_element_views(elements: Seq<Json>)
    ensures
        element_views(elements).len() == elements.len(),
        forall|i: int|
            0 <= i < elements.len() ==> #[trigger] element_views(elements)[i] == json_view(
                elements[i],
            ),
    decreases elements.len(),
{
    if elements.len() > 0 {
        lemma_element_views(elements.drop_last());
    }
}

proof fn lemma_member_views(members: Seq<(String, Json)>)
    ensures
        member_views(members).len() == members.len(),
        forall|i: int|
            0 <= i < members.len() ==> #[trigger] member_views(members)[i] == (
                members[i].0@,
                json_view(members[i].1),
            ),
    decreases members.len(),
{
    if members.len() > 0 {
        lemma_member_views(members.drop_last());
    }
}

impl View for Json {
    type V = JsonView;

    open spec fn view(&self) -> JsonView {
        json_view(*self)
    }
}

impl Json {
    /// Parses JSON.
    pub fn parse(bytes: &[u8]) -> (r: Result<Json, String>)
        ensures
            match r {
                Ok(json) => parsed_json(bytes@) == Ok::<JsonView, Seq<char>>(json@),
                Err(message) => parsed_json(bytes@) == Err::<JsonView, Seq<char>>(message@),
            },
    {
        match value_from_slice(bytes) {
            Ok(value) => Ok(json_from_value(value)),
            Err(message) => Err(message),
        }
    }

    /// The member `key` of an object.
    pub fn get(&self, key: &str) -> (r: Option<&Json>)
        ensures
            match r {
                Some(json) => member(self@, key@) == Some(json@),
                None => member(self@, key@) is None,
            },
    {
        match self {
            Json::Object(members) => {
                proof {
                    lemma_member_views(members@);
                }
                let ghost views = member_views(members@);
                let mut i: usize = 0;
                proof {
                    assert(views.skip(0) =~= views);
                }
                while i < members.len()
                    invariant
                        i <= members.len(),
                        views.len() == members@.len(),
                        forall|k: int|
                            0 <= k < members@.len() ==> #[trigger] views[k] == (
                                members@[k].0@,
                                json_view(members@[k].1),
                            ),
                        member(self@, key@) == first_member(views.skip(i as int), key@),
                    decreases members.len() - i,
                {
                    proof {
                        assert(views.skip(i as int)[0] == views[i as int]);
                        assert(views.skip(i as int).drop_first() =~= views.skip(i + 1));
                    }
                    if text_eq(members[i].0.as_str(), key) {
                        return Some(&members[i].1);
                    }
                    i = i + 1;
                }
                None
            },
            _ => None,
        }
    }

    /// A copy.
    pub fn copy(&self) -> (r: Json)
        ensures
            r@ == self@,
        decreases self,
    {
        match self {
            Json::Null => Json::Null,
            Json::Bool(b) => Json::Bool(*b),
            Json::Number(n) => Json::Number(n.clone()),
            Json::Text(s) => Json::Text(s.clone()),
            Json::Array(elements) => {
                let mut copies: Vec<Json> = Vec::new();
                let mut i: usize = 0;
                while i < elements.len()
                    invariant
                        i <= elements.len(),
                        *self == Json::Array(*elements),
                        copies@.len() == i,
                        forall|k: int|
                            0 <= k < i ==> json_view(#[trigger] copies@[k]) == json_view(
                                elements@[k],
                            ),
                    decreases elements.len() - i,
                {
                    proof {
                        assert(decreases_to!(*self => self->Array_0));
                        assert(decreases_to!(*elements => elements@));
                        assert(decreases_to!(elements@ => elements@[i as int]));
                    }
                    copies.push(elements[i].copy());
                    i = i + 1;
                }
                proof {
                    lemma_element_views(elements@);
                    lemma_element_views(copies@);
                    assert(element_views(copies@) =~= element_views(elements@));
                }
                Json::Array(copies)
            },
            Json::Object(members) => {
                let mut copies: Vec<(String, Json)> = Vec::new();
                let mut i: usize = 0;
                while i < members.len()
                    invariant
                        i <= members.len(),
                        *self == Json::Object(*members),
                        copies@.len() == i,
                        forall|k: int|
                            0 <= k < i ==> (#[trigger] copies@[k]).0@ == members@[k].0@ && json_view(
                                copies@[k].1,
                            ) == json_view(members@[k].1),
                    decreases members.len() - i,
                {
                    proof {
                        assert(decreases_to!(*self => self->Object_0));
                        assert(decreases_to!(*members => members@));
                        assert(decreases_to!(members@ => members@[i as int]));
                        assert(decreases_to!(members@[i as int] => members@[i as int].1));
                    }
                    copies.push((members[i].0.clone(), members[i].1.copy()));
                    i = i + 1;
                }
                proof {
                    lemma_member_views(members@);
                    lemma_member_views(copies@);
                    assert(member_views(copies@) =~= member_views(members@));
                }
                Json::Object(copies)
            },
        }
    }

    /// The text, if the value is one.
    pub fn as_str(&self) -> (r: Option<&str>)
        ensures
            match r {
                Some(text) => self@ == JsonView::Text(text@),
                None => !(self@ is Text),
            },
    {
        match self {
            Json::Text(text) => Some(text.as_str()),
            _ => None,
        }
    }

    /// The text of the member `key`, if there is such a member and it is text.
    pub fn get_str(&self, key: &str) -> (r: Option<&str>)
        ensures
            match r {
                Some(text) => text_member(self@, key@) == Some(text@),
                None => text_member(self@, key@) is None,
            },
    {
        match self.get(key) {
            Some(value) => value.as_str(),
            None => None,
        }
    }

    /// The elements, if the value is an array.
    pub fn into_array(self) -> (r: Option<Vec<Json>>)
        ensures
            match r {
                Some(elements) => self@ == JsonView::Array(
                    elements@.map_values(|e: Json| e@),
                ),
                None => !(self@ is Array),
            },
    {
        match self {
            Json::Array(elements) => {
                proof {
                    lemma_element_views(elements@);
                    assert(element_views(elements@) =~= elements@.map_values(|e: Json| e@));
                }
                Some(elements)
            },
            _ => None,
        }
    }

    /// Takes the member `key` out of an object.
    pub fn into_member(self, key: &str) -> (r: Option<Json>)
        ensures
            match r {
                Some(json) => member(self@, key@) == Some(json@),
                None => member(self@, key@) is None,
            },
    {
        match self {
            Json::Object(members) => {
                proof {
                    lemma_member_views(members@);
                }
                let ghost views = member_views(members@);
                let ghost all = members@;
                proof {
                    assert(views.skip(0) =~= views);
                }
                for entry in it: members
                    invariant
                        it.seq() == all,
                        views.len() == all.len(),
                        forall|k: int|
                            0 <= k < all.len() ==> #[trigger] views[k] == (
                                all[k].0@,
                                json_view(all[k].1),
                            ),
                        member(self@, key@) == first_member(views.skip(it.index()), key@),
                {
                    proof {
                        let i = it.index();
                        assert(views.skip(i)[0] == views[i]);
                        assert(views.skip(i).drop_first() =~= views.skip(i + 1));
                    }
                    if text_eq(entry.0.as_str(), key) {
                        return Some(entry.1);
                    }
                }
                None
            },
            _ => None,
        }
    }
}

/// The member of an object is the first one with the given key; what is no object has none.
pub proof fn law_first_member_counts(json: &Json, key: &str, r: Option<&Json>)
    requires
        call_ensures(Json::get, (json, key), r),
    ensures
        match *json {
            Json::Object(members) => match r {
                Some(value) => exists|i: int|
                    0 <= i < members@.len() && (#[trigger] members@[i]).0@ == key@ && members@[i].1@
                        == value@ && forall|j: int|
                        0 <= j < i ==> (#[trigger] members@[j]).0@ != key@,
                None => forall|j: int|
                    0 <= j < members@.len() ==> (#[trigger] members@[j]).0@ != key@,
            },
            _ => r is None,
        },
{
    if let Json::Object(members) = *json {
        lemma_member_views(members@);
        let i = lemma_first_member(member_views(members@), key@);
        match r {
            Some(value) => {
                assert(members@[i].0@ == key@ && members@[i].1@ == value@);
                assert forall|j: int| 0 <= j < i implies (#[trigger] members@[j]).0@ != key@ by {
                    assert(member_views(members@)[j].0 != key@);
                }
            },
            None => {
                assert forall|j: int| 0 <= j < members@.len() implies (#[trigger] members@[j]).0@
                    != key@ by {
                    assert(member_views(members@)[j].0 != key@);
                }
            },
        }
    }
}

proof fn lemma_first_member(members: Seq<(Seq<char>, JsonView)>, key: Seq<char>) -> (i: int)
    ensures
        0 <= i <= members.len(),
        forall|j: int| 0 <= j < i ==> (#[trigger] members[j]).0 != key,
        i < members.len() ==> members[i].0 == key && first_member(members, key) == Some(
            members[i].1,
        ),
        i == members.len() ==> first_member(members, key) is None,
    decreases members.len(),
{
    if members.len() == 0 || members[0].0 == key {
        0
    } else {
        let rest = members.drop_first();
        let i = lemma_first_member(rest, key);
        assert forall|j: int| 0 <= j < i + 1 implies (#[trigger] members[j]).0 != key by {
            if j > 0 {
                assert(rest[j - 1].0 != key);
            }
        }
        if i < rest.len() {
            assert(rest[i] == members[i + 1]);
        }
        i + 1
    }
}

/// The text of a member is there exactly if the first member with the key is a text, and is that text.
pub proof fn law_member_text_is_that_of_the_member(
    json: &Json,
    key: &str,
    member_json: Option<&Json>,
    r: Option<&str>,
)
    requires
        call_ensures(Json::get, (json, key), member_json),
        call_ensures(Json::get_str, (json, key), r),
    ensures
        match member_json {
            Some(value) => match *value {
                Json::Text(text) => r matches Some(t) && t@ == text@,
                _ => r is None,
            },
            None => r is None,
        },
{
}

/// A copy stands for the same: the same text, and copies of the same elements and members in the same
/// order.
pub proof fn law_copies_are_the_same(json: &Json, r: Json, i: int)
    requires
        call_ensures(Json::copy, (json,), r),
    ensures
        match (*json, r) {
            (Json::Null, Json::Null) => true,
            (Json::Bool(a), Json::Bool(b)) => a == b,
            (Json::Number(a), Json::Number(b)) => a@ == b@,
            (Json::Text(a), Json::Text(b)) => a@ == b@,
            (Json::Array(a), Json::Array(b)) => a@.len() == b@.len() && (0 <= i < a@.len()
                ==> a@[i]@ == b@[i]@),
            (Json::Object(a), Json::Object(b)) => a@.len() == b@.len() && (0 <= i < a@.len()
                ==> a@[i].0@ == b@[i].0@ && a@[i].1@ == b@[i].1@),
            (a, b) => false,
        },
{
    match (*json, r) {
        (Json::Array(a), Json::Array(b)) => {
            lemma_element_views(a@);
            lemma_element_views(b@);
            if 0 <= i < a@.len() {
                assert(element_views(a@)[i] == element_views(b@)[i]);
            }
        },
        (Json::Object(a), Json::Object(b)) => {
            lemma_member_views(a@);
            lemma_member_views(b@);
            if 0 <= i < a@.len() {
                assert(member_views(a@)[i] == member_views(b@)[i]);
            }
        },
        _ => {},
    }
}

} // verus!
