//! JSON values and the reading of them.
use crate::text;
use vstd::prelude::*;
use vstd::string::*;

verus! {

/// A JSON number: an integer, or the text of any other number.
#[derive(Debug)]
pub enum JsonNumber {
    Unsigned(u64),
    Negative(i64),
    Other(String),
}

/// A JSON value. The fields of an object stand in the order of their names.
#[derive(Debug)]
pub enum Json {
    Null,
    Bool(bool),
    Number(JsonNumber),
    Text(String),
    Array(Vec<Json>),
    Object(Vec<(String, Json)>),
}

/// What a JSON number is.
pub enum NumberView {
    Unsigned(u64),
    Negative(i64),
    Other(Seq<char>),
}

/// What a JSON value is.
pub enum JsonView {
    Null,
    Bool(bool),
    Number(NumberView),
    Text(Seq<char>),
    Array(Seq<JsonView>),
    Object(Seq<(Seq<char>, JsonView)>),
}

impl View for JsonNumber {
    type V = NumberView;

    open spec fn view(&self) -> NumberView {
        match *self {
            JsonNumber::Unsigned(n) => NumberView::Unsigned(n),
            JsonNumber::Negative(n) => NumberView::Negative(n),
            JsonNumber::Other(s) => NumberView::Other(s@),
        }
    }
}

/// What a JSON value is.
pub open spec fn json_view(j: Json) -> JsonView
    decreases j,
{
    match j {
        Json::Null => JsonView::Null,
        Json::Bool(b) => JsonView::Bool(b),
        Json::Number(n) => JsonView::Number(n@),
        Json::Text(s) => JsonView::Text(s@),
        Json::Array(items) => JsonView::Array(item_views(items@)),
        Json::Object(fields) => JsonView::Object(field_views(fields@)),
    }
}

/// What the items of an array are.
pub open spec fn item_views(items: Seq<Json>) -> Seq<JsonView>
    decreases items,
{
    if items.len() == 0 {
        Seq::empty()
    } else {
        item_views(items.drop_last()).push(json_view(items.last()))
    }
}

/// What the fields of an object are.
pub open spec fn field_views(fields: Seq<(String, Json)>) -> Seq<(Seq<char>, JsonView)>
    decreases fields,
{
    if fields.len() == 0 {
        Seq::empty()
    } else {
        field_views(fields.drop_last()).push((fields.last().0@, json_view(fields.last().1)))
    }
}

impl View for Json {
    type V = JsonView;

    open spec fn view(&self) -> JsonView {
        json_view(*self)
    }
}

/// The items of an array are its items' views, one for one.
pub proof fn lemma_item_views(items: Seq<Json>)
    ensures
        item_views(items).len() == items.len(),
        forall|i: int|
            0 <= i < items.len() ==> #[trigger] item_views(items)[i] == json_view(items[i]),
    decreases items.len(),
{
    if items.len() > 0 {
        lemma_item_views(items.drop_last());
    }
}

/// The fields of an object are its fields' views, one for one.
pub proof fn lemma_field_views(fields: Seq<(String, Json)>)
    ensures
        field_views(fields).len() == fields.len(),
        forall|i: int|
            0 <= i < fields.len() ==> (#[trigger] field_views(fields)[i]) == (
                fields[i].0@,
                json_view(fields[i].1),
            ),
    decreases fields.len(),
{
    if fields.len() > 0 {
        lemma_field_views(fields.drop_last());
    }
}

// ---------------------------------------------------------------------------
// Reading

/// A parsed value of `serde_json`.
#[verifier::external_type_specification]
#[verifier::external_body]
pub struct ExValue(serde_json::Value);

/// What a `serde_json::Value` holds.
pub uninterp spec fn value_view(value: serde_json::Value) -> JsonView;

/// What `serde_json` reads from a text: a value, or the message of its error.
pub uninterp spec fn read_json(text: Seq<char>) -> Result<JsonView, Seq<char>>;

/// The top of a `serde_json::Value`, taken apart.
pub(crate) enum ValueParts {
    Null,
    Bool(bool),
    Number(JsonNumber),
    Text(String),
    Array(Vec<serde_json::Value>),
    Object(Vec<(String, serde_json::Value)>),
}

pub(crate) closed spec fn parts_view(parts: ValueParts) -> JsonView {
    match parts {
        ValueParts::Null => JsonView::Null,
        ValueParts::Bool(b) => JsonView::Bool(b),
        ValueParts::Number(n) => JsonView::Number(n@),
        ValueParts::Text(s) => JsonView::Text(s@),
        ValueParts::Array(items) => JsonView::Array(
            Seq::new(items@.len(), |i: int| value_view(items@[i])),
        ),
        ValueParts::Object(fields) => JsonView::Object(
            Seq::new(fields@.len(), |i: int| (fields@[i].0@, value_view(fields@[i].1))),
        ),
    }
}

/// `serde_json::from_str` into a `serde_json::Value`: the same text always gives the same value or
/// the same error message.
#[verifier::external_body]
fn parse_value(text: &str) -> (r: Result<serde_json::Value, String>)
    ensures
        match r {
            Ok(value) => read_json(text@) == Ok::<JsonView, Seq<char>>(value_view(value)),
            Err(message) => read_json(text@) == Err::<JsonView, Seq<char>>(message@),
        },
{
    serde_json::from_str::<serde_json::Value>(text).map_err(|error| error.to_string())
}

/// The variants of `serde_json::Value`, with what each holds: items and fields in the order in
/// which the value keeps them, a number by `Number::as_u64`, `Number::as_i64` or its text.
#[verifier::external_body]
fn value_parts(value: serde_json::Value) -> (parts: ValueParts)
    ensures
        parts_view(parts) == value_view(value),
{
    match value {
        serde_json::Value::Null => ValueParts::Null,
        serde_json::Value::Bool(b) => ValueParts::Bool(b),
        serde_json::Value::Number(n) => ValueParts::Number(match (n.as_u64(), n.as_i64()) {
            (Some(u), _) => JsonNumber::Unsigned(u),
            (None, Some(i)) => JsonNumber::Negative(i),
            (None, None) => JsonNumber::Other(n.to_string()),
        }),
        serde_json::Value::String(s) => ValueParts::Text(s),
        serde_json::Value::Array(items) => ValueParts::Array(items),
        serde_json::Value::Object(fields) => ValueParts::Object(fields.into_iter().collect()),
    }
}

/// The value that a `serde_json::Value` holds.
fn json_of_value(value: serde_json::Value) -> (json: Json)
    ensures
        json@ == value_view(value),
    decreases value_view(value),
{
    let ghost whole = value_view(value);
    match value_parts(value) {
        ValueParts::Null => Json::Null,
        ValueParts::Bool(b) => Json::Bool(b),
        ValueParts::Number(n) => Json::Number(n),
        ValueParts::Text(s) => Json::Text(s),
        ValueParts::Array(items) => {
            let ghost all = whole->Array_0;
            let mut items = items;
            let mut reversed: Vec<Json> = Vec::new();
            while items.len() > 0
                invariant
                    items@.len() + reversed@.len() == all.len(),
                    whole == JsonView::Array(all),
                    whole == value_view(value),
                    forall|i: int|
                        0 <= i < items@.len() ==> value_view(#[trigger] items@[i]) == all[i],
                    forall|i: int|
                        0 <= i < reversed@.len() ==> json_view(#[trigger] reversed@[i])
                            == all[all.len() - 1 - i],
                decreases items@.len(),
            {
                let item = items.pop().unwrap();
                assert(value_view(item) == all[items@.len() as int]);
                assert(decreases_to!(whole => whole->Array_0));
                assert(decreases_to!(all => all[items@.len() as int]));
                reversed.push(json_of_value(item));
            }
            let mut r: Vec<Json> = Vec::new();
            while reversed.len() > 0
                invariant
                    r@.len() + reversed@.len() == all.len(),
                    forall|i: int|
                        0 <= i < reversed@.len() ==> json_view(#[trigger] reversed@[i])
                            == all[all.len() - 1 - i],
                    forall|i: int| 0 <= i < r@.len() ==> json_view(#[trigger] r@[i]) == all[i],
                decreases reversed@.len(),
            {
                let item = reversed.pop().unwrap();
                r.push(item);
            }
            proof {
                lemma_item_views(r@);
                assert(item_views(r@) == all);
            }
            Json::Array(r)
        },
        ValueParts::Object(fields) => {
            let ghost all = whole->Object_0;
            let mut fields = fields;
            let mut reversed: Vec<(String, Json)> = Vec::new();
            while fields.len() > 0
                invariant
                    fields@.len() + reversed@.len() == all.len(),
                    whole == JsonView::Object(all),
                    whole == value_view(value),
                    forall|i: int|
                        0 <= i < fields@.len() ==> ((#[trigger] fields@[i]).0@, value_view(
                            fields@[i].1,
                        )) == all[i],
                    forall|i: int|
                        0 <= i < reversed@.len() ==> ((#[trigger] reversed@[i]).0@, json_view(
                            reversed@[i].1,
                        )) == all[all.len() - 1 - i],
                decreases fields@.len(),
            {
                let (name, field) = fields.pop().unwrap();
                assert((name@, value_view(field)) == all[fields@.len() as int]);
                assert(decreases_to!(whole => whole->Object_0));
                assert(decreases_to!(all => all[fields@.len() as int]));
                assert(decreases_to!(all[fields@.len() as int] => all[fields@.len() as int].1));
                reversed.push((name, json_of_value(field)));
            }
            let mut r: Vec<(String, Json)> = Vec::new();
            while reversed.len() > 0
                invariant
                    r@.len() + reversed@.len() == all.len(),
                    forall|i: int|
                        0 <= i < reversed@.len() ==> ((#[trigger] reversed@[i]).0@, json_view(
                            reversed@[i].1,
                        )) == all[all.len() - 1 - i],
                    forall|i: int|
                        0 <= i < r@.len() ==> ((#[trigger] r@[i]).0@, json_view(r@[i].1)) == all[i],
                decreases reversed@.len(),
            {
                let field = reversed.pop().unwrap();
                r.push(field);
            }
            proof {
                lemma_field_views(r@);
                assert(field_views(r@) == all);
            }
            Json::Object(r)
        },
    }
}

/// Reads a JSON text: the value, or the message of the error.
pub fn parse_json(text: &str) -> (r: Result<Json, String>)
    ensures
        match r {
            Ok(json) => read_json(text@) == Ok::<JsonView, Seq<char>>(json@),
            Err(message) => read_json(text@) == Err::<JsonView, Seq<char>>(message@),
        },
{
    match parse_value(text) {
        Ok(value) => Ok(json_of_value(value)),
        Err(message) => Err(message),
    }
}

// ---------------------------------------------------------------------------
// Writing

/// The JSON text of an object whose fields are texts.
pub uninterp spec fn object_text(fields: Seq<(Seq<char>, Seq<char>)>) -> Seq<char>;

/// The views of pairs of texts.
pub open spec fn pair_views(v: Seq<(String, String)>) -> Seq<(Seq<char>, Seq<char>)> {
    Seq::new(v.len(), |i: int| (v[i].0@, v[i].1@))
}

/// Whether no two fields have one name.
pub open spec fn names_differ(fields: Seq<(Seq<char>, Seq<char>)>) -> bool {
    forall|i: int, j: int|
        0 <= i < j < fields.len() ==> (#[trigger] fields[i]).0 != (#[trigger] fields[j]).0
}

/// `serde_json::to_string` of a map of texts: the JSON text of an object with these fields, which
/// depends on the fields alone.
#[verifier::external_body]
pub(crate) fn write_object(fields: Vec<(String, String)>) -> (s: String)
    requires
        names_differ(pair_views(fields@)),
    ensures
        s@ == object_text(pair_views(fields@)),
{
    let map: std::collections::BTreeMap<String, String> = fields.into_iter().collect();
    serde_json::to_string(&map).unwrap_or_default()
}

// ---------------------------------------------------------------------------
// Looking into a value

/// The position of the first field called `name` at or after `from`; the number of fields where
/// there is none.
pub open spec fn field_position(
    fields: Seq<(Seq<char>, JsonView)>,
    name: Seq<char>,
    from: int,
) -> int
    decreases fields.len() - from,
{
    if from >= fields.len() {
        fields.len() as int
    } else if fields[from].0 == name {
        from
    } else {
        field_position(fields, name, from + 1)
    }
}

impl JsonView {
    /// The field called `name`, where this is an object that has one.
    pub open spec fn field(self, name: Seq<char>) -> Option<JsonView> {
        match self {
            JsonView::Object(fields) => {
                let i = field_position(fields, name, 0);
                if i < fields.len() {
                    Some(fields[i].1)
                } else {
                    None
                }
            },
            _ => None,
        }
    }

    /// The text, where this is one.
    pub open spec fn text(self) -> Option<Seq<char>> {
        match self {
            JsonView::Text(s) => Some(s),
            _ => None,
        }
    }

    /// The field called `name`, where it is a text.
    pub open spec fn text_field(self, name: Seq<char>) -> Option<Seq<char>> {
        match self.field(name) {
            Some(j) => j.text(),
            None => None,
        }
    }

    /// The number, where this is an integer of 64 bits without a sign.
    pub open spec fn unsigned(self) -> Option<u64> {
        match self {
            JsonView::Number(NumberView::Unsigned(n)) => Some(n),
            _ => None,
        }
    }

    /// The field called `name`, where it is an integer of 64 bits without a sign.
    pub open spec fn unsigned_field(self, name: Seq<char>) -> Option<u64> {
        match self.field(name) {
            Some(j) => j.unsigned(),
            None => None,
        }
    }

    /// The first item of an array, or the field of an object that is called so.
    pub open spec fn first(self) -> Option<JsonView> {
        match self {
            JsonView::Array(items) => if items.len() > 0 {
                Some(items[0])
            } else {
                None
            },
            _ => self.field("0"@),
        }
    }

    /// The field called `inner` of the field called `outer`.
    pub open spec fn field_of_field(self, outer: Seq<char>, inner: Seq<char>) -> Option<JsonView> {
        match self.field(outer) {
            Some(j) => j.field(inner),
            None => None,
        }
    }

    /// The items, where this is an array.
    pub open spec fn items(self) -> Option<Seq<JsonView>> {
        match self {
            JsonView::Array(items) => Some(items),
            _ => None,
        }
    }
}

impl Json {
    /// The field called `name`, where this is an object that has one.
    pub fn get(&self, name: &str) -> (r: Option<&Json>)
        ensures
            r is Some == self@.field(name@) is Some,
            r matches Some(j) ==> self@.field(name@) == Some(j@),
    {
        match self {
            Json::Object(fields) => {
                let ghost views = field_views(fields@);
                proof {
                    lemma_field_views(fields@);
                }
                let mut i: usize = 0;
                while i < fields.len()
                    invariant
                        i <= fields@.len(),
                        views == field_views(fields@),
                        views.len() == fields@.len(),
                        self@ == JsonView::Object(views),
                        forall|j: int|
                            0 <= j < fields@.len() ==> (#[trigger] views[j]) == (
                                fields@[j].0@,
                                json_view(fields@[j].1),
                            ),
                        field_position(views, name@, 0) == field_position(views, name@, i as int),
                    decreases fields@.len() - i,
                {
                    assert(views[i as int].0 == fields@[i as int].0@);
                    if text::same(&fields[i].0, name) {
                        return Some(&fields[i].1);
                    }
                    i += 1;
                }
                None
            },
            _ => None,
        }
    }

    /// The text, where this is one.
    pub fn as_str(&self) -> (r: Option<&str>)
        ensures
            r is Some == self@.text() is Some,
            r matches Some(s) ==> self@.text() == Some(s@),
    {
        match self {
            Json::Text(s) => Some(s.as_str()),
            _ => None,
        }
    }

    /// The number, where this is an integer of 64 bits without a sign.
    pub fn as_u64(&self) -> (r: Option<u64>)
        ensures
            r == self@.unsigned(),
    {
        match self {
            Json::Number(JsonNumber::Unsigned(n)) => Some(*n),
            _ => None,
        }
    }

    /// The items, where this is an array.
    pub fn as_array(&self) -> (r: Option<&Vec<Json>>)
        ensures
            r is Some == self@.items() is Some,
            r matches Some(items) ==> self@.items() == Some(item_views(items@)),
    {
        match self {
            Json::Array(items) => Some(items),
            _ => None,
        }
    }

    /// The field called `name`, where it is a text.
    pub fn get_str(&self, name: &str) -> (r: Option<&str>)
        ensures
            r is Some == self@.text_field(name@) is Some,
            r matches Some(s) ==> self@.text_field(name@) == Some(s@),
    {
        match self.get(name) {
            Some(j) => j.as_str(),
            None => None,
        }
    }

    /// The field called `name`, where it is an integer of 64 bits without a sign.
    pub fn get_u64(&self, name: &str) -> (r: Option<u64>)
        ensures
            r == self@.unsigned_field(name@),
    {
        match self.get(name) {
            Some(j) => j.as_u64(),
            None => None,
        }
    }
}

impl Json {
    /// The first item of an array, or the field of an object that is called so.
    pub fn first(&self) -> (r: Option<&Json>)
        ensures
            r is Some == self@.first() is Some,
            r matches Some(j) ==> self@.first() == Some(j@),
    {
        match self {
            Json::Array(items) => {
                proof {
                    lemma_item_views(items@);
                }
                if items.len() > 0 {
                    Some(&items[0])
                } else {
                    None
                }
            },
            _ => self.get("0"),
        }
    }

    /// The field called `inner` of the field called `outer`.
    pub fn get_in(&self, outer: &str, inner: &str) -> (r: Option<&Json>)
        ensures
            r is Some == self@.field_of_field(outer@, inner@) is Some,
            r matches Some(j) ==> self@.field_of_field(outer@, inner@) == Some(j@),
    {
        match self.get(outer) {
            Some(j) => j.get(inner),
            None => None,
        }
    }

    /// A copy of the value.
    pub fn copy(&self) -> (r: Json)
        ensures
            r@ == self@,
        decreases self,
    {
        match self {
            Json::Null => Json::Null,
            Json::Bool(b) => Json::Bool(*b),
            Json::Number(n) => Json::Number(
                match n {
                    JsonNumber::Unsigned(n) => JsonNumber::Unsigned(*n),
                    JsonNumber::Negative(n) => JsonNumber::Negative(*n),
                    JsonNumber::Other(s) => JsonNumber::Other(s.clone()),
                },
            ),
            Json::Text(s) => Json::Text(s.clone()),
            Json::Array(items) => {
                let mut r: Vec<Json> = Vec::new();
                let mut i: usize = 0;
                while i < items.len()
                    invariant
                        i <= items@.len(),
                        *self == Json::Array(*items),
                        r@.len() == i,
                        forall|j: int| 0 <= j < i ==> json_view(#[trigger] r@[j]) == json_view(
                            items@[j],
                        ),
                    decreases items@.len() - i,
                {
                    proof {
                        let whole = *self;
                        let list = *items;
                        let all = items@;
                        assert(decreases_to!(whole => whole->Array_0));
                        assert(decreases_to!(list => list@));
                        assert(decreases_to!(all => all[i as int]));
                    }
                    r.push(items[i].copy());
                    i += 1;
                }
                proof {
                    lemma_item_views(r@);
                    lemma_item_views(items@);
                    assert(item_views(r@) == item_views(items@));
                }
                Json::Array(r)
            },
            Json::Object(fields) => {
                let mut r: Vec<(String, Json)> = Vec::new();
                let mut i: usize = 0;
                while i < fields.len()
                    invariant
                        i <= fields@.len(),
                        *self == Json::Object(*fields),
                        r@.len() == i,
                        forall|j: int|
                            0 <= j < i ==> (#[trigger] r@[j]).0@ == fields@[j].0@ && json_view(
                                r@[j].1,
                            ) == json_view(fields@[j].1),
                    decreases fields@.len() - i,
                {
                    proof {
                        let whole = *self;
                        let list = *fields;
                        let all = fields@;
                        let one = all[i as int];
                        assert(decreases_to!(whole => whole->Object_0));
                        assert(decreases_to!(list => list@));
                        assert(decreases_to!(all => all[i as int]));
                        assert(decreases_to!(one => one.1));
                    }
                    r.push((fields[i].0.clone(), fields[i].1.copy()));
                    i += 1;
                }
                proof {
                    lemma_field_views(r@);
                    lemma_field_views(fields@);
                    assert(field_views(r@) == field_views(fields@));
                }
                Json::Object(r)
            },
        }
    }
}

/// Items with one more behind them.
pub fn with_item(items: Vec<Json>, item: Json) -> (r: Vec<Json>)
    ensures
        item_views(r@) == item_views(items@).push(item@),
{
    let mut r = items;
    let ghost before = r@;
    r.push(item);
    assert(r@.drop_last() == before);
    r
}

/// Fields with one more behind them.
pub fn with_field(fields: Vec<(String, Json)>, name: &str, value: Json) -> (r: Vec<(String, Json)>)
    ensures
        field_views(r@) == field_views(fields@).push((name@, value@)),
{
    let mut r = fields;
    let ghost before = r@;
    r.push((name.to_owned(), value));
    assert(r@.drop_last() == before);
    r
}

/// No items.
pub fn no_items() -> (r: Vec<Json>)
    ensures
        item_views(r@) == Seq::<JsonView>::empty(),
{
    Vec::new()
}

/// No fields.
pub fn no_fields() -> (r: Vec<(String, Json)>)
    ensures
        field_views(r@) == Seq::<(Seq<char>, JsonView)>::empty(),
{
    Vec::new()
}

/// A text as a JSON value.
pub fn text_value(s: &str) -> (r: Json)
    ensures
        r@ == JsonView::Text(s@),
{
    Json::Text(s.to_owned())
}

/// How many fields at the front have names that come before `name`, from the `i`-th on.
pub open spec fn field_rank(fields: Seq<(Seq<char>, JsonView)>, name: Seq<char>, i: int) -> int
    decreases fields.len() - i,
{
    if i >= fields.len() || !text::text_less(fields[i].0, name) {
        i
    } else {
        field_rank(fields, name, i + 1)
    }
}

/// Fields in which `name` has a value: in place of the one that it had, or else in its place by the
/// order of names.
pub open spec fn set_in(
    fields: Seq<(Seq<char>, JsonView)>,
    name: Seq<char>,
    value: JsonView,
) -> Seq<(Seq<char>, JsonView)> {
    let at = field_position(fields, name, 0);
    if at < fields.len() {
        fields.update(at, (name, value))
    } else {
        fields.insert(field_rank(fields, name, 0), (name, value))
    }
}

/// Gives a field a value.
pub fn set_field(fields: Vec<(String, Json)>, name: &str, value: Json) -> (r: Vec<(String, Json)>)
    ensures
        field_views(r@) == set_in(field_views(fields@), name@, value@),
{
    let ghost views = field_views(fields@);
    let ghost v = value@;
    let mut r = fields;
    proof {
        lemma_field_views(fields@);
    }
    let mut i: usize = 0;
    while i < r.len() && !text::same(&r[i].0, name)
        invariant
            i <= r@.len(),
            r@ == fields@,
            views == field_views(fields@),
            views.len() == fields@.len(),
            forall|j: int|
                0 <= j < fields@.len() ==> (#[trigger] views[j]) == (
                    fields@[j].0@,
                    json_view(fields@[j].1),
                ),
            field_position(views, name@, 0) == field_position(views, name@, i as int),
        decreases r@.len() - i,
    {
        assert(views[i as int].0 == fields@[i as int].0@);
        i += 1;
    }
    if i < r.len() {
        assert(views[i as int].0 == fields@[i as int].0@);
        r.set(i, (name.to_owned(), value));
        proof {
            lemma_field_views(r@);
            assert(field_views(r@) == views.update(i as int, (name@, v)));
        }
        return r;
    }
    let mut i: usize = 0;
    while i < r.len() && text::less(&r[i].0, name)
        invariant
            i <= r@.len(),
            r@ == fields@,
            views == field_views(fields@),
            views.len() == fields@.len(),
            forall|j: int|
                0 <= j < fields@.len() ==> (#[trigger] views[j]) == (
                    fields@[j].0@,
                    json_view(fields@[j].1),
                ),
            field_rank(views, name@, 0) == field_rank(views, name@, i as int),
        decreases r@.len() - i,
    {
        assert(views[i as int].0 == fields@[i as int].0@);
        i += 1;
    }
    assert(i < r@.len() ==> views[i as int].0 == fields@[i as int].0@);
    r.insert(i, (name.to_owned(), value));
    proof {
        lemma_field_views(r@);
        assert(field_views(r@) == views.insert(i as int, (name@, v)));
    }
    r
}

proof fn lemma_position(fields: Seq<(Seq<char>, JsonView)>, name: Seq<char>, i: int)
    requires
        0 <= i <= fields.len(),
    ensures
        i <= field_position(fields, name, i) <= fields.len(),
        field_position(fields, name, i) < fields.len() ==> fields[field_position(
            fields,
            name,
            i,
        )].0 == name,
        forall|j: int| i <= j < field_position(fields, name, i) ==> (#[trigger] fields[j]).0 != name,
    decreases fields.len() - i,
{
    if i < fields.len() && fields[i].0 != name {
        lemma_position(fields, name, i + 1);
    }
}

proof fn lemma_position_is(fields: Seq<(Seq<char>, JsonView)>, name: Seq<char>, i: int, k: int)
    requires
        0 <= i <= k <= fields.len(),
        forall|j: int| i <= j < k ==> (#[trigger] fields[j]).0 != name,
        k < fields.len() ==> fields[k].0 == name,
    ensures
        field_position(fields, name, i) == k,
    decreases k - i,
{
    if i < k {
        lemma_position_is(fields, name, i + 1, k);
    }
}

proof fn lemma_rank_in(fields: Seq<(Seq<char>, JsonView)>, name: Seq<char>, i: int)
    requires
        0 <= i <= fields.len(),
    ensures
        i <= field_rank(fields, name, i) <= fields.len(),
    decreases fields.len() - i,
{
    if i < fields.len() && text::text_less(fields[i].0, name) {
        lemma_rank_in(fields, name, i + 1);
    }
}

/// A field that was given a value has it, and every other field has the value that it had.
pub proof fn a_set_field_reads_back(
    fields: Seq<(Seq<char>, JsonView)>,
    name: Seq<char>,
    value: JsonView,
    other: Seq<char>,
)
    ensures
        JsonView::Object(set_in(fields, name, value)).field(name) == Some(value),
        other != name ==> JsonView::Object(set_in(fields, name, value)).field(other)
            == JsonView::Object(fields).field(other),
{
    let after = set_in(fields, name, value);
    let at = field_position(fields, name, 0);
    let rank = field_rank(fields, name, 0);
    lemma_position(fields, name, 0);
    lemma_rank_in(fields, name, 0);
    if at < fields.len() {
        lemma_position_is(after, name, 0, at);
    } else {
        assert(forall|j: int| 0 <= j < rank ==> (#[trigger] after[j]) == fields[j]);
        lemma_position_is(after, name, 0, rank);
    }
    if other != name {
        let k = field_position(fields, other, 0);
        lemma_position(fields, other, 0);
        if at < fields.len() {
            lemma_position_is(after, other, 0, k);
        } else {
            let moved = if k < rank {
                k
            } else {
                k + 1
            };
            assert forall|j: int| 0 <= j < moved implies (#[trigger] after[j]).0 != other by {
                if j < rank {
                    assert(after[j] == fields[j]);
                } else if j > rank {
                    assert(after[j] == fields[j - 1]);
                }
            }
            lemma_position_is(after, other, 0, moved);
        }
    }
}

proof fn lemma_field_position(fields: Seq<(Seq<char>, JsonView)>, name: Seq<char>, from: int)
    requires
        0 <= from <= fields.len(),
    ensures
        from <= field_position(fields, name, from) <= fields.len(),
        field_position(fields, name, from) < fields.len() ==> fields[field_position(
            fields,
            name,
            from,
        )].0 == name,
        forall|i: int|
            from <= i < field_position(fields, name, from) ==> (#[trigger] fields[i]).0 != name,
    decreases fields.len() - from,
{
    if from < fields.len() && fields[from].0 != name {
        lemma_field_position(fields, name, from + 1);
    }
}

/// A field of an object is the first one with its name, and there is none where no field has it.
pub proof fn the_field_named_is_found(fields: Seq<(Seq<char>, JsonView)>, name: Seq<char>, i: int)
    requires
        0 <= i < fields.len(),
        fields[i].0 == name,
        forall|j: int| 0 <= j < i ==> (#[trigger] fields[j]).0 != name,
    ensures
        JsonView::Object(fields).field(name) == Some(fields[i].1),
{
    lemma_field_position(fields, name, 0);
    let p = field_position(fields, name, 0);
    if p < i {
        assert(fields[p].0 != name);
    }
    if p > i {
        assert(fields[i].0 != name);
    }
}

/// What is no object has no fields, and an object has none but its own.
pub proof fn only_objects_have_fields(value: JsonView, name: Seq<char>)
    ensures
        !(value is Object) ==> value.field(name) is None,
        value matches JsonView::Object(fields) ==> (value.field(name) is Some <==> exists|i: int|
            0 <= i < fields.len() && (#[trigger] fields[i]).0 == name),
{
    if let JsonView::Object(fields) = value {
        lemma_field_position(fields, name, 0);
        let p = field_position(fields, name, 0);
        if exists|i: int| 0 <= i < fields.len() && (#[trigger] fields[i]).0 == name {
            let i = choose|i: int| 0 <= i < fields.len() && (#[trigger] fields[i]).0 == name;
            if p > i {
                assert(fields[i].0 != name);
            }
        }
    }
}

/// A field is read as what it holds, and as nothing else.
pub proof fn a_field_is_read_as_what_it_holds(value: JsonView, name: Seq<char>)
    ensures
        forall|s: Seq<char>|
            value.text_field(name) == Some(s) <==> value.field(name) == Some(JsonView::Text(s)),
        forall|n: u64|
            value.unsigned_field(name) == Some(n) <==> value.field(name) == Some(
                JsonView::Number(NumberView::Unsigned(n)),
            ),
{
}

} // verus!
