//! How tools are described to a model.
use crate::json;
use crate::json::{Json, JsonNumber, JsonView, NumberView};
use crate::payload;
use crate::text;
use vstd::prelude::*;
use vstd::string::*;

verus! {

/// What an argument of a tool can be.
#[derive(Clone, Copy, Debug)]
pub enum Property {
    /// A text.
    Text,
    /// A text that means what is said.
    DescribedText(&'static str),
    /// An integer, not below the first number and not above the second.
    Integer { minimum: u64, maximum: Option<u64> },
    /// Objects, at least one.
    Objects,
}

/// A tool.
#[derive(Debug)]
pub struct ToolSpec {
    pub name: &'static str,
    pub description: &'static str,
    pub properties: Vec<(&'static str, Property)>,
    pub required: Vec<&'static str>,
}

/// A tool.
#[verifier::ext_equal]
pub struct ToolView {
    pub name: Seq<char>,
    pub description: Seq<char>,
    pub properties: Seq<(Seq<char>, Property)>,
    pub required: Seq<Seq<char>>,
}

impl View for ToolSpec {
    type V = ToolView;

    open spec fn view(&self) -> ToolView {
        ToolView {
            name: self.name@,
            description: self.description@,
            properties: property_views(self.properties@),
            required: str_views(self.required@),
        }
    }
}

/// The arguments of a tool.
pub open spec fn property_views(v: Seq<(&'static str, Property)>) -> Seq<(Seq<char>, Property)> {
    Seq::new(v.len(), |i: int| (v[i].0@, v[i].1))
}

/// Some names.
pub open spec fn str_views(v: Seq<&'static str>) -> Seq<Seq<char>> {
    Seq::new(v.len(), |i: int| v[i]@)
}

/// An integer as a JSON value.
pub open spec fn integer(n: u64) -> JsonView {
    JsonView::Number(NumberView::Unsigned(n))
}

/// The fields that describe an argument.
pub open spec fn property_fields(p: Property) -> payload::Fields {
    match p {
        Property::Text => seq![("type"@, JsonView::Text("string"@))],
        Property::DescribedText(d) => seq![
            ("description"@, JsonView::Text(d@)),
            ("type"@, JsonView::Text("string"@)),
        ],
        Property::Integer { minimum, maximum } => (match maximum {
            Some(m) => seq![("maximum"@, integer(m)), ("minimum"@, integer(minimum))],
            None => seq![("minimum"@, integer(minimum))],
        }) + seq![("type"@, JsonView::Text("integer"@))],
        Property::Objects => seq![
            ("items"@, JsonView::Object(seq![("type"@, JsonView::Text("object"@))])),
            ("minItems"@, integer(1)),
            ("type"@, JsonView::Text("array"@)),
        ],
    }
}

/// The arguments of a tool.
pub open spec fn properties_fields(properties: Seq<(Seq<char>, Property)>) -> payload::Fields {
    Seq::new(
        properties.len(),
        |i: int| (properties[i].0, JsonView::Object(property_fields(properties[i].1))),
    )
}

/// The names of arguments.
pub open spec fn name_values(names: Seq<Seq<char>>) -> Seq<JsonView> {
    Seq::new(names.len(), |i: int| JsonView::Text(names[i]))
}

/// The fields that describe the arguments of a tool.
pub open spec fn parameter_fields(t: ToolView) -> payload::Fields {
    seq![("properties"@, JsonView::Object(properties_fields(t.properties)))] + (
    if t.required.len() == 0 {
        Seq::empty()
    } else {
        seq![("required"@, JsonView::Array(name_values(t.required)))]
    }) + seq![("type"@, JsonView::Text("object"@))]
}

/// The fields that describe the function of a tool.
pub open spec fn function_fields(t: ToolView) -> payload::Fields {
    seq![
        ("description"@, JsonView::Text(t.description)),
        ("name"@, JsonView::Text(t.name)),
        ("parameters"@, JsonView::Object(parameter_fields(t))),
    ]
}

/// The fields that describe a tool.
pub open spec fn tool_fields(t: ToolView) -> payload::Fields {
    seq![
        ("function"@, JsonView::Object(function_fields(t))),
        ("type"@, JsonView::Text("function"@)),
    ]
}

/// The description of a tool.
pub open spec fn tool_value(t: ToolView) -> JsonView {
    JsonView::Object(tool_fields(t))
}

fn property_json(p: Property) -> (r: Json)
    ensures
        r@ == JsonView::Object(property_fields(p)),
{
    let none = json::no_fields();
    let fields = match p {
        Property::Text => json::with_field(none, "type", json::text_value("string")),
        Property::DescribedText(d) => json::with_field(
            json::with_field(none, "description", json::text_value(d)),
            "type",
            json::text_value("string"),
        ),
        Property::Integer { minimum, maximum } => {
            let mut fields = none;
            if let Some(m) = maximum {
                fields = json::with_field(
                    fields,
                    "maximum",
                    Json::Number(JsonNumber::Unsigned(m)),
                );
            }
            fields = json::with_field(
                fields,
                "minimum",
                Json::Number(JsonNumber::Unsigned(minimum)),
            );
            json::with_field(fields, "type", json::text_value("integer"))
        },
        Property::Objects => {
            let item = json::with_field(json::no_fields(), "type", json::text_value("object"));
            assert(json::field_views(item@) == seq![("type"@, JsonView::Text("object"@))]);
            let fields = json::with_field(none, "items", Json::Object(item));
            let fields = json::with_field(
                fields,
                "minItems",
                Json::Number(JsonNumber::Unsigned(1)),
            );
            json::with_field(fields, "type", json::text_value("array"))
        },
    };
    assert(json::field_views(fields@) == property_fields(p));
    Json::Object(fields)
}

/// The description of a tool.
pub fn tool(t: &ToolSpec) -> (r: Json)
    ensures
        r@ == tool_value(t@),
{
    let mut properties = json::no_fields();
    let ghost all = properties_fields(t@.properties);
    let mut i: usize = 0;
    assert(all.take(0) == Seq::<(Seq<char>, JsonView)>::empty());
    while i < t.properties.len()
        invariant
            i <= t.properties@.len(),
            all == properties_fields(t@.properties),
            all.len() == t.properties@.len(),
            json::field_views(properties@) == all.take(i as int),
        decreases t.properties@.len() - i,
    {
        properties = json::with_field(
            properties,
            t.properties[i].0,
            property_json(t.properties[i].1),
        );
        assert(all.take(i + 1) == all.take(i as int).push(all[i as int]));
        i += 1;
    }
    assert(all.take(all.len() as int) == all);
    let mut required = json::no_items();
    let ghost names = name_values(t@.required);
    let mut i: usize = 0;
    assert(names.take(0) == Seq::<JsonView>::empty());
    while i < t.required.len()
        invariant
            i <= t.required@.len(),
            names == name_values(t@.required),
            names.len() == t.required@.len(),
            json::item_views(required@) == names.take(i as int),
        decreases t.required@.len() - i,
    {
        required = json::with_item(required, json::text_value(t.required[i]));
        assert(names.take(i + 1) == names.take(i as int).push(names[i as int]));
        i += 1;
    }
    assert(names.take(names.len() as int) == names);
    let mut parameters = json::with_field(
        json::no_fields(),
        "properties",
        Json::Object(properties),
    );
    if t.required.len() > 0 {
        parameters = json::with_field(parameters, "required", Json::Array(required));
    }
    parameters = json::with_field(parameters, "type", json::text_value("object"));
    assert(json::field_views(parameters@) == parameter_fields(t@));
    let function = json::with_field(
        json::no_fields(),
        "description",
        json::text_value(t.description),
    );
    let function = json::with_field(function, "name", json::text_value(t.name));
    let function = json::with_field(function, "parameters", Json::Object(parameters));
    assert(json::field_views(function@) == function_fields(t@));
    let fields = json::with_field(json::no_fields(), "function", Json::Object(function));
    let fields = json::with_field(fields, "type", json::text_value("function"));
    assert(json::field_views(fields@) == tool_fields(t@));
    Json::Object(fields)
}

/// The descriptions of tools.
pub open spec fn tool_values(tools: Seq<ToolView>) -> Seq<JsonView> {
    Seq::new(tools.len(), |i: int| tool_value(tools[i]))
}

/// Some tools.
pub open spec fn tool_views(tools: Seq<ToolSpec>) -> Seq<ToolView> {
    Seq::new(tools.len(), |i: int| tools[i]@)
}

/// The descriptions of tools.
pub fn tools_json(tools: &Vec<ToolSpec>) -> (r: Vec<Json>)
    ensures
        json::item_views(r@) == tool_values(tool_views(tools@)),
{
    let ghost all = tool_values(tool_views(tools@));
    let mut r = json::no_items();
    let mut i: usize = 0;
    assert(all.take(0) == Seq::<JsonView>::empty());
    while i < tools.len()
        invariant
            i <= tools@.len(),
            all == tool_values(tool_views(tools@)),
            all.len() == tools@.len(),
            json::item_views(r@) == all.take(i as int),
        decreases tools@.len() - i,
    {
        r = json::with_item(r, tool(&tools[i]));
        assert(all.take(i + 1) == all.take(i as int).push(all[i as int]));
        i += 1;
    }
    assert(all.take(all.len() as int) == all);
    r
}

// ---------------------------------------------------------------------------
// Answers of tools

/// What a tool answers: a result, or what went wrong.
pub open spec fn answer_fields(result: Result<JsonView, Seq<char>>) -> payload::Fields {
    match result {
        Ok(value) => seq![("ok"@, JsonView::Bool(true)), ("result"@, value)],
        Err(e) => seq![("error"@, JsonView::Text(e)), ("ok"@, JsonView::Bool(false))],
    }
}

/// What a tool answers.
pub fn answer(result: Result<Json, String>) -> (r: Json)
    ensures
        r@ == JsonView::Object(
            answer_fields(
                match result {
                    Ok(value) => Ok(value@),
                    Err(e) => Err(e@),
                },
            ),
        ),
{
    match result {
        Ok(value) => {
            let ghost v = value@;
            let fields = json::with_field(json::no_fields(), "ok", Json::Bool(true));
            let fields = json::with_field(fields, "result", value);
            assert(json::field_views(fields@) == answer_fields(Ok::<JsonView, Seq<char>>(v)));
            Json::Object(fields)
        },
        Err(e) => {
            let fields = json::with_field(json::no_fields(), "error", json::text_value(&e));
            let fields = json::with_field(fields, "ok", Json::Bool(false));
            assert(json::field_views(fields@) == answer_fields(Err::<JsonView, Seq<char>>(e@)));
            Json::Object(fields)
        },
    }
}

/// What a person is told of an argument that is missing.
pub open spec fn missing_text(name: Seq<char>) -> Seq<char> {
    "missing string argument "@ + text::quoted(name)
}

/// A text argument that has to be there.
pub open spec fn text_argument(args: JsonView, name: Seq<char>) -> Result<Seq<char>, Seq<char>> {
    match args.text_field(name) {
        Some(s) => Ok(s),
        None => Err(missing_text(name)),
    }
}

/// A text argument that has to be there.
pub fn required_string<'a>(args: &'a Json, name: &str) -> (r: Result<&'a str, String>)
    ensures
        match r {
            Ok(s) => text_argument(args@, name@) == Ok::<Seq<char>, Seq<char>>(s@),
            Err(e) => text_argument(args@, name@) == Err::<Seq<char>, Seq<char>>(e@),
        },
{
    match args.get_str(name) {
        Some(s) => Ok(s),
        None => Err(text::cat2("missing string argument ", &text::quote(name))),
    }
}

/// A text argument, or what stands for it.
pub fn string_arg_or<'a>(args: &'a Json, name: &str, default: &'a str) -> (r: &'a str)
    ensures
        r@ == (match args@.text_field(name@) {
            Some(s) => s,
            None => default@,
        }),
{
    match args.get_str(name) {
        Some(s) => s,
        None => default,
    }
}

// ---------------------------------------------------------------------------
// Laws
/// An argument is described as what it is, with its meaning and its limits.
pub proof fn arguments_are_described(text: &'static str, minimum: u64, maximum: u64)
    ensures
        JsonView::Object(property_fields(Property::Text)).text_field("type"@) == Some("string"@),
        ({
            let p = JsonView::Object(property_fields(Property::DescribedText(text)));
            &&& p.text_field("type"@) == Some("string"@)
            &&& p.text_field("description"@) == Some(text@)
        }),
        ({
            let p = JsonView::Object(
                property_fields(Property::Integer { minimum, maximum: Some(maximum) }),
            );
            &&& p.text_field("type"@) == Some("integer"@)
            &&& p.unsigned_field("minimum"@) == Some(minimum)
            &&& p.unsigned_field("maximum"@) == Some(maximum)
        }),
        ({
            let p = JsonView::Object(property_fields(Property::Integer { minimum, maximum: None }));
            &&& p.text_field("type"@) == Some("integer"@)
            &&& p.unsigned_field("minimum"@) == Some(minimum)
            &&& p.field("maximum"@) is None
        }),
        JsonView::Object(property_fields(Property::Objects)).text_field("type"@) == Some("array"@),
        JsonView::Object(property_fields(Property::Objects)).unsigned_field("minItems"@) == Some(
            1u64,
        ),
{
    reveal_with_fuel(json::field_position, 5);
    reveal_strlit("type");
    reveal_strlit("description");
    reveal_strlit("minimum");
    reveal_strlit("maximum");
    reveal_strlit("items");
    reveal_strlit("minItems");
    assert("type"@.len() == 4 && "description"@.len() == 11 && "items"@.len() == 5
        && "minItems"@.len() == 8 && "minimum"@.len() == 7 && "maximum"@.len() == 7);
    assert("minimum"@[1] == 'i' && "maximum"@[1] == 'a');
    let with_both = property_fields(Property::Integer { minimum, maximum: Some(maximum) });
    assert(with_both == seq![
        ("maximum"@, integer(maximum)),
        ("minimum"@, integer(minimum)),
        ("type"@, JsonView::Text("integer"@)),
    ]);
    let with_one = property_fields(Property::Integer { minimum, maximum: None });
    assert(with_one == seq![
        ("minimum"@, integer(minimum)),
        ("type"@, JsonView::Text("integer"@)),
    ]);
}

/// A tool is described as a function of its name, with its meaning, its arguments and those of them
/// that have to be there.
pub proof fn tools_are_described(t: ToolView, i: int)
    requires
        0 <= i < t.properties.len(),
    ensures
        tool_value(t).text_field("type"@) == Some("function"@),
        ({
            let function = tool_value(t).field("function"@);
            &&& function is Some
            &&& function->0.text_field("name"@) == Some(t.name)
            &&& function->0.text_field("description"@) == Some(t.description)
            &&& function->0.field("parameters"@) is Some
            &&& {
                let parameters = function->0.field("parameters"@)->0;
                &&& parameters.text_field("type"@) == Some("object"@)
                &&& (parameters.field("properties"@) matches Some(JsonView::Object(p)) && p.len()
                    == t.properties.len() && p[i].0 == t.properties[i].0 && p[i].1
                    == JsonView::Object(property_fields(t.properties[i].1)))
                &&& t.required.len() == 0 ==> parameters.field("required"@) is None
                &&& t.required.len() > 0 ==> (parameters.field("required"@) matches Some(
                    JsonView::Array(names),
                ) && names.len() == t.required.len() && forall|k: int|
                    0 <= k < names.len() ==> (#[trigger] names[k]).text() == Some(t.required[k]))
            }
        }),
{
    reveal_with_fuel(json::field_position, 5);
    reveal_strlit("type");
    reveal_strlit("function");
    reveal_strlit("name");
    reveal_strlit("description");
    reveal_strlit("parameters");
    reveal_strlit("properties");
    reveal_strlit("required");
    assert("type"@.len() == 4 && "function"@.len() == 8 && "name"@.len() == 4
        && "description"@.len() == 11 && "parameters"@.len() == 10 && "properties"@.len() == 10
        && "required"@.len() == 8);
    assert("type"@[0] == 't' && "name"@[0] == 'n' && "required"@[0] == 'r');
    if t.required.len() == 0 {
        assert(parameter_fields(t) == seq![
            ("properties"@, JsonView::Object(properties_fields(t.properties))),
            ("type"@, JsonView::Text("object"@)),
        ]);
    } else {
        assert(parameter_fields(t) == seq![
            ("properties"@, JsonView::Object(properties_fields(t.properties))),
            ("required"@, JsonView::Array(name_values(t.required))),
            ("type"@, JsonView::Text("object"@)),
        ]);
    }
}

/// Tools are described one by one, in their order.
pub proof fn each_tool_is_described(tools: Seq<ToolView>, t: ToolView)
    ensures
        tool_values(tools.push(t)) == tool_values(tools).push(tool_value(t)),
        tool_values(Seq::empty()).len() == 0,
{
}

/// An answer says whether all went well, and gives the result or what went wrong, never both.
pub proof fn an_answer_says_how_it_went(value: JsonView, error: Seq<char>)
    ensures
        ({
            let good = JsonView::Object(answer_fields(Ok(value)));
            &&& good.field("ok"@) == Some(JsonView::Bool(true))
            &&& good.field("result"@) == Some(value)
            &&& good.field("error"@) is None
        }),
        ({
            let bad = JsonView::Object(answer_fields(Err(error)));
            &&& bad.field("ok"@) == Some(JsonView::Bool(false))
            &&& bad.text_field("error"@) == Some(error)
            &&& bad.field("result"@) is None
        }),
{
    reveal_with_fuel(json::field_position, 4);
    reveal_strlit("ok");
    reveal_strlit("result");
    reveal_strlit("error");
    assert("ok"@.len() == 2 && "result"@.len() == 6 && "error"@.len() == 5);
}

/// A text argument is what is given under its name; where no text is, its name is told.
pub proof fn an_argument_is_what_is_given(args: JsonView, name: Seq<char>, s: Seq<char>)
    ensures
        args.field(name) == Some(JsonView::Text(s)) <==> text_argument(args, name) == Ok::<
            Seq<char>,
            Seq<char>,
        >(s),
        text_argument(args, name) matches Err(m) ==> text::finishes_with(m, text::quoted(name)),
{
    let m = missing_text(name);
    assert(m.skip(m.len() - text::quoted(name).len()) == text::quoted(name));
}

} // verus!
