//! The values that the agent client protocol carries.

use crate::proto::copy_text;
use crate::value::Json;
use crate::value::JsonView;
use crate::value::json_view;
use vstd::prelude::*;

verus! {

/// One selectable value of a configuration option.
#[derive(Debug, PartialEq, Eq)]
pub struct ConfigOptionValue {
    pub value: String,
    pub name: String,
    pub description: Option<String>,
}

/// What a [`ConfigOptionValue`] says.
#[verifier::ext_equal]
pub struct ChoiceView {
    pub value: Seq<char>,
    pub name: Seq<char>,
    pub description: Option<Seq<char>>,
}

impl View for ConfigOptionValue {
    type V = ChoiceView;

    open spec fn view(&self) -> ChoiceView {
        ChoiceView {
            value: self.value@,
            name: self.name@,
            description: self.description.deep_view(),
        }
    }
}

impl DeepView for ConfigOptionValue {
    type V = ChoiceView;

    open spec fn deep_view(&self) -> ChoiceView {
        self@
    }
}

impl Clone for ConfigOptionValue {
    fn clone(&self) -> (r: Self)
        ensures
            r@ == self@,
    {
        ConfigOptionValue {
            value: self.value.clone(),
            name: self.name.clone(),
            description: copy_text(&self.description),
        }
    }
}

/// One configuration option of a session.
#[derive(Debug, PartialEq, Eq)]
pub struct ConfigOption {
    pub id: String,
    pub name: String,
    pub description: Option<String>,
    pub category: Option<String>,
    pub option_type: String,
    pub current_value: String,
    pub options: Vec<ConfigOptionValue>,
}

/// What a [`ConfigOption`] says.
#[verifier::ext_equal]
pub struct OptionView {
    pub id: Seq<char>,
    pub name: Seq<char>,
    pub description: Option<Seq<char>>,
    pub category: Option<Seq<char>>,
    pub option_type: Seq<char>,
    pub current_value: Seq<char>,
    pub options: Seq<ChoiceView>,
}

impl View for ConfigOption {
    type V = OptionView;

    open spec fn view(&self) -> OptionView {
        OptionView {
            id: self.id@,
            name: self.name@,
            description: self.description.deep_view(),
            category: self.category.deep_view(),
            option_type: self.option_type@,
            current_value: self.current_value@,
            options: self.options.deep_view(),
        }
    }
}

impl DeepView for ConfigOption {
    type V = OptionView;

    open spec fn deep_view(&self) -> OptionView {
        self@
    }
}

/// A copy of a list of choices.
pub fn copy_choices(choices: &Vec<ConfigOptionValue>) -> (r: Vec<ConfigOptionValue>)
    ensures
        r.deep_view() == choices.deep_view(),
{
    let mut out: Vec<ConfigOptionValue> = Vec::new();
    let mut i: usize = 0;
    while i < choices.len()
        invariant
            i <= choices@.len(),
            out.deep_view() =~= choices.deep_view().take(i as int),
        decreases choices@.len() - i,
    {
        let ghost sofar = out.deep_view();
        out.push(choices[i].clone());
        assert(out.deep_view() =~= sofar.push(choices@[i as int]@));
        i += 1;
    }
    assert(choices.deep_view().take(i as int) =~= choices.deep_view());
    out
}

impl Clone for ConfigOption {
    fn clone(&self) -> (r: Self)
        ensures
            r@ == self@,
    {
        ConfigOption {
            id: self.id.clone(),
            name: self.name.clone(),
            description: copy_text(&self.description),
            category: copy_text(&self.category),
            option_type: self.option_type.clone(),
            current_value: self.current_value.clone(),
            options: copy_choices(&self.options),
        }
    }
}

/// A copy of a list of options.
pub fn copy_options(options: &Vec<ConfigOption>) -> (r: Vec<ConfigOption>)
    ensures
        r.deep_view() == options.deep_view(),
{
    let mut out: Vec<ConfigOption> = Vec::new();
    let mut i: usize = 0;
    while i < options.len()
        invariant
            i <= options@.len(),
            out.deep_view() =~= options.deep_view().take(i as int),
        decreases options@.len() - i,
    {
        let ghost sofar = out.deep_view();
        out.push(options[i].clone());
        assert(out.deep_view() =~= sofar.push(options@[i as int]@));
        i += 1;
    }
    assert(options.deep_view().take(i as int) =~= options.deep_view());
    out
}

/// A member that is text, or no text at all.
pub open spec fn member_text(v: JsonView, key: Seq<char>) -> Seq<char> {
    match v.text_of(key) {
        Some(t) => t,
        None => ""@,
    }
}

/// The items of a member that is an array.
pub open spec fn member_items(v: JsonView, key: Seq<char>) -> Seq<JsonView> {
    match v.get(key) {
        Some(JsonView::Array(items)) => items,
        _ => seq![],
    }
}

/// The choice that a JSON value describes.
pub open spec fn choice_named(v: JsonView) -> ChoiceView {
    ChoiceView {
        value: member_text(v, "value"@),
        name: member_text(v, "name"@),
        description: v.text_of("description"@),
    }
}

/// The option that a JSON value describes.
pub open spec fn option_named(v: JsonView) -> OptionView {
    OptionView {
        id: member_text(v, "id"@),
        name: member_text(v, "name"@),
        description: v.text_of("description"@),
        category: v.text_of("category"@),
        option_type: member_text(v, "type"@),
        current_value: member_text(v, "currentValue"@),
        options: member_items(v, "options"@).map_values(|c: JsonView| choice_named(c)),
    }
}

/// The options that a result names, where there is a result.
pub open spec fn options_named(result: Option<JsonView>) -> Option<Seq<OptionView>> {
    match result {
        Some(v) => Some(
            member_items(v, "configOptions"@).map_values(|o: JsonView| option_named(o)),
        ),
        None => None,
    }
}

fn text_or_none(v: &Json, key: &str) -> (r: Option<String>)
    ensures
        r.deep_view() == v@.text_of(key@),
{
    match v.get_str(key) {
        Some(t) => Some(t.to_owned()),
        None => None,
    }
}

fn text_or_empty(v: &Json, key: &str) -> (r: String)
    ensures
        r@ == member_text(v@, key@),
{
    match v.get_str(key) {
        Some(t) => t.to_owned(),
        None => "".to_owned(),
    }
}

/// The items of a member, if it is an array.
fn array_in<'a>(v: &'a Json, key: &str) -> (r: Option<&'a Vec<Json>>)
    ensures
        match r {
            Some(items) => items.deep_view() == member_items(v@, key@),
            None => member_items(v@, key@) == Seq::<JsonView>::empty(),
        },
{
    match v.get(key) {
        Some(m) => m.as_array(),
        None => None,
    }
}

fn choices_of(v: &Json) -> (r: Vec<ConfigOptionValue>)
    ensures
        r.deep_view() == option_named(v@).options,
{
    let mut out: Vec<ConfigOptionValue> = Vec::new();
    let ghost all = option_named(v@).options;
    match array_in(v, "options") {
        Some(items) => {
            let mut i: usize = 0;
            while i < items.len()
                invariant
                    i <= items@.len(),
                    all == items.deep_view().map_values(|c: JsonView| choice_named(c)),
                    out.deep_view() =~= all.take(i as int),
                decreases items@.len() - i,
            {
                let ghost sofar = out.deep_view();
                let c = &items[i];
                let choice = ConfigOptionValue {
                    value: text_or_empty(c, "value"),
                    name: text_or_empty(c, "name"),
                    description: text_or_none(c, "description"),
                };
                let ghost shown = choice@;
                out.push(choice);
                assert(out.deep_view() =~= sofar.push(shown));
                assert(all[i as int] == shown);
                i += 1;
            }
            assert(all.take(i as int) =~= all);
        },
        None => {
            assert(out.deep_view() =~= all);
        },
    }
    out
}

/// The options that a result names, where there is a result. A result that
/// names none has none, and what is no text counts as empty.
pub fn config_options_of(result: Option<&Json>) -> (r: Option<Vec<ConfigOption>>)
    ensures
        r.deep_view() == options_named(json_view(result)),
{
    let v = match result {
        Some(v) => v,
        None => {
            return None;
        },
    };
    let mut out: Vec<ConfigOption> = Vec::new();
    let ghost all = member_items(v@, "configOptions"@).map_values(|o: JsonView| option_named(o));
    match array_in(v, "configOptions") {
        Some(items) => {
            let mut i: usize = 0;
            while i < items.len()
                invariant
                    i <= items@.len(),
                    all == items.deep_view().map_values(|o: JsonView| option_named(o)),
                    out.deep_view() =~= all.take(i as int),
                decreases items@.len() - i,
            {
                let ghost sofar = out.deep_view();
                let o = &items[i];
                let option = ConfigOption {
                    id: text_or_empty(o, "id"),
                    name: text_or_empty(o, "name"),
                    description: text_or_none(o, "description"),
                    category: text_or_none(o, "category"),
                    option_type: text_or_empty(o, "type"),
                    current_value: text_or_empty(o, "currentValue"),
                    options: choices_of(o),
                };
                let ghost shown = option@;
                out.push(option);
                assert(out.deep_view() =~= sofar.push(shown));
                assert(all[i as int] == shown);
                i += 1;
            }
            assert(all.take(i as int) =~= all);
        },
        None => {
            assert(out.deep_view() =~= all);
        },
    }
    Some(out)
}

/// The end of one turn.
#[derive(Debug, PartialEq, Eq, Default)]
pub struct TurnResult {
    /// Why the agent stopped.
    pub stop_reason: Option<String>,
}

/// A JSON-RPC error of an agent.
#[derive(Debug, PartialEq, Eq)]
pub struct JsonRpcError {
    pub code: i64,
    pub message: String,
    pub data: Option<Json>,
}

/// One message of an agent.
#[derive(Debug, PartialEq, Eq)]
pub struct JsonRpcMessage {
    pub id: Option<u64>,
    pub method: Option<String>,
    pub result: Option<Json>,
    pub error: Option<JsonRpcError>,
    pub params: Option<Json>,
}

/// A result that lists options names as many, in the same order, and each with
/// the texts and the choices that it lists.
pub proof fn law_options_are_read_in_order(v: JsonView, items: Seq<JsonView>, i: int)
    requires
        v.get("configOptions"@) == Some(JsonView::Array(items)),
        0 <= i < items.len(),
    ensures
        options_named(Some(v)) matches Some(options) && options.len() == items.len() && {
            let o = options[i];
            &&& items[i].text_of("id"@) matches Some(t) ==> o.id == t
            &&& items[i].text_of("name"@) matches Some(t) ==> o.name == t
            &&& items[i].text_of("type"@) matches Some(t) ==> o.option_type == t
            &&& items[i].text_of("currentValue"@) matches Some(t) ==> o.current_value == t
            &&& o.category == items[i].text_of("category"@)
            &&& o.description == items[i].text_of("description"@)
            &&& items[i].get("options"@) matches Some(JsonView::Array(choices)) ==> {
                &&& o.options.len() == choices.len()
                &&& forall|j: int|
                    #![trigger o.options[j]]
                    0 <= j < choices.len() ==> {
                        &&& choices[j].text_of("value"@) matches Some(t) ==> o.options[j].value == t
                        &&& choices[j].text_of("name"@) matches Some(t) ==> o.options[j].name == t
                        &&& o.options[j].description == choices[j].text_of("description"@)
                    }
            }
        },
{
}

/// A result that lists nothing names no option, and one that is not there names
/// nothing at all.
pub proof fn law_nothing_listed_is_no_option(v: JsonView)
    requires
        !(v.get("configOptions"@) matches Some(JsonView::Array(_))),
    ensures
        options_named(Some(v)) matches Some(options) && options.len() == 0,
        options_named(None) is None,
{
}

} // verus!
