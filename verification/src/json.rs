//! JSON values.
use vstd::prelude::*;
use vstd::utf8::encode_utf8;

use serde_json::{Number, Value};

use crate::table::rows;
use crate::text::{text_eq, text_less};

verus! {

/// A JSON value. A number that fits an `i64` is an `Integer`, another one that fits a `u64` is
/// `Unsigned`; any other is kept as text.
#[derive(Debug, PartialEq, Eq)]
pub enum Json {
    Null,
    Bool(bool),
    Integer(i64),
    Unsigned(u64),
    Number(String),
    Text(String),
    Array(Vec<Json>),
    Object(JsonObject),
}

/// The fields of a JSON object, in the order of their names.
#[derive(Debug, PartialEq, Eq)]
pub struct JsonObject {
    fields: Vec<(String, Json)>,
}

/// What a JSON value stands for.
pub enum JsonView {
    Null,
    Bool(bool),
    Integer(i64),
    Unsigned(u64),
    Number(Seq<char>),
    Text(Seq<char>),
    Array(Seq<JsonView>),
    Object(Map<Seq<char>, JsonView>),
}

impl View for Json {
    type V = JsonView;

    open spec fn view(&self) -> JsonView {
        json_view(*self)
    }
}

impl View for JsonObject {
    type V = Map<Seq<char>, JsonView>;

    closed spec fn view(&self) -> Map<Seq<char>, JsonView> {
        fields_view(self.fields@)
    }
}

/// The value that a JSON value stands for.
pub closed spec fn json_view(json: Json) -> JsonView
    decreases json,
{
    match json {
        Json::Null => JsonView::Null,
        Json::Bool(flag) => JsonView::Bool(flag),
        Json::Integer(number) => JsonView::Integer(number),
        Json::Unsigned(number) => JsonView::Unsigned(number),
        Json::Number(number) => JsonView::Number(number@),
        Json::Text(text) => JsonView::Text(text@),
        Json::Array(items) => JsonView::Array(array_view(items@)),
        Json::Object(object) => JsonView::Object(fields_view(object.fields@)),
    }
}

/// The values that the items of an array stand for.
pub closed spec fn array_view(items: Seq<Json>) -> Seq<JsonView>
    decreases items,
{
    Seq::new(
        items.len(),
        |i: int|
            if 0 <= i < items.len() {
                json_view(items[i])
            } else {
                JsonView::Null
            },
    )
}

closed spec fn fields_view(fields: Seq<(String, Json)>) -> Map<Seq<char>, JsonView>
    decreases fields,
{
    if fields.len() == 0 {
        Map::empty()
    } else {
        fields_view(fields.subrange(1, fields.len() as int)).insert(
            fields[0].0@,
            json_view(fields[0].1),
        )
    }
}

/// What the variants of a JSON value stand for.
pub broadcast proof fn view_cases(json: Json)
    ensures
        #![trigger json_view(json)]
        json is Null ==> json_view(json) == JsonView::Null,
        json matches Json::Bool(flag) ==> json_view(json) == JsonView::Bool(flag),
        json matches Json::Integer(number) ==> json_view(json) == JsonView::Integer(number),
        json matches Json::Unsigned(number) ==> json_view(json) == JsonView::Unsigned(number),
        json matches Json::Number(number) ==> json_view(json) == JsonView::Number(number@),
        json matches Json::Text(text) ==> json_view(json) == JsonView::Text(text@),
        json matches Json::Array(items) ==> json_view(json) == JsonView::Array(array_view(items@)),
        json matches Json::Object(object) ==> json_view(json) == JsonView::Object(object@),
{
}

/// An array stands for the values of its items, one by one.
pub broadcast proof fn array_items(items: Seq<Json>)
    ensures
        #![trigger array_view(items)]
        array_view(items).len() == items.len(),
        forall|i: int|
            0 <= i < items.len() ==> #[trigger] array_view(items)[i] == json_view(items[i]),
{
}

/// What JSON values stand for.
pub broadcast group group_json {
    view_cases,
    array_items,
}

proof fn field_at(fields: Seq<(String, Json)>, key: Seq<char>, at: int)
    requires
        0 <= at <= fields.len(),
        forall|i: int| 0 <= i < at ==> (#[trigger] fields[i]).0@ != key,
        at < fields.len() ==> fields[at].0@ == key,
    ensures
        at < fields.len() ==> fields_view(fields).contains_key(key) && fields_view(fields)[key]
            == json_view(fields[at].1),
        at == fields.len() ==> !fields_view(fields).contains_key(key),
    decreases fields.len(),
{
    if fields.len() > 0 {
        let rest = fields.subrange(1, fields.len() as int);
        if at > 0 {
            assert(fields[0].0@ != key);
            assert forall|i: int| 0 <= i < at - 1 implies (#[trigger] rest[i]).0@ != key by {
                assert(rest[i] == fields[i + 1]);
            }
            field_at(rest, key, at - 1);
        }
    }
}

proof fn field_inserted(fields: Seq<(String, Json)>, at: int, field: (String, Json))
    requires
        0 <= at <= fields.len(),
        forall|i: int| 0 <= i < at ==> (#[trigger] fields[i]).0@ != field.0@,
    ensures
        fields_view(fields.insert(at, field)) == fields_view(fields).insert(
            field.0@,
            json_view(field.1),
        ),
    decreases fields.len(),
{
    let after = fields.insert(at, field);
    let rest = fields.subrange(1, fields.len() as int);
    let rest_after = after.subrange(1, after.len() as int);
    if at == 0 {
        assert(rest_after =~= fields);
    } else {
        assert(fields[0].0@ != field.0@);
        assert forall|i: int| 0 <= i < at - 1 implies (#[trigger] rest[i]).0@ != field.0@ by {
            assert(rest[i] == fields[i + 1]);
        }
        field_inserted(rest, at - 1, field);
        assert(rest_after =~= rest.insert(at - 1, field));
        assert(fields_view(after) =~= fields_view(fields).insert(field.0@, json_view(field.1)));
    }
}

proof fn field_replaced(fields: Seq<(String, Json)>, at: int, field: (String, Json))
    requires
        0 <= at < fields.len(),
        fields[at].0@ == field.0@,
    ensures
        at == 0 || (forall|i: int| 0 <= i < at ==> (#[trigger] fields[i]).0@ != field.0@)
            ==> fields_view(fields.update(at, field)) == fields_view(fields).insert(
            field.0@,
            json_view(field.1),
        ),
    decreases fields.len(),
{
    let after = fields.update(at, field);
    let rest = fields.subrange(1, fields.len() as int);
    let rest_after = after.subrange(1, after.len() as int);
    if at == 0 {
        assert(rest_after =~= rest);
        assert(fields_view(after) =~= fields_view(fields).insert(field.0@, json_view(field.1)));
    } else if forall|i: int| 0 <= i < at ==> (#[trigger] fields[i]).0@ != field.0@ {
        assert(fields[0].0@ != field.0@);
        assert forall|i: int| 0 <= i < at - 1 implies (#[trigger] rest[i]).0@ != field.0@ by {
            assert(rest[i] == fields[i + 1]);
        }
        field_replaced(rest, at - 1, field);
        assert(rest_after =~= rest.update(at - 1, field));
        assert(fields_view(after) =~= fields_view(fields).insert(field.0@, json_view(field.1)));
    }
}

proof fn named_field(fields: Seq<(String, Json)>, at: int)
    requires
        0 <= at < fields.len(),
    ensures
        fields_view(fields).contains_key(fields[at].0@),
    decreases fields.len(),
{
    if at > 0 {
        let rest = fields.subrange(1, fields.len() as int);
        named_field(rest, at - 1);
    }
}

proof fn only_field(fields: Seq<(String, Json)>, key: Seq<char>)
    requires
        forall|i: int| 0 <= i < fields.len() ==> (#[trigger] fields[i]).0@ == key,
    ensures
        forall|other: Seq<char>| #[trigger] fields_view(fields).contains_key(other) ==> other == key,
    decreases fields.len(),
{
    if fields.len() > 0 {
        let rest = fields.subrange(1, fields.len() as int);
        assert forall|i: int| 0 <= i < rest.len() implies (#[trigger] rest[i]).0@ == key by {
            assert(rest[i] == fields[i + 1]);
        }
        only_field(rest, key);
        assert(fields[0].0@ == key);
        assert(fields_view(fields) == fields_view(rest).insert(key, json_view(fields[0].1)));
        assert forall|other: Seq<char>| #[trigger]
            fields_view(fields).contains_key(other) implies other == key by {
            assert(other == key || fields_view(rest).contains_key(other));
        }
    }
}

impl JsonObject {
    /// An object without fields.
    pub fn new() -> (object: JsonObject)
        ensures
            object@ == Map::<Seq<char>, JsonView>::empty(),
    {
        JsonObject { fields: Vec::new() }
    }

    /// The value of a field.
    pub fn get(&self, key: &str) -> (value: Option<&Json>)
        ensures
            match value {
                Some(json) => self@.contains_key(key@) && self@[key@] == json@,
                None => !self@.contains_key(key@),
            },
    {
        for i in 0..self.fields.len()
            invariant
                forall|j: int| 0 <= j < i ==> (#[trigger] self.fields@[j]).0@ != key@,
        {
            if text_eq(self.fields[i].0.as_str(), key) {
                proof {
                    field_at(self.fields@, key@, i as int);
                }
                return Some(&self.fields[i].1);
            }
        }
        proof {
            field_at(self.fields@, key@, self.fields@.len() as int);
        }
        None
    }

    /// Whether a field is the only one.
    pub fn has_only(&self, key: &str) -> (result: bool)
        ensures
            result <==> self@.dom() == Set::<Seq<char>>::empty().insert(key@),
    {
        if self.get(key).is_none() {
            return false;
        }
        for i in 0..self.fields.len()
            invariant
                self@.contains_key(key@),
                forall|j: int| 0 <= j < i ==> (#[trigger] self.fields@[j]).0@ == key@,
        {
            if !text_eq(self.fields[i].0.as_str(), key) {
                proof {
                    named_field(self.fields@, i as int);
                    assert(self@.contains_key(self.fields@[i as int].0@));
                }
                return false;
            }
        }
        proof {
            only_field(self.fields@, key@);
            assert(self@.dom() =~= Set::<Seq<char>>::empty().insert(key@));
        }
        true
    }

    /// Sets a field.
    pub fn insert(&mut self, key: &str, value: Json)
        ensures
            final(self)@ == old(self)@.insert(key@, value@),
    {
        let mut at: usize = 0;
        let ghost before = self.fields@;
        while at < self.fields.len() && text_less(self.fields[at].0.as_str(), key)
            invariant
                self.fields@ == before,
                at <= before.len(),
                forall|j: int| 0 <= j < at ==> (#[trigger] before[j]).0@ != key@,
            decreases before.len() - at,
        {
            proof {
                crate::text::text_lt_irreflexive(key@);
            }
            at = at + 1;
        }
        if at < self.fields.len() && text_eq(self.fields[at].0.as_str(), key) {
            self.fields.set(at, (key.to_owned(), value));
            proof {
                field_replaced(before, at as int, self.fields@[at as int]);
            }
        } else {
            self.fields.insert(at, (key.to_owned(), value));
            proof {
                field_inserted(before, at as int, self.fields@[at as int]);
            }
        }
    }

    /// Sets a field and hands the object on.
    pub fn with(self, key: &str, value: Json) -> (object: JsonObject)
        ensures
            object@ == self@.insert(key@, value@),
    {
        let mut object: JsonObject = self;
        object.insert(key, value);
        object
    }
}

impl Clone for JsonObject {
    fn clone(&self) -> (copy: JsonObject)
        ensures
            copy@ == self@,
        decreases self,
    {
        let mut fields: Vec<(String, Json)> = Vec::new();
        for i in 0..self.fields.len()
            invariant
                fields.len() == i,
                forall|j: int|
                    0 <= j < i ==> (#[trigger] fields@[j]).0@ == self.fields@[j].0@ && json_view(
                        fields@[j].1,
                    ) == json_view(self.fields@[j].1),
            decreases self.fields.len() - i,
        {
            assert(decreases_to!(self => self.fields@[i as int].1));
            fields.push((self.fields[i].0.clone(), self.fields[i].1.clone()));
        }
        proof {
            same_fields(fields@, self.fields@);
        }
        JsonObject { fields }
    }
}

proof fn same_fields(left: Seq<(String, Json)>, right: Seq<(String, Json)>)
    requires
        left.len() == right.len(),
        forall|i: int|
            0 <= i < left.len() ==> (#[trigger] left[i]).0@ == right[i].0@ && json_view(left[i].1)
                == json_view(right[i].1),
    ensures
        fields_view(left) == fields_view(right),
    decreases left.len(),
{
    if left.len() > 0 {
        let a = left.subrange(1, left.len() as int);
        let b = right.subrange(1, right.len() as int);
        assert forall|i: int| 0 <= i < a.len() implies (#[trigger] a[i]).0@ == b[i].0@ && json_view(
            a[i].1,
        ) == json_view(b[i].1) by {
            assert(a[i] == left[i + 1]);
            assert(b[i] == right[i + 1]);
        }
        same_fields(a, b);
        assert(left[0].0@ == right[0].0@);
    }
}

impl Clone for Json {
    fn clone(&self) -> (copy: Json)
        ensures
            copy@ == self@,
        decreases self,
    {
        match self {
            Json::Null => Json::Null,
            Json::Bool(flag) => Json::Bool(*flag),
            Json::Integer(number) => Json::Integer(*number),
            Json::Unsigned(number) => Json::Unsigned(*number),
            Json::Number(number) => Json::Number(number.clone()),
            Json::Text(text) => Json::Text(text.clone()),
            Json::Array(items) => {
                let mut copies: Vec<Json> = Vec::new();
                for i in 0..items.len()
                    invariant
                        *self == Json::Array(*items),
                        copies.len() == i,
                        forall|j: int|
                            0 <= j < i ==> json_view(#[trigger] copies@[j]) == json_view(items@[j]),
                {
                    assert(decreases_to!(self => self->Array_0@[i as int]));
                    copies.push(items[i].clone());
                }
                assert(array_view(copies@) =~= array_view(items@));
                Json::Array(copies)
            },
            Json::Object(object) => Json::Object(object.clone()),
        }
    }
}

impl JsonView {
    /// The value of a field, where this is an object that has it.
    pub open spec fn field(self, key: Seq<char>) -> Option<JsonView> {
        match self {
            JsonView::Object(fields) => if fields.contains_key(key) {
                Some(fields[key])
            } else {
                None
            },
            _ => None,
        }
    }

    /// The text, where this is one.
    pub open spec fn text(self) -> Option<Seq<char>> {
        match self {
            JsonView::Text(text) => Some(text),
            _ => None,
        }
    }

    /// The text of a field, where this is an object that has it as a text.
    pub open spec fn field_text(self, key: Seq<char>) -> Option<Seq<char>> {
        match self.field(key) {
            Some(value) => value.text(),
            None => None,
        }
    }

    /// The text of a field, where it is one and not empty.
    pub open spec fn field_word(self, key: Seq<char>) -> Option<Seq<char>> {
        match self.field_text(key) {
            Some(text) => if text.len() > 0 {
                Some(text)
            } else {
                None
            },
            None => None,
        }
    }

    /// The truth value of a field; false where the field is missing or no truth value.
    pub open spec fn field_flag(self, key: Seq<char>) -> bool {
        self.field(key) == Some(JsonView::Bool(true))
    }

    /// The items of a field, where it is an array; none otherwise.
    pub open spec fn field_items(self, key: Seq<char>) -> Seq<JsonView> {
        match self.field(key) {
            Some(JsonView::Array(items)) => items,
            _ => Seq::empty(),
        }
    }
}

/// Writes each row of a list as JSON.
pub(crate) fn json_list<T: View, F: Fn(&T) -> Json>(
    list: &Vec<T>,
    write: F,
    Ghost(written): Ghost<spec_fn(T::V) -> JsonView>,
) -> (result: Vec<Json>)
    requires
        forall|row: &T| write.requires((row,)),
        forall|row: &T, json: Json| write.ensures((row,), json) ==> json@ == written(row@),
    ensures
        array_view(result@) == rows(list@).map_values(written),
{
    broadcast use group_json;

    let mut result: Vec<Json> = Vec::new();
    for i in 0..list.len()
        invariant
            forall|row: &T| write.requires((row,)),
            forall|row: &T, json: Json| write.ensures((row,), json) ==> json@ == written(row@),
            result@.len() == i,
            forall|j: int| 0 <= j < i ==> (#[trigger] result@[j])@ == written(list@[j]@),
    {
        result.push(write(&list[i]));
    }
    assert(array_view(result@) =~= rows(list@).map_values(written));
    result
}

/// A text, or null where there is none.
pub open spec fn text_or_null(text: Option<Seq<char>>) -> JsonView {
    match text {
        Some(text) => JsonView::Text(text),
        None => JsonView::Null,
    }
}

impl Json {
    /// A text.
    pub fn text(text: &str) -> (json: Json)
        ensures
            json@ == JsonView::Text(text@),
    {
        Json::Text(text.to_owned())
    }

    /// A text, or null where there is none.
    pub fn optional(text: &Option<String>) -> (json: Json)
        ensures
            json@ == text_or_null(crate::text::optional_view(*text)),
    {
        match text {
            Some(text) => Json::Text(text.clone()),
            None => Json::Null,
        }
    }

    /// Reads a JSON text.
    pub fn parse(bytes: &[u8]) -> (json: Option<Json>)
        ensures
            match json {
                Some(value) => json_of_bytes(bytes@) == Some(value@),
                None => json_of_bytes(bytes@) is None,
            },
    {
        parse_json(bytes)
    }

    /// Writes the value as one line of JSON.
    pub fn to_line(&self) -> (text: String)
        ensures
            text@ == compact_text(self@),
            !text@.contains('\n'),
            !text@.contains('\r'),
            reads_back(self@, 100) ==> json_of_bytes(encode_utf8(text@)) == Some(self@),
    {
        write_json(self)
    }

    /// Writes the value as JSON on several lines.
    pub fn to_pretty(&self) -> (text: String)
        ensures
            text@ == pretty_text(self@),
    {
        write_pretty(self)
    }

    /// The value of a field, where this is an object that has it.
    pub fn get(&self, key: &str) -> (value: Option<&Json>)
        ensures
            match value {
                Some(json) => self@.field(key@) == Some(json@),
                None => self@.field(key@) is None,
            },
    {
        match self {
            Json::Object(object) => object.get(key),
            _ => None,
        }
    }

    /// The text, where this is one.
    pub fn as_str(&self) -> (text: Option<&String>)
        ensures
            match text {
                Some(text) => self@.text() == Some(text@),
                None => self@.text() is None,
            },
    {
        match self {
            Json::Text(text) => Some(text),
            _ => None,
        }
    }

    /// Whether this is an object.
    pub fn is_object(&self) -> (result: bool)
        ensures
            result == (self@ is Object),
    {
        match self {
            Json::Object(_) => true,
            _ => false,
        }
    }

    /// The text of a field, where this is an object that has it as a text.
    pub fn get_text(&self, key: &str) -> (text: Option<&String>)
        ensures
            match text {
                Some(text) => self@.field_text(key@) == Some(text@),
                None => self@.field_text(key@) is None,
            },
    {
        match self.get(key) {
            Some(value) => value.as_str(),
            None => None,
        }
    }

    /// The text of a field, where it is one and not empty.
    pub fn get_word(&self, key: &str) -> (text: Option<&String>)
        ensures
            match text {
                Some(text) => self@.field_word(key@) == Some(text@),
                None => self@.field_word(key@) is None,
            },
    {
        match self.get_text(key) {
            Some(text) => if text.as_str().is_empty() {
                None
            } else {
                Some(text)
            },
            None => None,
        }
    }

    /// The truth value of a field; false where the field is missing or no truth value.
    pub fn get_flag(&self, key: &str) -> (flag: bool)
        ensures
            flag == self@.field_flag(key@),
    {
        match self.get(key) {
            Some(Json::Bool(flag)) => *flag,
            _ => false,
        }
    }

    /// The items of a field, where it is an array.
    pub fn get_items(&self, key: &str) -> (items: Option<&Vec<Json>>)
        ensures
            match items {
                Some(items) => self@.field_items(key@) == array_view(items@),
                None => self@.field_items(key@).len() == 0,
            },
    {
        match self.get(key) {
            Some(Json::Array(items)) => Some(items),
            _ => None,
        }
    }
}

/// `serde_json::Value`, of which nothing is read here.
#[verifier::external_type_specification]
#[verifier::external_body]
pub struct ExValue(serde_json::Value);

/// The value that `serde_json` reads from bytes; none where they are not one JSON text.
pub uninterp spec fn json_of_bytes(bytes: Seq<u8>) -> Option<JsonView>;

/// The compact JSON text that `serde_json` writes for a value.
pub uninterp spec fn compact_text(json: JsonView) -> Seq<char>;

/// The value that a text holds; an empty array where it holds none.
pub open spec fn value_or_empty(text: Seq<char>) -> JsonView {
    match json_of_bytes(encode_utf8(text)) {
        Some(value) => value,
        None => JsonView::Array(Seq::empty()),
    }
}

/// Reads the value that a text holds.
pub fn parse_or_empty(text: &str) -> (json: Json)
    ensures
        json@ == value_or_empty(text@),
{
    match Json::parse(text.as_bytes()) {
        Some(value) => value,
        None => {
            let none: Vec<Json> = Vec::new();
            assert(array_view(none@) =~= Seq::<JsonView>::empty());
            Json::Array(none)
        },
    }
}

/// Whether a value is nested to some depth at most, and all its numbers are whole ones, those that
/// fit an `i64` as such.
pub open spec fn reads_back(json: JsonView, depth: nat) -> bool
    decreases depth,
{
    match json {
        JsonView::Unsigned(number) => number > i64::MAX,
        JsonView::Number(_) => false,
        JsonView::Array(items) => depth > 0 && forall|i: int|
            0 <= i < items.len() ==> reads_back(#[trigger] items[i], (depth - 1) as nat),
        JsonView::Object(fields) => depth > 0 && forall|key: Seq<char>| #[trigger]
            fields.contains_key(key) ==> reads_back(fields[key], (depth - 1) as nat),
        _ => true,
    }
}

/// The JSON text that `serde_json` writes for a value on several lines.
pub uninterp spec fn pretty_text(json: JsonView) -> Seq<char>;

/// Writes a value with `serde_json::to_string_pretty`, which does not fail on a value. The text is
/// a function of the value alone.
#[verifier::external_body]
fn write_pretty(value: &Json) -> (text: String)
    ensures
        text@ == pretty_text(value@),
{
    serde_json::to_string_pretty(&to_value(value)).unwrap_or_default()
}

/// Takes a `serde_json::Value` apart, variant by variant. Nothing is claimed of it alone: what
/// a parsed text becomes is the claim of `parse_json`.
#[verifier::external_body]
fn from_value(value: Value) -> Json {
    match value {
        Value::Null => Json::Null,
        Value::Bool(flag) => Json::Bool(flag),
        Value::Number(number) => match (number.as_i64(), number.as_u64()) {
            (Some(integer), _) => Json::Integer(integer),
            (None, Some(unsigned)) => Json::Unsigned(unsigned),
            (None, None) => Json::Number(number.to_string()),
        },
        Value::String(text) => Json::Text(text),
        Value::Array(items) => Json::Array(items.into_iter().map(from_value).collect()),
        Value::Object(fields) => Json::Object(JsonObject {
            fields: fields.into_iter().map(|(key, value)| (key, from_value(value))).collect(),
        }),
    }
}

/// Puts a `serde_json::Value` together, variant by variant. Nothing is claimed of it alone: what
/// it is written as is the claim of `write_json`.
#[verifier::external_body]
fn to_value(json: &Json) -> Value {
    match json {
        Json::Null => Value::Null,
        Json::Bool(flag) => Value::Bool(*flag),
        Json::Integer(number) => Value::from(*number),
        Json::Unsigned(number) => Value::from(*number),
        Json::Number(number) => number.parse().ok().and_then(Number::from_f64).map_or(
            Value::Null,
            Value::Number,
        ),
        Json::Text(text) => Value::String(text.clone()),
        Json::Array(items) => Value::Array(items.iter().map(to_value).collect()),
        Json::Object(object) => Value::Object(
            object.fields.iter().rev().map(|(key, value)| (key.clone(), to_value(value))).collect(),
        ),
    }
}

/// Reads a JSON text with `serde_json::from_slice`. The result is a function of the bytes alone.
#[verifier::external_body]
fn parse_json(bytes: &[u8]) -> (json: Option<Json>)
    ensures
        match json {
            Some(value) => json_of_bytes(bytes@) == Some(value@),
            None => json_of_bytes(bytes@) is None,
        },
{
    serde_json::from_slice::<serde_json::Value>(bytes).ok().map(from_value)
}

/// Writes a value with `to_string` of `serde_json::Value`. The text is a function of the value
/// alone; the compact form puts no white space between tokens and escapes control characters, so it
/// holds no line end; and `serde_json::from_slice` reads the value back, unless it holds a number
/// that is no whole one, or is nested more deeply than the parser goes.
#[verifier::external_body]
fn write_json(value: &Json) -> (text: String)
    ensures
        text@ == compact_text(value@),
        !text@.contains('\n'),
        !text@.contains('\r'),
        reads_back(value@, 100) ==> json_of_bytes(encode_utf8(text@)) == Some(value@),
{
    to_value(value).to_string()
}

} // verus!
