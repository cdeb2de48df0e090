//! JSON values.
//!
//! A value is a tree of its own here. serde_json reads texts into it and quotes
//! strings; a number is held as the text that serde_json writes for it. The
//! fields of an object stand in the order of their names, as serde_json keeps
//! them.

use vstd::prelude::*;
use vstd::string::*;

use crate::decimal::{decimal, decimal_text, parse_unsigned, unsigned_upto};
use crate::ident::{hex_digit, hyphenated, id_text, Id};
use crate::text::{is_blank, replace, replaced, same, trim, trimmed};

verus! {

/// A JSON value.
#[derive(Debug, PartialEq, Eq)]
pub enum Json {
    /// `null`.
    Null,
    /// `true` or `false`.
    Bool(bool),
    /// A number, as its text.
    Number(String),
    /// A string.
    Str(String),
    /// An array.
    Array(Vec<Json>),
    /// An object: names and values.
    Object(Vec<(String, Json)>),
}

/// What a JSON value is.
pub ghost enum JsonView {
    Null,
    Bool(bool),
    Number(Seq<char>),
    Str(Seq<char>),
    Array(Seq<JsonView>),
    Object(Seq<FieldView>),
}

/// A field of a JSON object.
pub ghost struct FieldView {
    pub name: Seq<char>,
    pub value: JsonView,
}

impl View for Json {
    type V = JsonView;

    open spec fn view(&self) -> JsonView
        decreases self,
    {
        match self {
            Json::Null => JsonView::Null,
            Json::Bool(b) => JsonView::Bool(*b),
            Json::Number(n) => JsonView::Number(n@),
            Json::Str(s) => JsonView::Str(s@),
            Json::Array(items) => JsonView::Array(
                Seq::new(
                    items@.len(),
                    |i: int|
                        if 0 <= i < items@.len() {
                            items@[i].view()
                        } else {
                            JsonView::Null
                        },
                ),
            ),
            Json::Object(fields) => JsonView::Object(
                Seq::new(
                    fields@.len(),
                    |i: int|
                        if 0 <= i < fields@.len() {
                            FieldView { name: fields@[i].0@, value: fields@[i].1.view() }
                        } else {
                            FieldView { name: Seq::empty(), value: JsonView::Null }
                        },
                ),
            ),
        }
    }
}

/// The values of an array.
pub open spec fn json_items(items: Seq<Json>) -> Seq<JsonView> {
    Seq::new(items.len(), |i: int| items[i]@)
}

/// The names and values of an object.
pub open spec fn json_fields(fields: Seq<(String, Json)>) -> Seq<FieldView> {
    Seq::new(fields.len(), |i: int| FieldView { name: fields[i].0@, value: fields[i].1@ })
}

/// What an array is, and that its items are smaller than it.
proof fn lemma_array(json: Json, items: Vec<Json>)
    requires
        json == Json::Array(items),
    ensures
        json@ == JsonView::Array(json_items(items@)),
        forall|i: int| 0 <= i < items@.len() ==> decreases_to!(json => #[trigger] items@[i]),
{
    assert(json@->Array_0 =~= json_items(items@));
    assert(decreases_to!(json => json->Array_0));
    assert forall|i: int| 0 <= i < items@.len() implies decreases_to!(json => #[trigger] items@[i]) by {
        assert(decreases_to!(items@ => items@[i]));
    }
}

/// What an object is, and that the values of its fields are smaller than it.
proof fn lemma_object(json: Json, fields: Vec<(String, Json)>)
    requires
        json == Json::Object(fields),
    ensures
        json@ == JsonView::Object(json_fields(fields@)),
        forall|i: int| 0 <= i < fields@.len() ==> decreases_to!(json => (#[trigger] fields@[i]).1),
{
    assert(json@ is Object);
    let held = json@->Object_0;
    assert(held.len() == fields@.len());
    assert forall|i: int| 0 <= i < fields@.len() implies held[i] == json_fields(fields@)[i] by {
        assert(held[i].name == fields@[i].0@);
        assert(held[i].value == fields@[i].1@);
    }
    assert(held =~= json_fields(fields@));
    assert(decreases_to!(json => json->Object_0));
    assert forall|i: int| 0 <= i < fields@.len() implies decreases_to!(
        json => (#[trigger] fields@[i]).1) by {
        assert(decreases_to!(fields@ => fields@[i]));
        assert(decreases_to!(fields@[i] => fields@[i].1));
    }
}

/// The value of the first field with a name.
pub open spec fn field_in(fields: Seq<FieldView>, key: Seq<char>) -> Option<JsonView>
    decreases fields.len(),
{
    if fields.len() == 0 {
        None
    } else if fields[0].name == key {
        Some(fields[0].value)
    } else {
        field_in(fields.drop_first(), key)
    }
}

/// A field is found under its name, if no field before it has the same.
pub proof fn lemma_field_at(fields: Seq<FieldView>, k: int)
    requires
        0 <= k < fields.len(),
        forall|i: int| 0 <= i < k ==> (#[trigger] fields[i]).name != fields[k].name,
    ensures
        field_in(fields, fields[k].name) == Some(fields[k].value),
    decreases k,
{
    if k > 0 {
        let rest = fields.drop_first();
        assert(rest[k - 1] == fields[k]);
        assert forall|i: int| 0 <= i < k - 1 implies (#[trigger] rest[i]).name != rest[k - 1].name by {
            assert(rest[i] == fields[i + 1]);
        }
        lemma_field_at(rest, k - 1);
        assert(fields[0].name != fields[k].name);
    }
}

/// The value of a field of an object; other values have none.
pub open spec fn field(v: JsonView, key: Seq<char>) -> Option<JsonView> {
    match v {
        JsonView::Object(fields) => field_in(fields, key),
        _ => None,
    }
}

/// The value of a field is that of the first field with its name, and there is
/// none only where no field has the name.
pub proof fn law_field_is_found_by_name(fields: Seq<FieldView>, key: Seq<char>)
    ensures
        match field(JsonView::Object(fields), key) {
            Some(v) => exists|i: int|
                0 <= i < fields.len() && (#[trigger] fields[i]).name == key && fields[i].value == v
                    && forall|j: int| 0 <= j < i ==> (#[trigger] fields[j]).name != key,
            None => forall|i: int| 0 <= i < fields.len() ==> (#[trigger] fields[i]).name != key,
        },
    decreases fields.len(),
{
    if fields.len() > 0 && fields[0].name != key {
        let rest = fields.drop_first();
        law_field_is_found_by_name(rest, key);
        assert forall|i: int| 1 <= i < fields.len() implies #[trigger] fields[i] == rest[i - 1] by {}
        if let Some(v) = field_in(rest, key) {
            let i = choose|i: int|
                0 <= i < rest.len() && (#[trigger] rest[i]).name == key && rest[i].value == v
                    && forall|j: int| 0 <= j < i ==> (#[trigger] rest[j]).name != key;
            assert(fields[i + 1].name == key);
        }
    } else if fields.len() > 0 {
        assert(fields[0].name == key);
    }
}

/// The text of a string; other values have none.
pub open spec fn text_of_json(v: JsonView) -> Option<Seq<char>> {
    match v {
        JsonView::Str(s) => Some(s),
        _ => None,
    }
}

/// The text of a field that is a string.
pub open spec fn text_field(v: JsonView, key: Seq<char>) -> Option<Seq<char>> {
    match field(v, key) {
        Some(value) => text_of_json(value),
        None => None,
    }
}

/// A field that is a number without sign, point or exponent and fits 64 bits.
pub open spec fn unsigned_field(v: JsonView, key: Seq<char>) -> Option<nat> {
    match field(v, key) {
        Some(JsonView::Number(n)) => unsigned_upto(n, u64::MAX as nat),
        _ => None,
    }
}

/// The strings of a field that is an array, in order; members that are no
/// strings are passed over.
pub open spec fn strings_in(items: Seq<JsonView>) -> Seq<Seq<char>>
    decreases items.len(),
{
    if items.len() == 0 {
        Seq::empty()
    } else {
        match items.last() {
            JsonView::Str(s) => strings_in(items.drop_last()).push(s),
            _ => strings_in(items.drop_last()),
        }
    }
}

/// The strings of a field that is an array; no strings where it is none.
pub open spec fn strings_field(v: JsonView, key: Seq<char>) -> Seq<Seq<char>> {
    match field(v, key) {
        Some(JsonView::Array(items)) => strings_in(items),
        _ => Seq::empty(),
    }
}

/// A character as it stands in a JSON string: quotes, backslashes and the control
/// characters of ASCII are escaped.
pub open spec fn escaped_char(c: char) -> Seq<char> {
    if c == '"' || c == '\\' {
        seq!['\\', c]
    } else if c == '\u{8}' {
        seq!['\\', 'b']
    } else if c == '\t' {
        seq!['\\', 't']
    } else if c == '\n' {
        seq!['\\', 'n']
    } else if c == '\u{c}' {
        seq!['\\', 'f']
    } else if c == '\r' {
        seq!['\\', 'r']
    } else if c <= '\u{1f}' {
        seq!['\\', 'u', '0', '0', hex_digit(c as int / 16), hex_digit(c as int % 16)]
    } else {
        seq![c]
    }
}

/// The characters of a text as they stand in a JSON string.
pub open spec fn escaped_chars(text: Seq<char>) -> Seq<char>
    decreases text.len(),
{
    if text.len() == 0 {
        Seq::empty()
    } else {
        escaped_chars(text.drop_last()) + escaped_char(text.last())
    }
}

/// A text as a JSON string: quotes around it, and escapes in it.
pub open spec fn quoted(text: Seq<char>) -> Seq<char> {
    seq!['"'] + escaped_chars(text) + seq!['"']
}

/// The value that a `serde_json::Value` holds.
pub uninterp spec fn value_held(value: serde_json::Value) -> JsonView;

/// The value that `serde_json::from_str` reads from a text; none where the text
/// is not JSON.
pub uninterp spec fn parsed(text: Seq<char>) -> Option<JsonView>;

/// The values of an array as text, with commas between them.
pub open spec fn items_text(items: Seq<JsonView>) -> Seq<char>
    decreases items,
{
    if items.len() == 0 {
        Seq::empty()
    } else if items.len() == 1 {
        json_text(items[0])
    } else {
        items_text(items.drop_last()) + seq![','] + json_text(items.last())
    }
}

/// The fields of an object as text, with commas between them.
pub open spec fn fields_text(fields: Seq<FieldView>) -> Seq<char>
    decreases fields,
{
    if fields.len() == 0 {
        Seq::empty()
    } else if fields.len() == 1 {
        quoted(fields[0].name) + seq![':'] + json_text(fields[0].value)
    } else {
        fields_text(fields.drop_last()) + seq![','] + quoted(fields.last().name) + seq![':']
            + json_text(fields.last().value)
    }
}

/// A value as text, without white space.
pub open spec fn json_text(v: JsonView) -> Seq<char>
    decreases v,
{
    match v {
        JsonView::Null => "null"@,
        JsonView::Bool(b) => if b {
            "true"@
        } else {
            "false"@
        },
        JsonView::Number(n) => n,
        JsonView::Str(s) => quoted(s),
        JsonView::Array(items) => seq!['['] + items_text(items) + seq![']'],
        JsonView::Object(fields) => seq!['{'] + fields_text(fields) + seq!['}'],
    }
}

/// The first string of some values that has more than white space in it, and is
/// found by going through arrays and objects in order; trimmed.
pub open spec fn first_string_among(items: Seq<JsonView>) -> Option<Seq<char>>
    decreases items,
{
    if items.len() == 0 {
        None
    } else {
        match first_string(items[0]) {
            Some(s) => Some(s),
            None => first_string_among(items.drop_first()),
        }
    }
}

/// As [`first_string_among`], of the values of an object's fields.
pub open spec fn first_string_among_fields(fields: Seq<FieldView>) -> Option<Seq<char>>
    decreases fields,
{
    if fields.len() == 0 {
        None
    } else {
        match first_string(fields[0].value) {
            Some(s) => Some(s),
            None => first_string_among_fields(fields.drop_first()),
        }
    }
}

/// The first string in a value that has more than white space in it, trimmed.
pub open spec fn first_string(v: JsonView) -> Option<Seq<char>>
    decreases v,
{
    match v {
        JsonView::Str(s) => if is_blank(s) {
            None
        } else {
            Some(trimmed(s))
        },
        JsonView::Array(items) => first_string_among(items),
        JsonView::Object(fields) => first_string_among_fields(fields),
        _ => None,
    }
}

/// A string as it stands in a prompt: quoted, and with no angle bracket left.
pub open spec fn prompt_string(text: Seq<char>) -> Seq<char> {
    without_angles(quoted(text))
}

/// A text with its angle brackets escaped as in JSON.
pub open spec fn without_angles(text: Seq<char>) -> Seq<char> {
    replaced(replaced(text, seq!['<'], "\\u003c"@), seq!['>'], "\\u003e"@)
}

/// `serde_json::Value`, a JSON value of the outside crate.
#[verifier::external_type_specification]
#[verifier::external_body]
pub struct ExValue(serde_json::Value);

/// `serde_json::to_string` of a string. Claims that it writes quotes around the
/// string, and in it a short escape for a quote, a backslash, a backspace, a tab, a
/// line feed, a form feed and a carriage return, four hexadecimal digits for any
/// other ASCII control character below the space, and every other character as it
/// is.
#[verifier::external_body]
pub(crate) fn quote(text: &str) -> (s: String)
    ensures
        s@ == quoted(text@),
{
    serde_json::to_string(text).expect("a string is always serializable")
}

/// `serde_json::from_str` into a `serde_json::Value`. Claims that what is read
/// depends on the text alone.
#[verifier::external_body]
fn read_value(text: &str) -> (r: Option<serde_json::Value>)
    ensures
        match r {
            Some(value) => parsed(text@) == Some(value_held(value)),
            None => parsed(text@) is None && r is None,
        },
{
    serde_json::from_str(text).ok()
}

/// The variants of a `serde_json::Value`, one for one, a number as its
/// `Display` text.
#[verifier::external_body]
fn from_value(value: &serde_json::Value) -> (json: Json)
    ensures
        json@ == value_held(*value),
{
    match value {
        serde_json::Value::Null => Json::Null,
        serde_json::Value::Bool(b) => Json::Bool(*b),
        serde_json::Value::Number(n) => Json::Number(n.to_string()),
        serde_json::Value::String(s) => Json::Str(s.clone()),
        serde_json::Value::Array(items) => Json::Array(items.iter().map(from_value).collect()),
        serde_json::Value::Object(map) => Json::Object(
            map.iter().map(|(key, value)| (key.clone(), from_value(value))).collect(),
        ),
    }
}

/// Reads a JSON text.
pub fn parse(text: &str) -> (r: Option<Json>)
    ensures
        match r {
            Some(json) => parsed(text@) == Some(json@),
            None => parsed(text@) is None,
        },
{
    match read_value(text) {
        Some(value) => Some(from_value(&value)),
        None => None,
    }
}

impl Clone for Json {
    fn clone(&self) -> (r: Json)
        ensures
            r@ == self@,
        decreases self,
    {
        match self {
            Json::Null => Json::Null,
            Json::Bool(b) => Json::Bool(*b),
            Json::Number(n) => Json::Number(n.clone()),
            Json::Str(s) => Json::Str(s.clone()),
            Json::Array(items) => {
                let mut copy: Vec<Json> = Vec::new();
                let mut i: usize = 0;
                while i < items.len()
                    invariant
                        i <= items@.len(),
                        *self == Json::Array(*items),
                        copy@.len() == i,
                        forall|k: int| 0 <= k < i ==> (#[trigger] copy@[k])@ == items@[k]@,
                    decreases items@.len() - i,
                {
                    let item: &Json = &items[i];
                    proof {
                        lemma_array(*self, *items);
                    }
                    copy.push(item.clone());
                    i += 1;
                }
                let r = Json::Array(copy);
                proof {
                    lemma_array(*self, *items);
                    lemma_array(r, copy);
                    assert(json_items(copy@) =~= json_items(items@));
                }
                r
            },
            Json::Object(fields) => {
                let mut copy: Vec<(String, Json)> = Vec::new();
                let mut i: usize = 0;
                while i < fields.len()
                    invariant
                        i <= fields@.len(),
                        *self == Json::Object(*fields),
                        copy@.len() == i,
                        forall|k: int| 0 <= k < i ==> (#[trigger] copy@[k]).0@ == fields@[k].0@,
                        forall|k: int| 0 <= k < i ==> (#[trigger] copy@[k]).1@ == fields@[k].1@,
                    decreases fields@.len() - i,
                {
                    let name = fields[i].0.clone();
                    let value: &Json = &fields[i].1;
                    proof {
                        lemma_object(*self, *fields);
                    }
                    copy.push((name, value.clone()));
                    i += 1;
                }
                let r = Json::Object(copy);
                proof {
                    lemma_object(*self, *fields);
                    lemma_object(r, copy);
                    assert(json_fields(copy@) =~= json_fields(fields@));
                }
                r
            },
        }
    }
}

/// An array of identifiers.
pub open spec fn id_array(ids: Seq<Id>) -> JsonView {
    JsonView::Array(ids.map_values(|id: Id| JsonView::Str(hyphenated(id))))
}

/// A field of an object.
pub open spec fn named(name: Seq<char>, value: JsonView) -> FieldView {
    FieldView { name, value }
}

/// The fields of an object in the making.
#[derive(Debug)]
pub struct Fields {
    list: Vec<(String, Json)>,
}

impl View for Fields {
    type V = Seq<FieldView>;

    closed spec fn view(&self) -> Seq<FieldView> {
        json_fields(self.list@)
    }
}

impl Fields {
    /// No fields.
    pub fn new() -> (r: Fields)
        ensures
            r@ == Seq::<FieldView>::empty(),
    {
        let r = Fields { list: Vec::new() };
        assert(r@ =~= Seq::<FieldView>::empty());
        r
    }

    /// One more field.
    pub fn with(self, name: &str, value: Json) -> (r: Fields)
        ensures
            r@ == self@.push(named(name@, value@)),
    {
        let mut list = self.list;
        list.push((name.to_owned(), value));
        let r = Fields { list };
        assert(r@ =~= self@.push(named(name@, value@)));
        r
    }

    /// The object.
    pub fn object(self) -> (json: Json)
        ensures
            json@ == JsonView::Object(self@),
    {
        let json = Json::Object(self.list);
        proof {
            lemma_object(json, self.list);
        }
        json
    }
}

impl Json {
    /// A string.
    pub fn text(s: &str) -> (json: Json)
        ensures
            json@ == JsonView::Str(s@),
    {
        Json::Str(s.to_owned())
    }

    /// A string, or `null` for none.
    pub fn optional_text(s: &Option<String>) -> (json: Json)
        ensures
            json@ == (match s {
                Some(text) => JsonView::Str(text@),
                None => JsonView::Null,
            }),
    {
        match s {
            Some(text) => Json::Str(text.clone()),
            None => Json::Null,
        }
    }

    /// A number.
    pub fn count(n: u64) -> (json: Json)
        ensures
            json@ == JsonView::Number(decimal(n as nat)),
    {
        Json::Number(decimal_text(n as u128))
    }

    /// A number, or `null` for none.
    pub fn optional_count(n: Option<u64>) -> (json: Json)
        ensures
            json@ == (match n {
                Some(n) => JsonView::Number(decimal(n as nat)),
                None => JsonView::Null,
            }),
    {
        match n {
            Some(n) => Json::count(n),
            None => Json::Null,
        }
    }

    /// An identifier, as the string of its hyphenated form.
    pub fn id(id: Id) -> (json: Json)
        ensures
            json@ == JsonView::Str(hyphenated(id)),
    {
        Json::Str(id_text(id))
    }

    /// An identifier, or `null` for none.
    pub fn optional_id(id: Option<Id>) -> (json: Json)
        ensures
            json@ == (match id {
                Some(id) => JsonView::Str(hyphenated(id)),
                None => JsonView::Null,
            }),
    {
        match id {
            Some(id) => Json::id(id),
            None => Json::Null,
        }
    }

    /// An array of identifiers.
    pub fn ids(list: &Vec<Id>) -> (json: Json)
        ensures
            json@ == id_array(list@),
    {
        let mut items: Vec<Json> = Vec::new();
        let mut i: usize = 0;
        while i < list.len()
            invariant
                i <= list@.len(),
                items@.len() == i,
                forall|k: int|
                    0 <= k < i ==> (#[trigger] items@[k])@ == JsonView::Str(hyphenated(list@[k])),
            decreases list@.len() - i,
        {
            items.push(Json::id(list[i]));
            i += 1;
        }
        let json = Json::Array(items);
        assert(json@->Array_0 =~= id_array(list@)->Array_0);
        json
    }

    /// The value of a field.
    pub fn get(&self, key: &str) -> (r: Option<&Json>)
        ensures
            match r {
                Some(value) => field(self@, key@) == Some(value@),
                None => field(self@, key@) is None,
            },
    {
        if let Json::Object(fields) = self {
            let ghost all = json_fields(fields@);
            assert(self@->Object_0 =~= all);
            let mut i: usize = 0;
            assert(all.skip(0) =~= all);
            while i < fields.len()
                invariant
                    i <= fields@.len(),
                    all == json_fields(fields@),
                    field_in(all, key@) == field_in(all.skip(i as int), key@),
                    self@ == JsonView::Object(all),
                decreases fields@.len() - i,
            {
                assert(all.skip(i as int)[0] == all[i as int]);
                if same(fields[i].0.as_str(), key) {
                    return Some(&fields[i].1);
                }
                assert(all.skip(i as int).drop_first() =~= all.skip(i + 1));
                i += 1;
            }
            assert(all.skip(i as int).len() == 0);
            None
        } else {
            None
        }
    }

    /// The text of a string.
    pub fn as_str(&self) -> (r: Option<&str>)
        ensures
            match r {
                Some(s) => text_of_json(self@) == Some(s@),
                None => text_of_json(self@) is None,
            },
    {
        match self {
            Json::Str(s) => Some(s.as_str()),
            _ => None,
        }
    }

    /// The text of a field that is a string.
    pub fn str_field(&self, key: &str) -> (r: Option<&str>)
        ensures
            match r {
                Some(s) => text_field(self@, key@) == Some(s@),
                None => text_field(self@, key@) is None,
            },
    {
        match self.get(key) {
            Some(value) => value.as_str(),
            None => None,
        }
    }

    /// A field that is a number without sign, point or exponent and fits 64
    /// bits.
    pub fn u64_field(&self, key: &str) -> (r: Option<u64>)
        ensures
            match r {
                Some(n) => unsigned_field(self@, key@) == Some(n as nat),
                None => unsigned_field(self@, key@) is None,
            },
    {
        match self.get(key) {
            Some(Json::Number(n)) => parse_unsigned(n.as_str(), u64::MAX),
            _ => None,
        }
    }

    /// The strings of a field that is an array.
    pub fn strings_in_field(&self, key: &str) -> (list: Vec<String>)
        ensures
            crate::text::texts(list@) == strings_field(self@, key@),
    {
        let mut list: Vec<String> = Vec::new();
        if let Some(Json::Array(items)) = self.get(key) {
            let ghost all = json_items(items@);
            assert(field(self@, key@) is Some);
            assert((field(self@, key@)->0)->Array_0 =~= all);
            let mut i: usize = 0;
            assert(all.take(0) =~= Seq::<JsonView>::empty());
            assert(crate::text::texts(list@) =~= strings_in(all.take(0)));
            while i < items.len()
                invariant
                    i <= items@.len(),
                    all == json_items(items@),
                    crate::text::texts(list@) == strings_in(all.take(i as int)),
                decreases items@.len() - i,
            {
                let ghost before = list@;
                assert(all.take(i + 1).drop_last() =~= all.take(i as int));
                assert(all.take(i + 1).last() == items@[i as int]@);
                if let Json::Str(s) = &items[i] {
                    list.push(s.clone());
                    assert(crate::text::texts(list@) =~= crate::text::texts(before).push(s@));
                }
                i += 1;
            }
            assert(all.take(i as int) =~= all);
        } else {
            assert(crate::text::texts(list@) =~= Seq::<Seq<char>>::empty());
        }
        list
    }

    /// The value as text, without white space.
    pub fn to_text(&self) -> (s: String)
        ensures
            s@ == json_text(self@),
        decreases self,
    {
        match self {
            Json::Null => "null".to_owned(),
            Json::Bool(b) => if *b {
                "true".to_owned()
            } else {
                "false".to_owned()
            },
            Json::Number(n) => n.clone(),
            Json::Str(s) => quote(s.as_str()),
            Json::Array(items) => {
                let ghost all = json_items(items@);
                proof {
                    lemma_array(*self, *items);
                }
                let mut s = String::new();
                s.push('[');
                let mut i: usize = 0;
                assert(s@ =~= seq!['['] + items_text(all.take(0)));
                while i < items.len()
                    invariant
                        i <= items@.len(),
                        *self == Json::Array(*items),
                        all == json_items(items@),
                        s@ == seq!['['] + items_text(all.take(i as int)),
                    decreases items@.len() - i,
                {
                    let ghost upto = all.take(i + 1);
                    assert(upto.drop_last() =~= all.take(i as int));
                    assert(upto.last() == items@[i as int]@);
                    if i > 0 {
                        s.push(',');
                    }
                    let item: &Json = &items[i];
                    proof {
                        lemma_array(*self, *items);
                    }
                    s.push_str(item.to_text().as_str());
                    assert(s@ =~= seq!['['] + items_text(upto));
                    i += 1;
                }
                assert(all.take(i as int) =~= all);
                s.push(']');
                assert(s@ =~= json_text(self@));
                s
            },
            Json::Object(fields) => {
                let ghost all = json_fields(fields@);
                proof {
                    lemma_object(*self, *fields);
                }
                let mut s = String::new();
                s.push('{');
                let mut i: usize = 0;
                assert(s@ =~= seq!['{'] + fields_text(all.take(0)));
                while i < fields.len()
                    invariant
                        i <= fields@.len(),
                        *self == Json::Object(*fields),
                        all == json_fields(fields@),
                        s@ == seq!['{'] + fields_text(all.take(i as int)),
                    decreases fields@.len() - i,
                {
                    let ghost upto = all.take(i + 1);
                    assert(upto.drop_last() =~= all.take(i as int));
                    assert(upto.last() == all[i as int]);
                    if i > 0 {
                        s.push(',');
                    }
                    s.push_str(quote(fields[i].0.as_str()).as_str());
                    s.push(':');
                    let value: &Json = &fields[i].1;
                    proof {
                        lemma_object(*self, *fields);
                    }
                    s.push_str(value.to_text().as_str());
                    assert(s@ =~= seq!['{'] + fields_text(upto));
                    i += 1;
                }
                assert(all.take(i as int) =~= all);
                s.push('}');
                assert(s@ =~= json_text(self@));
                s
            },
        }
    }

    /// The first string in the value that has more than white space in it,
    /// trimmed.
    pub fn first_nonempty_string(&self) -> (r: Option<String>)
        ensures
            match r {
                Some(s) => first_string(self@) == Some(s@),
                None => first_string(self@) is None,
            },
        decreases self,
    {
        match self {
            Json::Str(s) => {
                let inner = trim(s.as_str());
                if inner.unicode_len() > 0 {
                    Some(inner.to_owned())
                } else {
                    None
                }
            },
            Json::Array(items) => {
                let ghost all = json_items(items@);
                proof {
                    lemma_array(*self, *items);
                }
                let mut i: usize = 0;
                assert(all.skip(0) =~= all);
                while i < items.len()
                    invariant
                        i <= items@.len(),
                        *self == Json::Array(*items),
                        all == json_items(items@),
                        self@ == JsonView::Array(all),
                        first_string(self@) == first_string_among(all.skip(i as int)),
                    decreases items@.len() - i,
                {
                    assert(all.skip(i as int)[0] == items@[i as int]@);
                    assert(all.skip(i as int).drop_first() =~= all.skip(i + 1));
                    let item: &Json = &items[i];
                    proof {
                        lemma_array(*self, *items);
                    }
                    let found = item.first_nonempty_string();
                    if found.is_some() {
                        return found;
                    }
                    i += 1;
                }
                assert(all.skip(i as int).len() == 0);
                None
            },
            Json::Object(fields) => {
                let ghost all = json_fields(fields@);
                proof {
                    lemma_object(*self, *fields);
                }
                let mut i: usize = 0;
                assert(all.skip(0) =~= all);
                while i < fields.len()
                    invariant
                        i <= fields@.len(),
                        *self == Json::Object(*fields),
                        all == json_fields(fields@),
                        self@ == JsonView::Object(all),
                        first_string(self@) == first_string_among_fields(all.skip(i as int)),
                    decreases fields@.len() - i,
                {
                    assert(all.skip(i as int)[0] == all[i as int]);
                    assert(all.skip(i as int).drop_first() =~= all.skip(i + 1));
                    let value: &Json = &fields[i].1;
                    proof {
                        lemma_object(*self, *fields);
                    }
                    let found = value.first_nonempty_string();
                    if found.is_some() {
                        return found;
                    }
                    i += 1;
                }
                assert(all.skip(i as int).len() == 0);
                None
            },
            _ => None,
        }
    }
}

/// Escapes the angle brackets of a text as in JSON.
pub fn escape_angles(text: &str) -> (s: String)
    ensures
        s@ == without_angles(text@),
{
    proof {
        reveal_strlit("<");
        reveal_strlit(">");
        assert("<"@ =~= seq!['<']);
        assert(">"@ =~= seq!['>']);
    }
    let once = replace(text, "<", "\\u003c");
    replace(once.as_str(), ">", "\\u003e")
}

/// A string as it stands in a prompt: quoted, and with no angle bracket left.
pub fn prompt_json_string(text: &str) -> (s: String)
    ensures
        s@ == prompt_string(text@),
{
    escape_angles(quote(text).as_str())
}

/// No angle bracket is left in an escaped text, so that nothing in it can be
/// taken for a marker of a chat template.
pub proof fn law_escaped_text_has_no_angles(text: Seq<char>)
    ensures
        !without_angles(text).contains('<'),
        !without_angles(text).contains('>'),
{
    reveal_strlit("\\u003c");
    reveal_strlit("\\u003e");
    let once = replaced(text, seq!['<'], "\\u003c"@);
    crate::text::lemma_replaced_gone(text, '<', "\\u003c"@);
    crate::text::lemma_replaced_gone(once, '>', "\\u003e"@);
    crate::text::lemma_replaced_keeps_out(once, '>', "\\u003e"@, '<');
}

/// What is escaped in two parts is the two escaped parts.
proof fn lemma_escaped_add(a: Seq<char>, b: Seq<char>)
    ensures
        escaped_chars(a + b) == escaped_chars(a) + escaped_chars(b),
    decreases b.len(),
{
    if b.len() == 0 {
        assert(a + b =~= a);
        assert(escaped_chars(a) + escaped_chars(b) =~= escaped_chars(a));
    } else {
        lemma_escaped_add(a, b.drop_last());
        assert((a + b).drop_last() =~= a + b.drop_last());
        assert((a + b).last() == b.last());
        assert(escaped_chars(a + b) =~= escaped_chars(a) + escaped_chars(b));
    }
}

proof fn lemma_plain_escaped(text: Seq<char>)
    requires
        forall|i: int|
            0 <= i < text.len() ==> (#[trigger] text[i]) > '\u{1f}' && text[i] != '"' && text[i]
                != '\\',
    ensures
        escaped_chars(text) == text,
    decreases text.len(),
{
    if text.len() > 0 {
        let front = text.drop_last();
        assert forall|i: int| 0 <= i < front.len() implies (#[trigger] front[i]) > '\u{1f}'
            && front[i] != '"' && front[i] != '\\' by {
            assert(front[i] == text[i]);
        }
        lemma_plain_escaped(front);
        let c = text[text.len() - 1];
        assert(escaped_char(c) == seq![c]);
        assert(front + seq![c] =~= text);
    } else {
        assert(escaped_chars(text) =~= text);
    }
}

/// A text without quotes, backslashes and control characters stands between quotes as
/// it is, in a prompt too where it has no angle brackets.
pub proof fn law_plain_text_is_quoted_as_it_is(text: Seq<char>)
    requires
        forall|i: int|
            0 <= i < text.len() ==> (#[trigger] text[i]) > '\u{1f}' && text[i] != '"' && text[i]
                != '\\',
    ensures
        quoted(text) == seq!['"'] + text + seq!['"'],
        (forall|i: int| 0 <= i < text.len() ==> (#[trigger] text[i]) != '<' && text[i] != '>')
            ==> prompt_string(text) == seq!['"'] + text + seq!['"'],
{
    lemma_plain_escaped(text);
    let whole = seq!['"'] + text + seq!['"'];
    if forall|i: int| 0 <= i < text.len() ==> (#[trigger] text[i]) != '<' && text[i] != '>' {
        assert forall|j: int| 0 <= j < whole.len() implies (#[trigger] whole[j]) != '<' && whole[j]
            != '>' by {
            if 0 < j < whole.len() - 1 {
                assert(whole[j] == text[j - 1]);
            }
        }
        lemma_nothing_to_replace(whole, '<', "\\u003c"@);
        lemma_nothing_to_replace(whole, '>', "\\u003e"@);
    }
}

proof fn lemma_nothing_to_replace(s: Seq<char>, c: char, to: Seq<char>)
    requires
        forall|j: int| 0 <= j < s.len() ==> #[trigger] s[j] != c,
    ensures
        crate::text::replaced(s, seq![c], to) == s,
{
    crate::text::lemma_found(s, seq![c]);
    if let Some(k) = crate::text::found(s, seq![c]) {
        assert(s.subrange(k, k + 1)[0] == seq![c][0]);
        assert(s[k] == c);
    }
}

/// Wherever a quote, a backslash, the end of a line or a tab stands in a text, it is
/// written with a backslash before it; all around it is written as before.
pub proof fn law_marks_are_escaped(before: Seq<char>, after: Seq<char>)
    ensures
        escaped_chars(before + seq!['"'] + after) == escaped_chars(before) + seq!['\\', '"']
            + escaped_chars(after),
        escaped_chars(before + seq!['\\'] + after) == escaped_chars(before) + seq!['\\', '\\']
            + escaped_chars(after),
        escaped_chars(before + seq!['\n'] + after) == escaped_chars(before) + seq!['\\', 'n']
            + escaped_chars(after),
        escaped_chars(before + seq!['\t'] + after) == escaped_chars(before) + seq!['\\', 't']
            + escaped_chars(after),
{
    lemma_mark_escaped(before, '"', after);
    lemma_mark_escaped(before, '\\', after);
    lemma_mark_escaped(before, '\n', after);
    lemma_mark_escaped(before, '\t', after);
}

proof fn lemma_mark_escaped(before: Seq<char>, c: char, after: Seq<char>)
    ensures
        escaped_chars(before + seq![c] + after) == escaped_chars(before) + escaped_char(c)
            + escaped_chars(after),
{
    lemma_escaped_add(before + seq![c], after);
    lemma_escaped_add(before, seq![c]);
    assert(seq![c].drop_last() =~= Seq::<char>::empty());
    assert(escaped_chars(seq![c]) =~= escaped_char(c)) by {
        assert(escaped_chars(Seq::<char>::empty()) =~= Seq::<char>::empty());
    }
}

/// The strings of a list of strings are read in order, each as it is.
pub proof fn law_strings_are_read_in_order(v: JsonView, key: Seq<char>, list: Seq<Seq<char>>)
    requires
        field(v, key) == Some(JsonView::Array(list.map_values(|s: Seq<char>| JsonView::Str(s)))),
    ensures
        strings_field(v, key) == list,
{
    lemma_strings_in(list);
}

proof fn lemma_strings_in(list: Seq<Seq<char>>)
    ensures
        strings_in(list.map_values(|s: Seq<char>| JsonView::Str(s))) == list,
    decreases list.len(),
{
    let items = list.map_values(|s: Seq<char>| JsonView::Str(s));
    if list.len() > 0 {
        lemma_strings_in(list.drop_last());
        assert(items.drop_last() =~= list.drop_last().map_values(|s: Seq<char>| JsonView::Str(s)));
        assert(items.last() == JsonView::Str(list.last()));
        assert(list.drop_last().push(list.last()) =~= list);
    } else {
        assert(strings_in(items) =~= list);
    }
}

} // verus!
