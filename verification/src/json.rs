//! JSON documents as plain values.

use vstd::prelude::*;
use crate::text;

verus! {

/// A JSON number: an integer of either sign, or the text of any other number.
pub enum JsonNumber {
    Natural(u64),
    Negative(i64),
    Other(String),
}

/// A JSON document.
///
/// The fields of an object are listed in some order; of two fields with one
/// name the later one counts.
pub enum Json {
    Null,
    Bool(bool),
    Number(JsonNumber),
    Text(String),
    Array(Vec<Json>),
    Object(Vec<(String, Json)>),
}

/// What a JSON number is.
pub enum JsonNumberView {
    Natural(u64),
    Negative(i64),
    Other(Seq<char>),
}

/// What a JSON document is: an object is a map from field names to documents.
#[verifier::ext_equal]
pub enum JsonView {
    Null,
    Bool(bool),
    Number(JsonNumberView),
    Text(Seq<char>),
    Array(Seq<JsonView>),
    Object(Map<Seq<char>, JsonView>),
}

impl View for JsonNumber {
    type V = JsonNumberView;

    open spec fn view(&self) -> JsonNumberView {
        match self {
            JsonNumber::Natural(n) => JsonNumberView::Natural(*n),
            JsonNumber::Negative(n) => JsonNumberView::Negative(*n),
            JsonNumber::Other(t) => JsonNumberView::Other(t@),
        }
    }
}

/// The documents in a list.
pub open spec fn items_view(items: Seq<Json>) -> Seq<JsonView>
    decreases items,
{
    if items.len() == 0 {
        Seq::empty()
    } else {
        items_view(items.drop_last()).push(items.last().deep())
    }
}

/// The object that a list of fields stands for.
pub open spec fn fields_view(fields: Seq<(String, Json)>) -> Map<Seq<char>, JsonView>
    decreases fields,
{
    if fields.len() == 0 {
        Map::empty()
    } else {
        fields_view(fields.drop_last()).insert(fields.last().0@, fields.last().1.deep())
    }
}

impl Json {
    /// The document that this value stands for.
    pub open spec fn deep(&self) -> JsonView
        decreases self,
    {
        match self {
            Json::Null => JsonView::Null,
            Json::Bool(b) => JsonView::Bool(*b),
            Json::Number(n) => JsonView::Number(n@),
            Json::Text(t) => JsonView::Text(t@),
            Json::Array(items) => JsonView::Array(items_view(items@)),
            Json::Object(fields) => JsonView::Object(fields_view(fields@)),
        }
    }
}

impl View for Json {
    type V = JsonView;

    open spec fn view(&self) -> JsonView {
        self.deep()
    }
}

impl JsonView {
    /// The field of an object with this name.
    pub open spec fn field(self, name: Seq<char>) -> Option<JsonView> {
        match self {
            JsonView::Object(m) => if m.dom().contains(name) {
                Some(m[name])
            } else {
                None
            },
            _ => None,
        }
    }

    /// The text of a text.
    pub open spec fn text(self) -> Option<Seq<char>> {
        match self {
            JsonView::Text(t) => Some(t),
            _ => None,
        }
    }

    /// The text in the field with this name.
    pub open spec fn text_field(self, name: Seq<char>) -> Option<Seq<char>> {
        match self.field(name) {
            Some(v) => v.text(),
            None => None,
        }
    }

    /// The number in the field with this name, where it is a natural number.
    pub open spec fn natural_field(self, name: Seq<char>) -> Option<u64> {
        match self.field(name) {
            Some(JsonView::Number(JsonNumberView::Natural(n))) => Some(n),
            _ => None,
        }
    }

    /// The truth value in the field with this name.
    pub open spec fn bool_field(self, name: Seq<char>) -> Option<bool> {
        match self.field(name) {
            Some(JsonView::Bool(b)) => Some(b),
            _ => None,
        }
    }

    /// The list in the field with this name.
    pub open spec fn list_field(self, name: Seq<char>) -> Option<Seq<JsonView>> {
        match self.field(name) {
            Some(JsonView::Array(items)) => Some(items),
            _ => None,
        }
    }
}

/// The object without fields.
pub open spec fn empty_object() -> JsonView {
    JsonView::Object(Map::empty())
}

/// Each document of a list stands at its place.
pub proof fn lemma_items_view(items: Seq<Json>)
    ensures
        items_view(items).len() == items.len(),
        forall|i: int| 0 <= i < items.len() ==> items_view(items)[i] == (#[trigger] items[i])@,
    decreases items.len(),
{
    if items.len() > 0 {
        lemma_items_view(items.drop_last());
        assert forall|i: int| 0 <= i < items.len() implies items_view(items)[i] == (
        #[trigger] items[i])@ by {
            if i < items.len() - 1 {
                assert(items.drop_last()[i] == items[i]);
            }
        }
    }
}

proof fn lemma_fields_absent(fields: Seq<(String, Json)>, name: Seq<char>)
    requires
        forall|k: int| 0 <= k < fields.len() ==> (#[trigger] fields[k]).0@ != name,
    ensures
        !fields_view(fields).dom().contains(name),
    decreases fields.len(),
{
    if fields.len() > 0 {
        assert(fields.last() == fields[fields.len() - 1]);
        assert forall|k: int| 0 <= k < fields.len() - 1 implies (
        #[trigger] fields.drop_last()[k]).0@ != name by {
            assert(fields[k].0@ != name);
        }
        lemma_fields_absent(fields.drop_last(), name);
    }
}

proof fn lemma_fields_last(fields: Seq<(String, Json)>, at: int)
    requires
        0 <= at < fields.len(),
        forall|k: int| at < k < fields.len() ==> (#[trigger] fields[k]).0@ != fields[at].0@,
    ensures
        fields_view(fields).dom().contains(fields[at].0@),
        fields_view(fields)[fields[at].0@] == fields[at].1@,
    decreases fields.len(),
{
    if at < fields.len() - 1 {
        let before = fields.drop_last();
        assert(fields.last() == fields[fields.len() - 1]);
        assert forall|k: int| at < k < before.len() implies (#[trigger] before[k]).0@
            != before[at].0@ by {
            assert(fields[k].0@ != fields[at].0@);
        }
        lemma_fields_last(before, at);
    }
}

impl Json {
    /// The text document.
    pub fn of_text(value: &str) -> (json: Json)
        ensures
            json@ == JsonView::Text(value@),
    {
        Json::Text(value.to_string())
    }

    /// The number document.
    pub fn of_natural(value: u64) -> (json: Json)
        ensures
            json@ == JsonView::Number(JsonNumberView::Natural(value)),
    {
        Json::Number(JsonNumber::Natural(value))
    }

    /// The integer document.
    pub fn of_integer(value: i64) -> (json: Json)
        ensures
            json@ == integer(value),
    {
        if value < 0 {
            Json::Number(JsonNumber::Negative(value))
        } else {
            Json::Number(JsonNumber::Natural(value as u64))
        }
    }

    /// The text document, or null for none.
    pub fn of_opt_text(value: &Option<String>) -> (json: Json)
        ensures
            json@ == opt_text(text::opt_view(*value)),
    {
        match value {
            Some(t) => Json::Text(t.clone()),
            None => Json::Null,
        }
    }

    /// The object without fields.
    pub fn object() -> (json: Json)
        ensures
            json@ == empty_object(),
    {
        Json::Object(Vec::new())
    }

    /// The object with one more field.
    pub fn with(self, name: &str, value: Json) -> (json: Json)
        requires
            self@ is Object,
        ensures
            json@ == JsonView::Object(self@->Object_0.insert(name@, value@)),
    {
        match self {
            Json::Object(fields) => {
                let mut fields = fields;
                let ghost before = fields@;
                fields.push((name.to_string(), value));
                assert(fields@.drop_last() =~= before);
                Json::Object(fields)
            },
            other => other,
        }
    }

    /// The field of an object with this name.
    pub fn get(&self, name: &str) -> (field: Option<&Json>)
        ensures
            match field {
                Some(v) => self@.field(name@) == Some(v@),
                None => self@.field(name@) is None,
            },
    {
        match self {
            Json::Object(fields) => {
                let mut i: usize = fields.len();
                while i > 0
                    invariant
                        i <= fields.len(),
                        *self == Json::Object(*fields),
                        forall|k: int| i <= k < fields.len() ==> (#[trigger] fields@[k]).0@ != name@,
                    decreases i,
                {
                    if text::same_text(fields[i - 1].0.as_str(), name) {
                        proof {
                            lemma_fields_last(fields@, i - 1);
                        }
                        return Some(&fields[i - 1].1);
                    }
                    i -= 1;
                }
                proof {
                    lemma_fields_absent(fields@, name@);
                }
                None
            },
            _ => None,
        }
    }

    /// The text of a text.
    pub fn as_str(&self) -> (value: Option<&str>)
        ensures
            match value {
                Some(t) => self@.text() == Some(t@),
                None => self@.text() is None,
            },
    {
        match self {
            Json::Text(t) => Some(t.as_str()),
            _ => None,
        }
    }

    /// The text in the field with this name.
    pub fn get_text(&self, name: &str) -> (value: Option<String>)
        ensures
            text::opt_view(value) == self@.text_field(name@),
    {
        match self.get(name) {
            Some(Json::Text(t)) => Some(t.clone()),
            _ => None,
        }
    }

    /// The natural number in the field with this name.
    pub fn get_natural(&self, name: &str) -> (value: Option<u64>)
        ensures
            value == self@.natural_field(name@),
    {
        match self.get(name) {
            Some(Json::Number(JsonNumber::Natural(n))) => Some(*n),
            _ => None,
        }
    }

    /// The truth value in the field with this name.
    pub fn get_bool(&self, name: &str) -> (value: Option<bool>)
        ensures
            value == self@.bool_field(name@),
    {
        match self.get(name) {
            Some(Json::Bool(b)) => Some(*b),
            _ => None,
        }
    }

    /// The list in the field with this name.
    pub fn get_list(&self, name: &str) -> (value: Option<&Vec<Json>>)
        ensures
            match value {
                Some(items) => self@.list_field(name@) == Some(items_view(items@)),
                None => self@.list_field(name@) is None,
            },
    {
        match self.get(name) {
            Some(Json::Array(items)) => Some(items),
            _ => None,
        }
    }

    /// A copy of the document.
    pub fn copy(&self) -> (json: Json)
        ensures
            json@ == self@,
        decreases self,
    {
        match self {
            Json::Null => Json::Null,
            Json::Bool(b) => Json::Bool(*b),
            Json::Number(JsonNumber::Natural(n)) => Json::Number(JsonNumber::Natural(*n)),
            Json::Number(JsonNumber::Negative(n)) => Json::Number(JsonNumber::Negative(*n)),
            Json::Number(JsonNumber::Other(t)) => Json::Number(JsonNumber::Other(t.clone())),
            Json::Text(t) => Json::Text(t.clone()),
            Json::Array(items) => {
                let mut copies: Vec<Json> = Vec::new();
                let mut i: usize = 0;
                assert(items@.take(0) =~= Seq::<Json>::empty());
                while i < items.len()
                    invariant
                        i <= items.len(),
                        *self == Json::Array(*items),
                        items_view(copies@) == items_view(items@.take(i as int)),
                    decreases items.len() - i,
                {
                    let ghost before = copies@;
                    assert(decreases_to!(self => self->Array_0));
                    assert(decreases_to!(self->Array_0 => self->Array_0@));
                    assert(decreases_to!(self->Array_0@ => self->Array_0@[i as int]));
                    let copy = items[i].copy();
                    copies.push(copy);
                    i += 1;
                    assert(copies@.drop_last() =~= before);
                    assert(items@.take(i as int).drop_last() =~= items@.take(i - 1));
                }
                assert(items@.take(i as int) =~= items@);
                Json::Array(copies)
            },
            Json::Object(fields) => {
                let mut copies: Vec<(String, Json)> = Vec::new();
                let mut i: usize = 0;
                assert(fields@.take(0) =~= Seq::<(String, Json)>::empty());
                while i < fields.len()
                    invariant
                        i <= fields.len(),
                        *self == Json::Object(*fields),
                        fields_view(copies@) == fields_view(fields@.take(i as int)),
                    decreases fields.len() - i,
                {
                    let ghost before = copies@;
                    assert(decreases_to!(self => self->Object_0));
                    assert(decreases_to!(self->Object_0 => self->Object_0@));
                    assert(decreases_to!(self->Object_0@ => self->Object_0@[i as int]));
                    assert(decreases_to!(self->Object_0@[i as int] => self->Object_0@[i as int].1));
                    let copy = fields[i].1.copy();
                    copies.push((fields[i].0.clone(), copy));
                    i += 1;
                    assert(copies@.drop_last() =~= before);
                    assert(fields@.take(i as int).drop_last() =~= fields@.take(i - 1));
                }
                assert(fields@.take(i as int) =~= fields@);
                Json::Object(copies)
            },
        }
    }
}

/// The only field of an object with one field name.
pub open spec fn only_field(v: JsonView) -> Option<(Seq<char>, JsonView)> {
    match v {
        JsonView::Object(m) => if exists|k: Seq<char>| m.dom() == set![k] {
            let k = choose|k: Seq<char>| m.dom() == set![k];
            Some((k, m[k]))
        } else {
            None
        },
        _ => None,
    }
}

/// An object with one field has that field only.
pub proof fn lemma_only_field(v: JsonView, k: Seq<char>)
    requires
        v is Object,
        v->Object_0.dom() == set![k],
    ensures
        only_field(v) == Some((k, v->Object_0[k])),
{
    let m = v->Object_0;
    let other = choose|j: Seq<char>| m.dom() == set![j];
    assert(m.dom().contains(k));
    assert(set![other].contains(k));
}

proof fn lemma_fields_one_name(fields: Seq<(String, Json)>, name: Seq<char>)
    requires
        fields.len() > 0,
        forall|i: int| 0 <= i < fields.len() ==> (#[trigger] fields[i]).0@ == name,
    ensures
        fields_view(fields).dom() == set![name],
        fields_view(fields)[name] == fields.last().1@,
    decreases fields.len(),
{
    let rest = fields.drop_last();
    assert(fields.last() == fields[fields.len() - 1]);
    if rest.len() > 0 {
        assert forall|i: int| 0 <= i < rest.len() implies (#[trigger] rest[i]).0@ == name by {
            assert(rest[i] == fields[i]);
        }
        lemma_fields_one_name(rest, name);
    } else {
        assert(fields_view(rest) =~= Map::<Seq<char>, JsonView>::empty());
    }
    assert(fields_view(fields).dom() =~= set![name]);
}

/// Every field of the list is a field of the object.
pub proof fn lemma_fields_present(fields: Seq<(String, Json)>, i: int)
    requires
        0 <= i < fields.len(),
    ensures
        fields_view(fields).dom().contains(fields[i].0@),
    decreases fields.len(),
{
    if i < fields.len() - 1 {
        lemma_fields_present(fields.drop_last(), i);
    }
}

impl Json {
    /// The only field of an object with one field name.
    pub fn single_field(&self) -> (field: Option<(String, &Json)>)
        ensures
            match field {
                Some((k, v)) => only_field(self@) == Some((k@, v@)),
                None => only_field(self@) is None,
            },
    {
        match self {
            Json::Object(fields) => {
                if fields.len() == 0 {
                    proof {
                        assert forall|k: Seq<char>| fields_view(fields@).dom() != set![k] by {
                            assert(set![k].contains(k));
                        }
                    }
                    return None;
                }
                let name = fields[0].0.clone();
                let mut i: usize = 1;
                while i < fields.len()
                    invariant
                        1 <= i <= fields.len(),
                        *self == Json::Object(*fields),
                        name@ == fields@[0].0@,
                        forall|k: int| 0 <= k < i ==> (#[trigger] fields@[k]).0@ == name@,
                    decreases fields.len() - i,
                {
                    if !text::same_text(fields[i].0.as_str(), name.as_str()) {
                        proof {
                            lemma_fields_present(fields@, 0);
                            lemma_fields_present(fields@, i as int);
                            assert forall|k: Seq<char>| fields_view(fields@).dom() != set![k] by {
                                if fields_view(fields@).dom() == set![k] {
                                    assert(set![k].contains(name@));
                                    assert(set![k].contains(fields@[i as int].0@));
                                }
                            }
                        }
                        return None;
                    }
                    i += 1;
                }
                proof {
                    lemma_fields_one_name(fields@, name@);
                    lemma_only_field(self@, name@);
                }
                Some((name, &fields[fields.len() - 1].1))
            },
            _ => None,
        }
    }
}

/// The document of an integer.
pub open spec fn integer(value: i64) -> JsonView {
    if value < 0 {
        JsonView::Number(JsonNumberView::Negative(value))
    } else {
        JsonView::Number(JsonNumberView::Natural(value as u64))
    }
}

/// The document of an optional text.
pub open spec fn opt_text(value: Option<Seq<char>>) -> JsonView {
    match value {
        Some(t) => JsonView::Text(t),
        None => JsonView::Null,
    }
}

// ---------------------------------------------------------------------------
// Reading and writing
// ---------------------------------------------------------------------------

/// The members of an object that are given by their places in a list.
pub open spec fn placed(items: Seq<JsonView>, names: Seq<&'static str>) -> Map<Seq<char>, JsonView>
    decreases items.len(),
{
    if items.len() == 0 {
        Map::empty()
    } else {
        placed(items.drop_last(), names).insert(names[items.len() - 1]@, items.last())
    }
}

/// A document in which members may be given by name or, in a list, by their places.
pub open spec fn named(v: JsonView, names: Seq<&'static str>) -> JsonView {
    match v {
        JsonView::Array(items) => if items.len() <= names.len() {
            JsonView::Object(placed(items, names))
        } else {
            v
        },
        _ => v,
    }
}

impl Json {
    /// The document with its members by name.
    pub fn with_names(&self, names: &Vec<&'static str>) -> (json: Json)
        ensures
            json@ == named(self@, names@),
    {
        if let Json::Array(items) = self {
            let ghost all = items_view(items@);
            proof {
                lemma_items_view(items@);
            }
            if items.len() <= names.len() {
                let mut members = Json::object();
                let mut i: usize = 0;
                assert(all.take(0) =~= Seq::<JsonView>::empty());
                while i < items.len()
                    invariant
                        i <= items.len() <= names.len(),
                        all == items_view(items@),
                        all.len() == items@.len(),
                        forall|k: int| 0 <= k < items@.len() ==> #[trigger] all[k] == items@[k]@,
                        members@ == JsonView::Object(placed(all.take(i as int), names@)),
                    decreases items.len() - i,
                {
                    assert(all.take(i + 1).drop_last() =~= all.take(i as int));
                    assert(all.take(i + 1).last() == items@[i as int]@);
                    members = members.with(names[i], items[i].copy());
                    i += 1;
                }
                assert(all.take(i as int) =~= all);
                return members;
            }
        }
        self.copy()
    }
}

/// `serde_json::Value`, a parsed document.
#[verifier::external_type_specification]
#[verifier::external_body]
pub struct ExValue(serde_json::Value);

/// The document that a text holds, or why it holds none.
pub uninterp spec fn reading(text: Seq<char>) -> Result<JsonView, Seq<char>>;

/// The document that a text holds, if it holds one.
pub open spec fn parsed(text: Seq<char>) -> Option<JsonView> {
    match reading(text) {
        Ok(v) => Some(v),
        Err(e) => None,
    }
}

/// Whether a document holds only integers, the negative ones marked as such, and
/// nests lists and objects at most `depth` deep.
pub open spec fn plain(v: JsonView, depth: nat) -> bool
    decreases depth,
{
    match v {
        JsonView::Number(JsonNumberView::Negative(n)) => n < 0,
        JsonView::Number(JsonNumberView::Other(t)) => false,
        JsonView::Array(items) => depth > 0 && forall|i: int|
            0 <= i < items.len() ==> plain(#[trigger] items[i], (depth - 1) as nat),
        JsonView::Object(fields) => depth > 0 && forall|k: Seq<char>|
            fields.dom().contains(k) ==> plain(#[trigger] fields[k], (depth - 1) as nat),
        _ => true,
    }
}

/// The text of a document.
pub uninterp spec fn written(document: JsonView) -> Seq<char>;

/// `serde_json::Value`: the same document as a plain value, variant by variant.
/// Nothing is claimed of it.
#[verifier::external_body]
fn of_value(value: serde_json::Value) -> (json: Json) {
    match value {
        serde_json::Value::Null => Json::Null,
        serde_json::Value::Bool(b) => Json::Bool(b),
        serde_json::Value::Number(n) => Json::Number(match (n.as_u64(), n.as_i64()) {
            (Some(u), _) => JsonNumber::Natural(u),
            (None, Some(i)) => JsonNumber::Negative(i),
            (None, None) => JsonNumber::Other(n.to_string()),
        }),
        serde_json::Value::String(s) => Json::Text(s),
        serde_json::Value::Array(a) => Json::Array(a.into_iter().map(of_value).collect()),
        serde_json::Value::Object(o) => Json::Object(
            o.into_iter().map(|(k, v)| (k, of_value(v))).collect()),
    }
}

/// `serde_json::Value`: the plain value as the same document, variant by
/// variant. Nothing is claimed of it.
#[verifier::external_body]
fn to_value(json: &Json) -> (value: serde_json::Value) {
    match json {
        Json::Null => serde_json::Value::Null,
        Json::Bool(b) => serde_json::Value::Bool(*b),
        Json::Number(JsonNumber::Natural(n)) => serde_json::Value::from(*n),
        Json::Number(JsonNumber::Negative(n)) => serde_json::Value::from(*n),
        Json::Number(JsonNumber::Other(t)) => serde_json::from_str(t).unwrap_or_default(),
        Json::Text(t) => serde_json::Value::from(t.as_str()),
        Json::Array(a) => serde_json::Value::Array(a.iter().map(to_value).collect()),
        Json::Object(o) => serde_json::Value::Object(
            o.iter().map(|(k, v)| (k.clone(), to_value(v))).collect()),
    }
}

/// What an attempt to read gave.
pub open spec fn read_view(document: Result<Json, String>) -> Result<JsonView, Seq<char>> {
    match document {
        Ok(j) => Ok(j@),
        Err(e) => Err(e@),
    }
}

/// `serde_json::from_str` into a `serde_json::Value`: the document that the
/// text holds, or the words of the error where it holds none. Which texts hold
/// which document is not said beyond that the text alone decides.
#[verifier::external_body]
pub(crate) fn read(text: &str) -> (document: Result<Json, String>)
    ensures
        read_view(document) == reading(text@),
{
    match serde_json::from_str::<serde_json::Value>(text) {
        Ok(v) => Ok(of_value(v)),
        Err(e) => Err(e.to_string()),
    }
}

/// The document that the text holds, if it holds one.
pub fn parse(text: &str) -> (json: Option<Json>)
    ensures
        (match json {
            Some(j) => Some(j@),
            None => None,
        }) == parsed(text@),
{
    match read(text) {
        Ok(json) => Some(json),
        Err(_) => None,
    }
}

/// `serde_json::to_string` of a `serde_json::Value`: the text of the document,
/// which the document alone decides. `serde_json::from_str` reads the document
/// back from it where its numbers are integers and it nests no deeper than the
/// reader follows, 127 levels.
#[verifier::external_body]
pub(crate) fn write(json: &Json) -> (text: String)
    ensures
        text@ == written(json@),
        plain(json@, 127) ==> parsed(text@) == Some(json@),
{
    to_value(json).to_string()
}

/// The text of a document on several lines.
pub uninterp spec fn written_pretty(document: JsonView) -> Seq<char>;

/// The `{:#}` form of a `serde_json::Value`, which is `serde_json::to_string_pretty`
/// of it: the text of the document on several lines, which the document alone
/// decides. `serde_json::from_str` reads the document back from it where it does
/// from `serde_json::to_string`.
#[verifier::external_body]
pub(crate) fn write_pretty(json: &Json) -> (text: String)
    ensures
        text@ == written_pretty(json@),
        plain(json@, 127) ==> parsed(text@) == Some(json@),
{
    format!("{:#}", to_value(json))
}

impl Json {
    /// The text of the document. It is read back as the same document where its numbers are
    /// integers and it nests no deeper than the reader follows.
    pub fn to_text(&self) -> (text: String)
        ensures
            text@ == written(self@),
            plain(self@, 127) ==> parsed(text@) == Some(self@),
    {
        write(self)
    }
}

impl JsonView {
    /// The member with this name; null where there is none.
    pub open spec fn at(self, name: Seq<char>) -> JsonView {
        match self.field(name) {
            Some(v) => v,
            None => JsonView::Null,
        }
    }
}

impl Json {
    /// The member with this name; null where there is none.
    pub fn at(&self, name: &str) -> (member: Json)
        ensures
            member@ == self@.at(name@),
    {
        match self.get(name) {
            Some(v) => v.copy(),
            None => Json::Null,
        }
    }
}

// ---------------------------------------------------------------------------
// What is put in is got out
// ---------------------------------------------------------------------------

/// A member that was put into an object is got out of it, in place of one with its name, and
/// every other member stays.
pub proof fn lemma_member_is_got(
    object: Json,
    name: &str,
    other: &str,
    value: Json,
    with: Json,
    got: Option<&Json>,
    rest: Option<&Json>,
    before: Option<&Json>,
)
    requires
        object@ is Object,
        name@ != other@,
        call_ensures(Json::with, (object, name, value), with),
        call_ensures(Json::get, (&with, name), got),
        call_ensures(Json::get, (&with, other), rest),
        call_ensures(Json::get, (&object, other), before),
    ensures
        got matches Some(v) && v@ == value@,
        match (rest, before) {
            (Some(a), Some(b)) => a@ == b@,
            (None, None) => true,
            _ => false,
        },
{
}

/// A member is read as what it is: a text as its characters, a natural number as its value and
/// a truth value as itself; as anything else it is not read.
pub proof fn lemma_member_is_read(
    v: Json,
    m: Map<Seq<char>, JsonView>,
    name: &str,
    words: Option<String>,
    number: Option<u64>,
    truth: Option<bool>,
)
    requires
        v@ == JsonView::Object(m),
        call_ensures(Json::get_text, (&v, name), words),
        call_ensures(Json::get_natural, (&v, name), number),
        call_ensures(Json::get_bool, (&v, name), truth),
    ensures
        !m.dom().contains(name@) ==> words is None && number is None && truth is None,
        m.dom().contains(name@) ==> match m[name@] {
            JsonView::Text(t) => (words matches Some(w) && w@ == t) && number is None
                && truth is None,
            JsonView::Number(JsonNumberView::Natural(n)) => words is None && number == Some(n)
                && truth is None,
            JsonView::Bool(b) => words is None && number is None && truth == Some(b),
            _ => words is None && number is None && truth is None,
        },
{
}

/// A text, a number and an object that are made are what they are made of.
pub proof fn lemma_documents_are_made(
    words: &str,
    n: u64,
    i: i64,
    a: Json,
    b: Json,
    c: Json,
    o: Json,
)
    requires
        call_ensures(Json::of_text, (words,), a),
        call_ensures(Json::of_natural, (n,), b),
        call_ensures(Json::of_integer, (i,), c),
        call_ensures(Json::object, (), o),
    ensures
        a@ == JsonView::Text(words@),
        b@ == JsonView::Number(JsonNumberView::Natural(n)),
        i >= 0 ==> c@ == JsonView::Number(JsonNumberView::Natural(i as u64)),
        i < 0 ==> c@ == JsonView::Number(JsonNumberView::Negative(i)),
        o@ == JsonView::Object(Map::empty()),
{
}

/// Members that are given in a list have the names of their places.
pub proof fn lemma_places_are_named(items: Seq<JsonView>, names: Seq<&'static str>, i: int)
    requires
        items.len() <= names.len(),
        0 <= i < items.len(),
        forall|a: int, b: int|
            0 <= a < b < names.len() ==> (#[trigger] names[a])@ != (#[trigger] names[b])@,
    ensures
        named(JsonView::Array(items), names) matches JsonView::Object(m) && m.dom().contains(
            names[i]@,
        ) && m[names[i]@] == items[i],
    decreases items.len(),
{
    let rest = items.drop_last();
    if i < rest.len() {
        lemma_places_are_named(rest, names, i);
        assert(names[i]@ != names[items.len() - 1]@);
    }
}

} // verus!
