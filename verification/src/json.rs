//! JSON documents as plain values.

use vstd::prelude::*;

verus! {

/// The number type of `serde_json`, carried without looking inside.
#[verifier::external_type_specification]
#[verifier::external_body]
pub struct ExNumber(serde_json::Number);

/// The document type of `serde_json`, carried without looking inside.
#[verifier::external_type_specification]
#[verifier::external_body]
pub struct ExValue(serde_json::Value);

/// What a JSON number is.
pub enum NumberView {
    /// An integer that is at least zero.
    Unsigned(u64),
    /// An integer below zero.
    Negative(i64),
    /// Any other number, by the bits of its binary form.
    Float(u64),
}

/// What a JSON document is.
pub enum JsonView {
    Null,
    Bool(bool),
    Number(NumberView),
    Text(Seq<char>),
    Array(Seq<JsonView>),
    Object(Map<Seq<char>, JsonView>),
}

/// A JSON document.
///
/// An object is the list of its fields; where a key stands twice, the later field counts.
#[derive(Debug, PartialEq)]
pub enum Json {
    Null,
    Bool(bool),
    Number(serde_json::Number),
    Text(String),
    Array(Vec<Json>),
    Object(Vec<(String, Json)>),
}

/// What a number of `serde_json` holds.
pub uninterp spec fn number_view(number: serde_json::Number) -> NumberView;

/// What a document of `serde_json` holds.
pub uninterp spec fn value_view(value: serde_json::Value) -> JsonView;

/// What `document` is.
pub open spec fn json_view(document: Json) -> JsonView
    decreases document,
{
    match document {
        Json::Null => JsonView::Null,
        Json::Bool(b) => JsonView::Bool(b),
        Json::Number(n) => JsonView::Number(number_view(n)),
        Json::Text(s) => JsonView::Text(s@),
        Json::Array(items) => JsonView::Array(items_view(items@)),
        Json::Object(fields) => JsonView::Object(fields_view(fields@)),
    }
}

/// What each document of a list is.
pub open spec fn items_view(items: Seq<Json>) -> Seq<JsonView>
    decreases items,
{
    Seq::new(
        items.len(),
        |i: int|
            if 0 <= i < items.len() {
                json_view(items[i])
            } else {
                JsonView::Null
            },
    )
}

/// The object that a list of fields describes.
pub open spec fn fields_view(fields: Seq<(String, Json)>) -> Map<Seq<char>, JsonView>
    decreases fields,
{
    if fields.len() == 0 {
        Map::empty()
    } else {
        fields_view(fields.drop_last()).insert(fields.last().0@, json_view(fields.last().1))
    }
}

impl View for Json {
    type V = JsonView;

    open spec fn view(&self) -> JsonView {
        json_view(*self)
    }
}

/// `Number::as_u64`: gives the integer of a number that is one of at least zero, and `None` of any
/// other number.
#[verifier::external_body]
pub(crate) fn number_as_u64(number: &serde_json::Number) -> (integer: Option<u64>)
    ensures
        integer == (match number_view(*number) {
            NumberView::Unsigned(n) => Some(n),
            _ => None,
        }),
{
    number.as_u64()
}

/// `Number::from(u64)`: makes a number that holds the given integer.
#[verifier::external_body]
pub(crate) fn number_from_u64(integer: u64) -> (number: serde_json::Number)
    ensures
        number_view(number) == NumberView::Unsigned(integer),
{
    serde_json::Number::from(integer)
}

/// One level of a `serde_json` document: its kind, and the documents directly inside it.
pub enum Node {
    Null,
    Bool(bool),
    Number(serde_json::Number),
    Text(String),
    Array(Vec<serde_json::Value>),
    Object(Vec<(String, serde_json::Value)>),
}

/// What each `serde_json` document of a list is.
pub open spec fn values_view(values: Seq<serde_json::Value>) -> Seq<JsonView> {
    Seq::new(values.len(), |i: int| value_view(values[i]))
}

/// The object that a list of `serde_json` fields describes.
pub open spec fn value_fields_view(fields: Seq<(String, serde_json::Value)>) -> Map<
    Seq<char>,
    JsonView,
>
    decreases fields.len(),
{
    if fields.len() == 0 {
        Map::empty()
    } else {
        value_fields_view(fields.drop_last()).insert(fields.last().0@, value_view(fields.last().1))
    }
}

/// Whether no key stands twice in a list of `serde_json` fields.
pub open spec fn distinct_keys(fields: Seq<(String, serde_json::Value)>) -> bool {
    forall|i: int, j: int|
        0 <= i < j < fields.len() ==> #[trigger] fields[i].0@ != #[trigger] fields[j].0@
}

/// What the document with this outermost level is.
pub open spec fn node_view(node: Node) -> JsonView {
    match node {
        Node::Null => JsonView::Null,
        Node::Bool(b) => JsonView::Bool(b),
        Node::Number(n) => JsonView::Number(number_view(n)),
        Node::Text(s) => JsonView::Text(s@),
        Node::Array(items) => JsonView::Array(values_view(items@)),
        Node::Object(fields) => JsonView::Object(value_fields_view(fields@)),
    }
}

/// The variants of `serde_json::Value`: hands out the outermost level of a document, an object's
/// fields through `Map::into_iter`, each key once.
#[verifier::external_body]
pub(crate) fn node_from_value(value: serde_json::Value) -> (node: Node)
    ensures
        node_view(node) == value_view(value),
        node matches Node::Object(fields) ==> distinct_keys(fields@),
{
    match value {
        serde_json::Value::Null => Node::Null,
        serde_json::Value::Bool(b) => Node::Bool(b),
        serde_json::Value::Number(n) => Node::Number(n),
        serde_json::Value::String(s) => Node::Text(s),
        serde_json::Value::Array(items) => Node::Array(items),
        serde_json::Value::Object(fields) => Node::Object(fields.into_iter().collect()),
    }
}

/// The variants of `serde_json::Value`: makes the document with the given outermost level, an
/// object through `Map::from_iter`, in which a later field replaces an earlier one of its key.
#[verifier::external_body]
pub(crate) fn value_from_node(node: Node) -> (value: serde_json::Value)
    ensures
        value_view(value) == node_view(node),
{
    match node {
        Node::Null => serde_json::Value::Null,
        Node::Bool(b) => serde_json::Value::Bool(b),
        Node::Number(n) => serde_json::Value::Number(n),
        Node::Text(s) => serde_json::Value::String(s),
        Node::Array(items) => serde_json::Value::Array(items),
        Node::Object(fields) => serde_json::Value::Object(fields.into_iter().collect()),
    }
}

/// The fields of an object whose keys are distinct are all in it.
proof fn lemma_distinct_fields(fields: Seq<(String, serde_json::Value)>, i: int)
    requires
        distinct_keys(fields),
        0 <= i < fields.len(),
    ensures
        value_fields_view(fields).dom().finite(),
        value_fields_view(fields).dom().contains(fields[i].0@),
        value_fields_view(fields)[fields[i].0@] == value_view(fields[i].1),
    decreases fields.len(),
{
    let rest = fields.drop_last();
    if rest.len() > 0 {
        lemma_distinct_fields(rest, if i < rest.len() { i } else { 0 });
    } else {
        assert(value_fields_view(rest) == Map::<Seq<char>, JsonView>::empty());
    }
}

/// What a document added to a list adds to what the list is.
pub proof fn lemma_items_push(items: Seq<Json>)
    ensures
        forall|item: Json| #[trigger]
            items_view(items.push(item)) == items_view(items).push(json_view(item)),
{
    assert forall|item: Json| #[trigger]
        items_view(items.push(item)) == items_view(items).push(json_view(item)) by {
        assert(items_view(items.push(item)) =~= items_view(items).push(json_view(item)));
    }
}

/// What the documents of a list are, one by one.
pub proof fn lemma_items(items: Seq<Json>)
    ensures
        items_view(items).len() == items.len(),
        forall|i: int|
            0 <= i < items.len() ==> #[trigger] items_view(items)[i] == json_view(items[i]),
{
}

/// Turns a `serde_json` document into a plain one.
pub fn json_from_value(value: serde_json::Value) -> (document: Json)
    ensures
        document@ == value_view(value),
    decreases value_view(value),
{
    let ghost whole = value_view(value);
    match node_from_value(value) {
        Node::Null => Json::Null,
        Node::Bool(b) => Json::Bool(b),
        Node::Number(n) => Json::Number(n),
        Node::Text(s) => Json::Text(s),
        Node::Array(items) => {
            let mut documents: Vec<Json> = Vec::new();
            let ghost inner = items@;
            for item in it: items
                invariant
                    it.seq() == inner,
                    whole == value_view(value),
                    whole == JsonView::Array(values_view(inner)),
                    items_view(documents@) == values_view(inner).take(it.index()),
            {
                proof {
                    assert(values_view(inner)[it.index()] == value_view(item));
                    assert(decreases_to!(whole => whole->Array_0));
                    assert(decreases_to!(whole->Array_0 => whole->Array_0[it.index()]));
                    lemma_items_push(documents@);
                }
                documents.push(json_from_value(item));
            }
            assert(values_view(inner).take(inner.len() as int) == values_view(inner));
            Json::Array(documents)
        },
        Node::Object(fields) => {
            let mut documents: Vec<(String, Json)> = Vec::new();
            let ghost inner = fields@;
            for field in it: fields
                invariant
                    it.seq() == inner,
                    distinct_keys(inner),
                    whole == value_view(value),
                    whole == JsonView::Object(value_fields_view(inner)),
                    fields_view(documents@) == value_fields_view(inner.take(it.index())),
            {
                proof {
                    lemma_distinct_fields(inner, it.index());
                    assert(decreases_to!(whole => whole->Object_0));
                    assert(decreases_to!(whole->Object_0 => whole->Object_0[field.0@]));
                    assert(inner.take(it.index() + 1).drop_last() == inner.take(it.index()));
                }
                let ghost before = documents@;
                let (key, inside) = field;
                documents.push((key, json_from_value(inside)));
                assert(documents@.drop_last() == before);
            }
            assert(inner.take(inner.len() as int) == inner);
            Json::Object(documents)
        },
    }
}

/// Turns a plain document into one of `serde_json`.
pub fn value_from_json(document: Json) -> (value: serde_json::Value)
    ensures
        value_view(value) == document@,
    decreases document,
{
    match document {
        Json::Null => value_from_node(Node::Null),
        Json::Bool(b) => value_from_node(Node::Bool(b)),
        Json::Number(n) => value_from_node(Node::Number(n)),
        Json::Text(s) => value_from_node(Node::Text(s)),
        Json::Array(items) => {
            let mut values: Vec<serde_json::Value> = Vec::new();
            let ghost inner = items@;
            for item in it: items
                invariant
                    it.seq() == inner,
                    document matches Json::Array(all) && all@ == inner,
                    values_view(values@) == items_view(inner).take(it.index()),
            {
                let ghost before = values@;
                values.push(value_from_json(item));
                proof {
                    lemma_items(inner);
                    assert(values_view(values@) == values_view(before).push(json_view(item)));
                }
            }
            proof {
                lemma_items(inner);
                assert(items_view(inner).take(inner.len() as int) == items_view(inner));
            }
            value_from_node(Node::Array(values))
        },
        Json::Object(fields) => {
            let mut values: Vec<(String, serde_json::Value)> = Vec::new();
            let ghost inner = fields@;
            for field in it: fields
                invariant
                    it.seq() == inner,
                    document matches Json::Object(all) && all@ == inner,
                    value_fields_view(values@) == fields_view(inner.take(it.index())),
            {
                let ghost before = values@;
                let (key, inside) = field;
                values.push((key, value_from_json(inside)));
                proof {
                    assert(values@.drop_last() == before);
                    assert(inner.take(it.index() + 1).drop_last() == inner.take(it.index()));
                }
            }
            assert(inner.take(inner.len() as int) == inner);
            value_from_node(Node::Object(values))
        },
    }
}

/// Whether two JSON numbers are the same: the two zeros of the floats are.
pub open spec fn same_number(a: NumberView, b: NumberView) -> bool {
    match (a, b) {
        (NumberView::Float(x), NumberView::Float(y)) => x == y || (is_zero(x) && is_zero(y)),
        _ => a == b,
    }
}

/// Whether the bits of a float are those of zero, with either sign.
pub open spec fn is_zero(bits: u64) -> bool {
    bits == 0 || bits == 0x8000_0000_0000_0000
}

/// Whether two JSON documents are the same.
pub open spec fn same_json(a: JsonView, b: JsonView) -> bool
    decreases a,
{
    match (a, b) {
        (JsonView::Number(x), JsonView::Number(y)) => same_number(x, y),
        (JsonView::Array(x), JsonView::Array(y)) => {
            &&& x.len() == y.len()
            &&& forall|i: int| 0 <= i < x.len() ==> same_json(#[trigger] x[i], y[i])
        },
        (JsonView::Object(x), JsonView::Object(y)) => {
            &&& x.dom() == y.dom()
            &&& forall|key: Seq<char>| #[trigger]
                x.dom().contains(key) ==> same_json(x[key], y[key])
        },
        _ => a == b,
    }
}

/// Every document is the same as itself.
pub proof fn document_is_itself(document: JsonView)
    ensures
        same_json(document, document),
    decreases document,
{
    match document {
        JsonView::Array(items) => {
            assert forall|i: int| 0 <= i < items.len() implies same_json(
                #[trigger] items[i],
                items[i],
            ) by {
                document_is_itself(items[i]);
            }
        },
        JsonView::Object(fields) => {
            assert forall|key: Seq<char>| #[trigger] fields.dom().contains(key) implies same_json(
                fields[key],
                fields[key],
            ) by {
                document_is_itself(fields[key]);
            }
        },
        _ => {},
    }
}

/// Whether no number of a document is a zero with a sign: a float whose bits are those of zero.
pub open spec fn without_zero_floats(document: JsonView) -> bool
    decreases document,
{
    match document {
        JsonView::Number(NumberView::Float(bits)) => !is_zero(bits),
        JsonView::Array(items) => forall|i: int|
            0 <= i < items.len() ==> without_zero_floats(#[trigger] items[i]),
        JsonView::Object(fields) => forall|key: Seq<char>| #[trigger]
            fields.dom().contains(key) ==> without_zero_floats(fields[key]),
        _ => true,
    }
}

/// Documents are the same only where they are equal, but for the sign of zeros.
pub proof fn same_documents_are_equal(a: JsonView, b: JsonView)
    requires
        same_json(a, b),
        without_zero_floats(a),
    ensures
        a == b,
    decreases a,
{
    match (a, b) {
        (JsonView::Array(x), JsonView::Array(y)) => {
            assert forall|i: int| 0 <= i < x.len() implies #[trigger] x[i] == y[i] by {
                same_documents_are_equal(x[i], y[i]);
            }
            assert(x =~= y);
        },
        (JsonView::Object(x), JsonView::Object(y)) => {
            assert forall|key: Seq<char>| #[trigger] x.dom().contains(key) implies x[key]
                == y[key] by {
                same_documents_are_equal(x[key], y[key]);
            }
            assert(x =~= y);
        },
        _ => {},
    }
}

/// Being the same goes both ways.
pub proof fn same_documents_go_both_ways(a: JsonView, b: JsonView)
    ensures
        same_json(a, b) ==> same_json(b, a),
    decreases a,
{
    match (a, b) {
        (JsonView::Array(x), JsonView::Array(y)) => {
            if same_json(a, b) {
                assert forall|i: int| 0 <= i < y.len() implies same_json(#[trigger] y[i], x[i]) by {
                    assert(same_json(x[i], y[i]));
                    same_documents_go_both_ways(x[i], y[i]);
                }
            }
        },
        (JsonView::Object(x), JsonView::Object(y)) => {
            if same_json(a, b) {
                assert forall|key: Seq<char>| #[trigger] y.dom().contains(key) implies same_json(
                    y[key],
                    x[key],
                ) by {
                    assert(x.dom().contains(key));
                    same_documents_go_both_ways(x[key], y[key]);
                }
            }
        },
        _ => {},
    }
}

/// What a document is: nothing that it holds is left out or changed.
pub proof fn documents_are_whole(document: Json)
    ensures
        match document {
            Json::Null => document@ is Null,
            Json::Bool(b) => document@ == JsonView::Bool(b),
            Json::Number(n) => document@ == JsonView::Number(number_view(n)),
            Json::Text(s) => document@ == JsonView::Text(s@),
            Json::Array(items) => document@ matches JsonView::Array(views) && views.len()
                == items@.len() && forall|i: int|
                0 <= i < items@.len() ==> #[trigger] views[i] == items@[i]@,
            Json::Object(fields) => document@ matches JsonView::Object(views) && views
                == fields_view(fields@),
        },
{
}

/// A field added to an object is there, in place of an earlier one of its key, and all others stay.
pub proof fn added_field_counts(
    fields: Seq<(String, Json)>,
    field: (String, Json),
    key: Seq<char>,
)
    ensures
        fields_view(fields.push(field)).dom().contains(field.0@),
        fields_view(fields.push(field))[field.0@] == field.1@,
        key != field.0@ ==> fields_view(fields.push(field)).dom().contains(key) == fields_view(
            fields,
        ).dom().contains(key),
        key != field.0@ && fields_view(fields).dom().contains(key) ==> fields_view(
            fields.push(field),
        )[key] == fields_view(fields)[key],
        fields_view(Seq::empty()).dom() == Set::<Seq<char>>::empty(),
{
    assert(fields.push(field).drop_last() =~= fields);
    assert(fields_view(Seq::empty()).dom() =~= Set::<Seq<char>>::empty());
}

/// `Value::eq`: two documents are equal where they are the same kind with equal contents; of
/// floats, plus and minus zero are equal.
#[verifier::external_body]
pub(crate) fn values_equal(a: &serde_json::Value, b: &serde_json::Value) -> (equal: bool)
    ensures
        equal == same_json(value_view(*a), value_view(*b)),
{
    a == b
}

} // verus!
