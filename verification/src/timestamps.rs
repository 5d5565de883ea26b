//! Timestamps in documents: integers of nanoseconds in memory, RFC 3339 texts in the store.

use vstd::prelude::*;
use vstd::utf8::encode_utf8;

use crate::json::{
    fields_view, items_view, lemma_items, number_as_u64, number_from_u64, Json, JsonView, NumberView,
};
use crate::text::{same_text, starts_with};

verus! {

/// Whether a field of this name holds a timestamp.
pub open spec fn is_timestamp_key(key: Seq<char>) -> bool {
    key == "expire_time_ns"@ || "ts_"@.is_prefix_of(key)
}

/// Whether a field of this name holds a timestamp.
pub fn is_timestamp_field(key: &str) -> (is_timestamp: bool)
    ensures
        is_timestamp == is_timestamp_key(key@),
{
    same_text(key, "expire_time_ns") || starts_with(key, "ts_")
}

/// The text of the instant that lies `nanos` nanoseconds after the Unix epoch.
pub uninterp spec fn rfc3339_text(nanos: i64) -> Seq<char>;

/// The instant that an RFC 3339 text names: `None` where the text is no such text, else the
/// nanoseconds after the Unix epoch, `None` where an `i64` cannot hold them.
pub uninterp spec fn rfc3339_nanos(text: Seq<char>) -> Option<Option<i64>>;

/// `DateTime::from_timestamp_nanos` and `DateTime::to_rfc3339_opts` with nine digits of fraction
/// and `Z`: the text depends on the instant alone, is thirty bytes long, and reading it gives the
/// instant back.
#[verifier::external_body]
fn format_rfc3339(nanos: i64) -> (text: String)
    ensures
        text@ == rfc3339_text(nanos),
        rfc3339_nanos(text@) == Some(Some(nanos)),
        encode_utf8(text@).len() == 30,
{
    chrono::DateTime::<chrono::Utc>::from_timestamp_nanos(nanos)
        .to_rfc3339_opts(chrono::SecondsFormat::Nanos, true)
}

/// `DateTime::parse_from_rfc3339`, the instant taken by `DateTime::timestamp_nanos_opt`: both
/// depend on the text alone.
#[verifier::external_body]
fn parse_rfc3339(text: &str) -> (nanos: Option<Option<i64>>)
    ensures
        nanos == rfc3339_nanos(text@),
{
    match chrono::DateTime::parse_from_rfc3339(text) {
        Ok(instant) => Some(instant.with_timezone(&chrono::Utc).timestamp_nanos_opt()),
        Err(_) => None,
    }
}

/// The document with every field at any depth rewritten by `rule`: a field takes what the rule gives
/// for it, and where the rule gives nothing the field's own document is rewritten.
pub open spec fn rewritten(
    document: JsonView,
    rule: spec_fn(Seq<char>, JsonView) -> Option<JsonView>,
) -> JsonView
    decreases document,
{
    match document {
        JsonView::Array(items) => JsonView::Array(
            Seq::new(
                items.len(),
                |i: int|
                    if 0 <= i < items.len() {
                        rewritten(items[i], rule)
                    } else {
                        JsonView::Null
                    },
            ),
        ),
        JsonView::Object(fields) => JsonView::Object(
            Map::new(
                |key: Seq<char>| fields.dom().contains(key),
                |key: Seq<char>|
                    if !fields.dom().contains(key) {
                        JsonView::Null
                    } else if rule(key, fields[key]) is Some {
                        rule(key, fields[key])->0
                    } else {
                        rewritten(fields[key], rule)
                    },
            ),
        ),
        _ => document,
    }
}

/// What `rule` makes of one field.
pub open spec fn rewritten_field(
    key: Seq<char>,
    document: JsonView,
    rule: spec_fn(Seq<char>, JsonView) -> Option<JsonView>,
) -> JsonView {
    match rule(key, document) {
        Some(replacement) => replacement,
        None => rewritten(document, rule),
    }
}

/// A timestamp that is an integer becomes its text.
pub open spec fn stamp_rule() -> spec_fn(Seq<char>, JsonView) -> Option<JsonView> {
    |key: Seq<char>, document: JsonView|
        match document {
            JsonView::Number(NumberView::Unsigned(nanos)) if is_timestamp_key(key) => Some(
                JsonView::Text(rfc3339_text(nanos as i64)),
            ),
            _ => None,
        }
}

/// A timestamp that is an RFC 3339 text becomes its integer.
pub open spec fn unstamp_rule() -> spec_fn(Seq<char>, JsonView) -> Option<JsonView> {
    |key: Seq<char>, document: JsonView|
        match document {
            JsonView::Text(text) if is_timestamp_key(key) => match rfc3339_nanos(text) {
                Some(Some(nanos)) => Some(JsonView::Number(NumberView::Unsigned(nanos as u64))),
                _ => None,
            },
            _ => None,
        }
}

/// The document with its timestamps as texts.
pub open spec fn stamped(document: JsonView) -> JsonView {
    rewritten(document, stamp_rule())
}

/// The document with its timestamps as integers.
pub open spec fn unstamped(document: JsonView) -> JsonView {
    rewritten(document, unstamp_rule())
}

/// Whether every field of a document, at any depth, satisfies `test`.
pub open spec fn every_field(
    document: JsonView,
    test: spec_fn(Seq<char>, JsonView) -> bool,
) -> bool
    decreases document,
{
    match document {
        JsonView::Array(items) => forall|i: int|
            0 <= i < items.len() ==> every_field(#[trigger] items[i], test),
        JsonView::Object(fields) => forall|key: Seq<char>|
            #[trigger] fields.dom().contains(key) ==> test(key, fields[key]) && every_field(
                fields[key],
                test,
            ),
        _ => true,
    }
}

/// Whether no timestamp of a document is the text of an instant that no nanosecond count holds.
pub open spec fn in_range(document: JsonView) -> bool {
    every_field(document, in_range_test())
}

/// Whether one field is no timestamp out of range.
pub open spec fn in_range_test() -> spec_fn(Seq<char>, JsonView) -> bool {
    |key: Seq<char>, document: JsonView|
        match document {
            JsonView::Text(text) if is_timestamp_key(key) => rfc3339_nanos(text) != Some(None::<i64>),
            _ => true,
        }
}

/// Whether no timestamp of a document is an RFC 3339 text.
pub open spec fn without_dates(document: JsonView) -> bool {
    every_field(document, without_date_test())
}

/// Whether one field is no timestamp that is an RFC 3339 text.
pub open spec fn without_date_test() -> spec_fn(Seq<char>, JsonView) -> bool {
    |key: Seq<char>, document: JsonView|
        match document {
            JsonView::Text(text) if is_timestamp_key(key) => rfc3339_nanos(text) is None,
            _ => true,
        }
}

/// Whether the text of an instant is thirty bytes long and reads back as the instant.
pub open spec fn reads_back(nanos: i64) -> bool {
    &&& rfc3339_nanos(rfc3339_text(nanos)) == Some(Some(nanos))
    &&& encode_utf8(rfc3339_text(nanos)).len() == 30
}

/// Whether the texts of all timestamps of a document read back.
pub open spec fn timestamps_read_back(document: JsonView) -> bool {
    every_field(document, reads_back_test())
}

/// Whether the text of one timestamp reads back.
pub open spec fn reads_back_test() -> spec_fn(Seq<char>, JsonView) -> bool {
    |key: Seq<char>, document: JsonView|
        match document {
            JsonView::Number(NumberView::Unsigned(nanos)) if is_timestamp_key(key) => reads_back(
                nanos as i64,
            ),
            _ => true,
        }
}

/// Fields rewritten one by one make the rewritten object.
proof fn lemma_rewritten_fields(
    before: Seq<(String, Json)>,
    after: Seq<(String, Json)>,
    rule: spec_fn(Seq<char>, JsonView) -> Option<JsonView>,
)
    requires
        before.len() == after.len(),
        forall|i: int| 0 <= i < before.len() ==> (#[trigger] after[i]).0@ == before[i].0@,
        forall|i: int|
            0 <= i < before.len() ==> (#[trigger] after[i]).1@ == rewritten_field(
                before[i].0@,
                before[i].1@,
                rule,
            ),
    ensures
        JsonView::Object(fields_view(after)) == rewritten(
            JsonView::Object(fields_view(before)),
            rule,
        ),
    decreases before.len(),
{
    let old_fields = fields_view(before);
    let new_fields = fields_view(after);
    let result = rewritten(JsonView::Object(old_fields), rule)->Object_0;
    if before.len() > 0 {
        let old_rest = fields_view(before.drop_last());
        let rest = rewritten(JsonView::Object(old_rest), rule)->Object_0;
        assert(before.last() == before[before.len() - 1] && after.last() == after[after.len() - 1]);
        lemma_rewritten_fields(before.drop_last(), after.drop_last(), rule);
        assert(new_fields =~= result);
    } else {
        assert(new_fields =~= result);
    }
}

/// A key of an object stands in the list of its fields, and its last field there counts.
proof fn lemma_fields_last(fields: Seq<(String, Json)>, key: Seq<char>)
    requires
        fields_view(fields).dom().contains(key),
    ensures
        exists|i: int|
            #![trigger fields[i]]
            0 <= i < fields.len() && fields[i].0@ == key && fields_view(fields)[key] == fields[i].1@
                && forall|j: int| i < j < fields.len() ==> (#[trigger] fields[j]).0@ != key,
    decreases fields.len(),
{
    let last = fields.len() - 1;
    if fields.len() > 0 && fields[last].0@ == key {
        assert(fields_view(fields)[key] == fields[last].1@);
    } else if fields.len() > 0 {
        let rest = fields.drop_last();
        lemma_fields_last(rest, key);
        let i = choose|i: int|
            #![trigger rest[i]]
            0 <= i < rest.len() && rest[i].0@ == key && fields_view(rest)[key] == rest[i].1@
                && forall|j: int| i < j < rest.len() ==> (#[trigger] rest[j]).0@ != key;
        assert(fields[i] == rest[i]);
        assert forall|j: int| i < j < fields.len() implies (#[trigger] fields[j]).0@ != key by {
            if j < last {
                assert(fields[j] == rest[j]);
            }
        }
    }
}

/// The last field of its key is in the object.
proof fn lemma_last_field(fields: Seq<(String, Json)>, i: int)
    requires
        0 <= i < fields.len(),
        forall|j: int| i < j < fields.len() ==> (#[trigger] fields[j]).0@ != fields[i].0@,
    ensures
        fields_view(fields).dom().contains(fields[i].0@),
        fields_view(fields)[fields[i].0@] == fields[i].1@,
    decreases fields.len(),
{
    let rest = fields.drop_last();
    if i < rest.len() {
        assert(fields[rest.len() as int].0@ != fields[i].0@);
        assert forall|j: int| i < j < rest.len() implies (#[trigger] rest[j]).0@ != rest[i].0@ by {
            assert(rest[j] == fields[j]);
        }
        lemma_last_field(rest, i);
    }
}

/// A test that all fields of a list satisfy is satisfied by the object.
proof fn lemma_every_field(
    fields: Seq<(String, Json)>,
    test: spec_fn(Seq<char>, JsonView) -> bool,
)
    requires
        forall|i: int|
            0 <= i < fields.len() ==> test((#[trigger] fields[i]).0@, fields[i].1@) && every_field(
                fields[i].1@,
                test,
            ),
    ensures
        every_field(JsonView::Object(fields_view(fields)), test),
{
    let object = fields_view(fields);
    assert forall|key: Seq<char>| #[trigger] object.dom().contains(key) implies test(
        key,
        object[key],
    ) && every_field(object[key], test) by {
        lemma_fields_last(fields, key);
    }
}

/// A rule whose replacements hold no fields and are not replaced again changes a document once only.
proof fn lemma_rewritten_once(
    document: JsonView,
    rule: spec_fn(Seq<char>, JsonView) -> Option<JsonView>,
)
    requires
        forall|key: Seq<char>, d: JsonView|
            (#[trigger] rule(key, d) matches Some(r) ==> rule(key, r) is None && !(r is Array)
                && !(r is Object)),
        forall|key: Seq<char>, d: JsonView|
            d is Array || d is Object ==> #[trigger] rule(key, d) is None,
    ensures
        rewritten(rewritten(document, rule), rule) == rewritten(document, rule),
    decreases document,
{
    let once = rewritten(document, rule);
    let twice = rewritten(once, rule);
    match document {
        JsonView::Array(items) => {
            assert forall|i: int| 0 <= i < items.len() implies rewritten(
                #[trigger] once->Array_0[i],
                rule,
            ) == once->Array_0[i] by {
                lemma_rewritten_once(items[i], rule);
            }
            assert(twice->Array_0 =~= once->Array_0);
        },
        JsonView::Object(fields) => {
            assert forall|key: Seq<char>| #[trigger] fields.dom().contains(key) implies
                twice->Object_0[key] == once->Object_0[key] by {
                let field = fields[key];
                if rule(key, field) is None {
                    lemma_rewritten_once(field, rule);
                    assert(once->Object_0[key] == rewritten(field, rule));
                }
            }
            assert(twice->Object_0 =~= once->Object_0);
        },
        _ => {},
    }
}

/// Turning the timestamps of a document into texts again changes nothing.
pub proof fn stamping_again_changes_nothing(document: JsonView)
    ensures
        stamped(stamped(document)) == stamped(document),
{
    lemma_rewritten_once(document, stamp_rule());
}

/// Turning the timestamps of a document into integers again changes nothing.
pub proof fn unstamping_again_changes_nothing(document: JsonView)
    ensures
        unstamped(unstamped(document)) == unstamped(document),
{
    lemma_rewritten_once(document, unstamp_rule());
}

/// A document without timestamps among its fields, at any depth, stays as it is.
pub proof fn other_fields_stay(document: JsonView)
    requires
        every_field(document, |key: Seq<char>, d: JsonView| !is_timestamp_key(key)),
    ensures
        stamped(document) == document,
        unstamped(document) == document,
    decreases document,
{
    let test = |key: Seq<char>, d: JsonView| !is_timestamp_key(key);
    match document {
        JsonView::Array(items) => {
            assert forall|i: int| 0 <= i < items.len() implies stamped(#[trigger] items[i])
                == items[i] && unstamped(items[i]) == items[i] by {
                other_fields_stay(items[i]);
            }
            assert(stamped(document)->Array_0 =~= items);
            assert(unstamped(document)->Array_0 =~= items);
        },
        JsonView::Object(fields) => {
            assert forall|key: Seq<char>| #[trigger] fields.dom().contains(key) implies stamped(
                fields[key],
            ) == fields[key] && unstamped(fields[key]) == fields[key] && !is_timestamp_key(
                key,
            ) by {
                assert(test(key, fields[key]));
                other_fields_stay(fields[key]);
            }
            assert(stamped(document)->Object_0 =~= fields);
            assert(unstamped(document)->Object_0 =~= fields);
        },
        _ => {},
    }
}

/// A field holds a timestamp exactly where its name begins with `ts_` or is `expire_time_ns`.
pub proof fn timestamp_names(rest: Seq<char>, key: Seq<char>)
    ensures
        is_timestamp_key(seq!['t', 's', '_'] + rest),
        is_timestamp_key("expire_time_ns"@),
        is_timestamp_key(key) && key != "expire_time_ns"@ ==> key.len() >= 3 && key[0] == 't'
            && key[1] == 's' && key[2] == '_',
{
    reveal_strlit("ts_");
    let name = seq!['t', 's', '_'] + rest;
    assert(name.take(3) =~= "ts_"@);
    if is_timestamp_key(key) && key != "expire_time_ns"@ {
        assert(key.take(3) == "ts_"@);
        assert(key[0] == key.take(3)[0] && key[1] == key.take(3)[1] && key[2] == key.take(3)[2]);
    }
}

/// Turning timestamps into texts keeps every field and adds none: a timestamp that is an integer
/// becomes the text of its instant, and what stands in any other field is turned in its place.
pub proof fn integer_timestamps_become_texts(fields: Map<Seq<char>, JsonView>, key: Seq<char>)
    requires
        fields.dom().contains(key),
    ensures
        stamped(JsonView::Object(fields)) matches JsonView::Object(turned) && turned.dom()
            == fields.dom() && turned[key] == (match fields[key] {
            JsonView::Number(NumberView::Unsigned(nanos)) if is_timestamp_key(key) => JsonView::Text(
                rfc3339_text(nanos as i64),
            ),
            other => stamped(other),
        }),
{
    let turned = stamped(JsonView::Object(fields))->Object_0;
    assert(turned.dom() =~= fields.dom());
}

/// Turning timestamps into integers keeps every field and adds none: a timestamp that is the text of
/// an instant becomes the instant's integer, and what stands in any other field is turned in its
/// place.
pub proof fn text_timestamps_become_integers(fields: Map<Seq<char>, JsonView>, key: Seq<char>)
    requires
        fields.dom().contains(key),
    ensures
        unstamped(JsonView::Object(fields)) matches JsonView::Object(turned) && turned.dom()
            == fields.dom() && (match fields[key] {
            JsonView::Text(text) if is_timestamp_key(key) && rfc3339_nanos(text) is Some
                && rfc3339_nanos(text)->0 is Some => turned[key] == JsonView::Number(
                NumberView::Unsigned(rfc3339_nanos(text)->0->0 as u64),
            ),
            other => turned[key] == unstamped(other),
        }),
{
    let turned = unstamped(JsonView::Object(fields))->Object_0;
    assert(turned.dom() =~= fields.dom());
}

/// A list has as many documents after its timestamps were turned, each turned in its place.
pub proof fn lists_are_turned_item_by_item(items: Seq<JsonView>, i: int)
    requires
        0 <= i < items.len(),
    ensures
        stamped(JsonView::Array(items)) matches JsonView::Array(turned) && turned.len()
            == items.len() && turned[i] == stamped(items[i]),
        unstamped(JsonView::Array(items)) matches JsonView::Array(turned) && turned.len()
            == items.len() && turned[i] == unstamped(items[i]),
{
}

/// A document without documents in it stays as it is.
pub proof fn plain_values_stay(document: JsonView)
    requires
        match document {
            JsonView::Array(items) => items.len() == 0,
            JsonView::Object(fields) => fields.dom() == Set::<Seq<char>>::empty(),
            _ => true,
        },
    ensures
        stamped(document) == document,
        unstamped(document) == document,
        in_range(document),
        without_dates(document),
{
    match document {
        JsonView::Array(items) => {
            assert(stamped(document)->Array_0 =~= items);
            assert(unstamped(document)->Array_0 =~= items);
        },
        JsonView::Object(fields) => {
            assert(stamped(document)->Object_0 =~= fields);
            assert(unstamped(document)->Object_0 =~= fields);
        },
        _ => {},
    }
}

/// An object is within range exactly where all documents in it are, and no timestamp among its
/// fields is the text of an instant that no nanosecond count holds.
pub proof fn range_of_an_object(fields: Map<Seq<char>, JsonView>)
    ensures
        in_range(JsonView::Object(fields)) <==> forall|key: Seq<char>| #[trigger]
            fields.dom().contains(key) ==> in_range(fields[key]) && (is_timestamp_key(key) ==> (
            fields[key] matches JsonView::Text(text) ==> rfc3339_nanos(text) != Some(None::<i64>))),
{
    let whole = JsonView::Object(fields);
    if in_range(whole) {
        assert forall|key: Seq<char>| #[trigger] fields.dom().contains(key) implies in_range(
            fields[key],
        ) && (is_timestamp_key(key) ==> (fields[key] matches JsonView::Text(text)
            ==> rfc3339_nanos(text) != Some(None::<i64>))) by {
            assert(whole->Object_0.dom().contains(key));
            assert(in_range_test()(key, fields[key]));
        }
    } else {
        let key = choose|key: Seq<char>| #[trigger]
            whole->Object_0.dom().contains(key) && !(in_range_test()(key, fields[key])
                && every_field(fields[key], in_range_test()));
        assert(fields.dom().contains(key));
    }
}

/// A list is within range exactly where all documents in it are.
pub proof fn range_of_a_list(items: Seq<JsonView>)
    ensures
        in_range(JsonView::Array(items)) <==> forall|i: int|
            0 <= i < items.len() ==> in_range(#[trigger] items[i]),
{
    let list = JsonView::Array(items);
    if in_range(list) {
        assert forall|i: int| 0 <= i < items.len() implies in_range(#[trigger] items[i]) by {
            assert(every_field(list->Array_0[i], in_range_test()));
        }
    } else {
        let i = choose|i: int|
            0 <= i < items.len() && !every_field(#[trigger] list->Array_0[i], in_range_test());
        assert(!in_range(items[i]));
    }
}

/// An object is without dates exactly where all documents in it are, and no timestamp among its
/// fields is the text of an instant.
pub proof fn dates_of_an_object(fields: Map<Seq<char>, JsonView>)
    ensures
        without_dates(JsonView::Object(fields)) <==> forall|key: Seq<char>| #[trigger]
            fields.dom().contains(key) ==> without_dates(fields[key]) && (is_timestamp_key(key) ==> (
            fields[key] matches JsonView::Text(text) ==> rfc3339_nanos(text) is None)),
{
    let whole = JsonView::Object(fields);
    if without_dates(whole) {
        assert forall|key: Seq<char>| #[trigger] fields.dom().contains(key) implies without_dates(
            fields[key],
        ) && (is_timestamp_key(key) ==> (fields[key] matches JsonView::Text(text)
            ==> rfc3339_nanos(text) is None)) by {
            assert(whole->Object_0.dom().contains(key));
            assert(without_date_test()(key, fields[key]));
        }
    } else {
        let key = choose|key: Seq<char>| #[trigger]
            whole->Object_0.dom().contains(key) && !(without_date_test()(key, fields[key])
                && every_field(fields[key], without_date_test()));
        assert(fields.dom().contains(key));
    }
}

/// A list is without dates exactly where all documents in it are.
pub proof fn dates_of_a_list(items: Seq<JsonView>)
    ensures
        without_dates(JsonView::Array(items)) <==> forall|i: int|
            0 <= i < items.len() ==> without_dates(#[trigger] items[i]),
{
    let list = JsonView::Array(items);
    if without_dates(list) {
        assert forall|i: int| 0 <= i < items.len() implies without_dates(#[trigger] items[i]) by {
            assert(every_field(list->Array_0[i], without_date_test()));
        }
    } else {
        let i = choose|i: int|
            0 <= i < items.len() && !every_field(#[trigger] list->Array_0[i], without_date_test());
        assert(!without_dates(items[i]));
    }
}

/// Which way timestamps are turned.
#[derive(Clone, Copy)]
enum Direction {
    ToText,
    ToInteger,
}

/// What a direction makes of a field.
spec fn rule_of(direction: Direction) -> spec_fn(Seq<char>, JsonView) -> Option<JsonView> {
    match direction {
        Direction::ToText => stamp_rule(),
        Direction::ToInteger => unstamp_rule(),
    }
}

/// The integer in place of a timestamp that is a text: `instant` is what the text names, as
/// nanoseconds. The bits of a negative count are taken as they are.
pub fn integer_of_instant(instant: Option<Option<i64>>) -> (integer: Option<Json>)
    ensures
        match instant {
            Some(Some(nanos)) => integer matches Some(number) && number@ == JsonView::Number(
                NumberView::Unsigned(nanos as u64),
            ),
            _ => integer is None,
        },
{
    match instant {
        Some(Some(nanos)) => Some(
            Json::Number(number_from_u64(#[verifier::truncate] (nanos as u64))),
        ),
        _ => None,
    }
}

/// Turns the timestamps of a list of fields.
fn rewrite_fields(fields: &mut Vec<(String, Json)>, direction: Direction)
    ensures
        JsonView::Object(fields_view(final(fields)@)) == rewritten(
            JsonView::Object(fields_view(old(fields)@)),
            rule_of(direction),
        ),
        direction is ToText ==> every_field(
            JsonView::Object(fields_view(old(fields)@)),
            reads_back_test(),
        ),
    decreases old(fields)@, 0nat,
{
    let ghost before = fields@;
    let len = fields.len();
    for i in 0..len
        invariant
            len == before.len() == fields.len(),
            before == old(fields)@,
            forall|j: int| i <= j < len ==> fields[j] == before[j],
            forall|j: int| 0 <= j < i ==> (#[trigger] fields[j]).0@ == before[j].0@,
            forall|j: int|
                0 <= j < i ==> (#[trigger] fields[j]).1@ == rewritten_field(
                    before[j].0@,
                    before[j].1@,
                    rule_of(direction),
                ),
            direction is ToText ==> forall|j: int|
                0 <= j < i ==> reads_back_test()((#[trigger] before[j]).0@, before[j].1@)
                    && every_field(before[j].1@, reads_back_test()),
    {
        let (key, inside) = &mut fields[i];
        rewrite_field(key.as_str(), inside, direction);
    }
    proof {
        lemma_rewritten_fields(before, fields@, rule_of(direction));
        if direction is ToText {
            lemma_every_field(before, reads_back_test());
        }
    }
}

/// Turns the timestamps of one field.
fn rewrite_field(key: &str, value: &mut Json, direction: Direction)
    ensures
        final(value)@ == rewritten_field(key@, old(value)@, rule_of(direction)),
        direction is ToText ==> reads_back_test()(key@, old(value)@) && every_field(
            old(value)@,
            reads_back_test(),
        ),
    decreases *old(value), 1nat,
{
    if is_timestamp_field(key) {
        match direction {
            Direction::ToText => {
                if let Json::Number(number) = &*value {
                    if let Some(nanos) = number_as_u64(number) {
                        *value = Json::Text(format_rfc3339(#[verifier::truncate] (nanos as i64)));
                        return;
                    }
                }
            },
            Direction::ToInteger => {
                if let Json::Text(text) = &*value {
                    if let Some(integer) = integer_of_instant(parse_rfc3339(text.as_str())) {
                        *value = integer;
                        return;
                    }
                }
            },
        }
    }
    rewrite(value, direction);
}

/// Turns the timestamps of a list of documents.
fn rewrite_items(items: &mut Vec<Json>, direction: Direction)
    ensures
        JsonView::Array(items_view(final(items)@)) == rewritten(
            JsonView::Array(items_view(old(items)@)),
            rule_of(direction),
        ),
        direction is ToText ==> every_field(
            JsonView::Array(items_view(old(items)@)),
            reads_back_test(),
        ),
    decreases old(items)@, 0nat,
{
    let ghost before = items@;
    let len = items.len();
    for i in 0..len
        invariant
            len == before.len() == items.len(),
            before == old(items)@,
            forall|j: int| i <= j < len ==> items[j] == before[j],
            forall|j: int|
                0 <= j < i ==> (#[trigger] items[j])@ == rewritten(before[j]@, rule_of(direction)),
            direction is ToText ==> forall|j: int|
                0 <= j < i ==> every_field((#[trigger] before[j])@, reads_back_test()),
    {
        rewrite(&mut items[i], direction);
    }
    proof {
        lemma_items(before);
        lemma_items(items@);
        assert(items_view(items@) =~= rewritten(
            JsonView::Array(items_view(before)),
            rule_of(direction),
        )->Array_0);
    }
}

/// Turns the timestamps of a document.
fn rewrite(value: &mut Json, direction: Direction)
    ensures
        final(value)@ == rewritten(old(value)@, rule_of(direction)),
        direction is ToText ==> every_field(old(value)@, reads_back_test()),
    decreases *old(value), 0nat,
{
    match value {
        Json::Object(fields) => {
            rewrite_fields(fields, direction);
        },
        Json::Array(items) => {
            rewrite_items(items, direction);
        },
        _ => {},
    }
}

/// A document without dates whose timestamps read back is restored by turning them to and fro.
proof fn lemma_restored(document: JsonView)
    requires
        without_dates(document),
        timestamps_read_back(document),
    ensures
        unstamped(stamped(document)) == document,
        in_range(stamped(document)),
    decreases document,
{
    match document {
        JsonView::Array(items) => {
            let texts = stamped(document)->Array_0;
            assert forall|i: int| 0 <= i < items.len() implies unstamped(#[trigger] texts[i])
                == items[i] && in_range(texts[i]) by {
                lemma_restored(items[i]);
            }
            assert(unstamped(stamped(document))->Array_0 =~= items);
        },
        JsonView::Object(fields) => {
            let texts = stamped(document)->Object_0;
            let back = unstamped(stamped(document))->Object_0;
            assert forall|key: Seq<char>| #[trigger] texts.dom().contains(key) implies back[key]
                == fields[key] && in_range_test()(key, texts[key]) && in_range(texts[key]) by {
                let field = fields[key];
                if is_timestamp_key(key) && field is Number && field->Number_0 is Unsigned {
                    let nanos = field->Number_0->Unsigned_0;
                    assert(texts[key] == JsonView::Text(rfc3339_text(nanos as i64)));
                    assert((nanos as i64) as u64 == nanos) by (bit_vector);
                } else {
                    lemma_restored(field);
                }
            }
            assert(back =~= fields);
        },
        _ => {},
    }
}

/// Turns every timestamp of a document that is an integer into its RFC 3339 text.
///
/// A document in which no timestamp was such a text already is what `convert_timestamp_strings`
/// makes of the result.
pub fn convert_timestamps(value: &mut Json)
    ensures
        final(value)@ == stamped(old(value)@),
        timestamps_read_back(old(value)@),
        without_dates(old(value)@) ==> unstamped(final(value)@) == old(value)@ && in_range(
            final(value)@,
        ),
{
    rewrite(value, Direction::ToText);
    proof {
        if without_dates(old(value)@) {
            lemma_restored(old(value)@);
        }
    }
}

/// Turns every timestamp of a document that is an RFC 3339 text into its integer.
pub fn convert_timestamp_strings(value: &mut Json)
    requires
        in_range(old(value)@),
    ensures
        final(value)@ == unstamped(old(value)@),
{
    rewrite(value, Direction::ToInteger);
}

/// Whether no later field of a list has the key of the field at `at`.
fn is_last_of_key(fields: &Vec<(String, Json)>, at: usize) -> (is_last: bool)
    requires
        at < fields.len(),
    ensures
        is_last == (forall|j: int|
            at < j < fields.len() ==> (#[trigger] fields[j]).0@ != fields[at as int].0@),
{
    for j in at + 1..fields.len()
        invariant
            at < fields.len(),
            forall|k: int| at < k < j ==> (#[trigger] fields[k]).0@ != fields[at as int].0@,
    {
        if fields[j].0 == fields[at].0 {
            return false;
        }
    }
    true
}

/// Whether one field is no timestamp out of range, nor holds one.
fn field_in_range(key: &str, value: &Json) -> (fits: bool)
    ensures
        fits == (in_range_test()(key@, value@) && in_range(value@)),
    decreases value, 1nat,
{
    if let Json::Text(text) = value {
        if is_timestamp_field(key) {
            if let Some(None) = parse_rfc3339(text.as_str()) {
                return false;
            }
        }
    }
    timestamps_in_range(value)
}

/// Whether no timestamp of an object is out of range.
fn fields_in_range(fields: &Vec<(String, Json)>) -> (fits: bool)
    ensures
        fits == in_range(JsonView::Object(fields_view(fields@))),
    decreases fields@, 0nat,
{
    let ghost object = fields_view(fields@);
    for i in 0..fields.len()
        invariant
            object == fields_view(fields@),
            forall|j: int|
                0 <= j < i && (forall|k: int|
                    j < k < fields.len() ==> (#[trigger] fields[k]).0@ != fields[j].0@)
                    ==> in_range_test()((#[trigger] fields[j]).0@, fields[j].1@) && in_range(
                    fields[j].1@,
                ),
    {
        if is_last_of_key(fields, i) {
            proof {
                lemma_last_field(fields@, i as int);
            }
            if !field_in_range(fields[i].0.as_str(), &fields[i].1) {
                proof {
                    let whole = JsonView::Object(object);
                    if in_range(whole) {
                        assert(whole->Object_0.dom().contains(fields[i as int].0@));
                    }
                }
                return false;
            }
        }
    }
    assert forall|key: Seq<char>| #[trigger] object.dom().contains(key) implies in_range_test()(
        key,
        object[key],
    ) && in_range(object[key]) by {
        lemma_fields_last(fields@, key);
    }
    true
}

/// Whether no timestamp of a list of documents is out of range.
fn items_in_range(items: &Vec<Json>) -> (fits: bool)
    ensures
        fits == in_range(JsonView::Array(items_view(items@))),
    decreases items@, 0nat,
{
    proof {
        lemma_items(items@);
    }
    for i in 0..items.len()
        invariant
            items_view(items@).len() == items.len(),
            forall|j: int| 0 <= j < items.len() ==> #[trigger] items_view(items@)[j] == items[j]@,
            forall|j: int| 0 <= j < i ==> in_range(#[trigger] items_view(items@)[j]),
    {
        if !timestamps_in_range(&items[i]) {
            proof {
                let whole = JsonView::Array(items_view(items@));
                if in_range(whole) {
                    assert(every_field(whole->Array_0[i as int], in_range_test()));
                }
            }
            return false;
        }
    }
    true
}

/// Whether no timestamp of a document is the text of an instant that no nanosecond count holds.
pub fn timestamps_in_range(value: &Json) -> (fits: bool)
    ensures
        fits == in_range(value@),
    decreases value, 0nat,
{
    match value {
        Json::Object(fields) => fields_in_range(fields),
        Json::Array(items) => items_in_range(items),
        _ => true,
    }
}

} // verus!
