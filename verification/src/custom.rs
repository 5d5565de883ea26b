//! Loads of custom data: all records of a data type, by the time of their creation.

use vstd::prelude::*;

use crate::error::{ErrorView, QueryError};
use crate::json::{
    document_is_itself, json_view, same_json, value_from_json, value_view, values_equal, Json,
    JsonView,
};
use crate::keys::{collection_pattern, pattern_of, DatabaseQueries, CUSTOM};
use crate::scan::{scan_start, KeyScan};
use crate::sort::{comes_before, sort_by_date};
use crate::text::{chars_of, same_text};

verus! {

/// A type of custom data.
#[derive(Debug, PartialEq)]
pub struct DataType {
    /// The name, which may have a path of names before it, parted by `:` or `.`.
    pub name: String,
    /// What the data is of.
    pub identifier: Option<String>,
    /// Further properties, where there are any; the inner `None` of ones without a JSON form.
    pub metadata: Option<Option<Json>>,
}

/// What a `DataType` is.
pub struct DataTypeView {
    pub name: Seq<char>,
    pub identifier: Option<Seq<char>>,
    pub metadata: Option<Option<JsonView>>,
}

/// What metadata that may be missing is.
pub open spec fn metadata_view(metadata: Option<Option<Json>>) -> Option<Option<JsonView>> {
    match metadata {
        None => None,
        Some(None) => Some(None),
        Some(Some(document)) => Some(Some(json_view(document))),
    }
}

impl View for DataType {
    type V = DataTypeView;

    open spec fn view(&self) -> DataTypeView {
        DataTypeView {
            name: self.name@,
            identifier: match self.identifier {
                Some(text) => Some(text@),
                None => None,
            },
            metadata: metadata_view(self.metadata),
        }
    }
}

/// What stands under one key of custom data.
#[derive(Debug, PartialEq)]
pub enum CustomRow {
    /// Nothing.
    Missing,
    /// No custom data; holds why.
    Invalid(QueryError),
    /// A record of this type, made at this time.
    Record { data_type: DataType, ts_init: u64 },
}

/// What a `CustomRow` is.
pub enum CustomRowView {
    Missing,
    Invalid(ErrorView),
    Record { data_type: DataTypeView, ts_init: u64 },
}

impl View for CustomRow {
    type V = CustomRowView;

    open spec fn view(&self) -> CustomRowView {
        match self {
            CustomRow::Missing => CustomRowView::Missing,
            CustomRow::Invalid(error) => CustomRowView::Invalid(error@),
            CustomRow::Record { data_type, ts_init } => CustomRowView::Record {
                data_type: data_type@,
                ts_init: *ts_init,
            },
        }
    }
}

/// What each row of a list is.
pub open spec fn custom_rows_view(rows: Seq<CustomRow>) -> Seq<CustomRowView> {
    Seq::new(rows.len(), |i: int| rows[i]@)
}

/// Whether a character parts the names of a path.
pub open spec fn parts_names(c: char) -> bool {
    c == ':' || c == '.'
}

/// The last name of a path of names.
pub open spec fn short_name(name: Seq<char>) -> Seq<char>
    decreases name.len(),
{
    if name.len() == 0 || parts_names(name.last()) {
        Seq::empty()
    } else {
        short_name(name.drop_last()).push(name.last())
    }
}

/// The last name of a path is what follows the last character that parts names, where there is
/// one, else the whole path.
pub proof fn short_name_is_last(name: Seq<char>)
    ensures
        short_name(name).len() <= name.len(),
        short_name(name) == name.skip(name.len() - short_name(name).len()),
        forall|i: int|
            name.len() - short_name(name).len() <= i < name.len() ==> #[trigger] name[i] != ':'
                && name[i] != '.',
        short_name(name).len() < name.len() ==> ({
            let c = name[name.len() - short_name(name).len() - 1];
            c == ':' || c == '.'
        }),
    decreases name.len(),
{
    if name.len() > 0 && !parts_names(name.last()) {
        let rest = name.drop_last();
        short_name_is_last(rest);
        let start = name.len() - short_name(name).len();
        assert(short_name(name) =~= name.skip(start));
        assert forall|i: int| start <= i < name.len() implies !parts_names(
            #[trigger] name[i],
        ) by {
            if i < rest.len() {
                assert(rest[i] == name[i]);
            }
        }
        if start > 0 {
            assert(rest[start - 1] == name[start - 1]);
        }
    } else {
        assert(short_name(name) =~= name.skip(name.len() as int));
    }
}

/// An identifier; a missing one is empty.
pub open spec fn identifier_text(identifier: Option<Seq<char>>) -> Seq<char> {
    match identifier {
        Some(text) => text,
        None => Seq::empty(),
    }
}

/// Whether two metadata are the same.
pub open spec fn same_metadata(
    a: Option<Option<JsonView>>,
    b: Option<Option<JsonView>>,
) -> bool {
    match (a, b) {
        (Some(Some(x)), Some(Some(y))) => same_json(x, y),
        _ => a == b,
    }
}

/// Whether a stored record is of the requested type: its name is the requested one, whole or the
/// last of its path, and identifier and metadata are the same.
pub open spec fn is_requested(request: DataTypeView, stored: DataTypeView) -> bool {
    &&& stored.name == request.name || stored.name == short_name(request.name)
    &&& identifier_text(stored.identifier) == identifier_text(request.identifier)
    &&& same_metadata(request.metadata, stored.metadata)
}

/// Whether a row is a record of the requested type.
pub open spec fn row_is_requested(request: DataTypeView, row: CustomRowView) -> bool {
    row matches CustomRowView::Record { data_type, .. } && is_requested(request, data_type)
}

/// Why the first row that is no custom data is none.
pub open spec fn first_invalid(rows: Seq<CustomRowView>) -> Option<ErrorView>
    decreases rows.len(),
{
    if rows.len() == 0 {
        None
    } else if first_invalid(rows.drop_last()) is Some {
        first_invalid(rows.drop_last())
    } else {
        match rows.last() {
            CustomRowView::Invalid(error) => Some(error),
            _ => None,
        }
    }
}

/// When the record of a row was made, with the position of the row.
pub open spec fn dated(rows: Seq<CustomRowView>, position: usize) -> (u64, usize) {
    (rows[position as int]->ts_init, position)
}

/// Whether `found` are the rows of the requested type, earliest first, those of one time in the
/// order of their rows.
pub open spec fn is_selection(
    found: Seq<usize>,
    rows: Seq<CustomRowView>,
    request: DataTypeView,
) -> bool {
    &&& forall|p: usize| #[trigger]
        found.contains(p) <==> p < rows.len() && row_is_requested(request, rows[p as int])
    &&& forall|i: int, j: int|
        0 <= i < j < found.len() ==> comes_before(
            dated(rows, #[trigger] found[i]),
            dated(rows, #[trigger] found[j]),
        )
}

/// There is one selection only.
pub proof fn selection_is_unique(
    a: Seq<usize>,
    b: Seq<usize>,
    rows: Seq<CustomRowView>,
    request: DataTypeView,
)
    requires
        is_selection(a, rows, request),
        is_selection(b, rows, request),
    ensures
        a == b,
    decreases a.len(),
{
    lemma_same_start(a, b, rows, request, a.len());
    lemma_same_start(b, a, rows, request, b.len());
    assert(a =~= b);
}

/// Each selection begins as any other does.
proof fn lemma_same_start(
    a: Seq<usize>,
    b: Seq<usize>,
    rows: Seq<CustomRowView>,
    request: DataTypeView,
    len: nat,
)
    requires
        is_selection(a, rows, request),
        is_selection(b, rows, request),
        len <= a.len(),
    ensures
        len <= b.len(),
        forall|i: int| 0 <= i < len ==> a[i] == b[i],
    decreases len,
{
    if len > 0 {
        let last = len - 1;
        lemma_same_start(a, b, rows, request, last as nat);
        assert(a.contains(a[last]));
        assert(b.contains(a[last]));
        let k = b.index_of(a[last]);
        if k < last {
            assert(b[k] == a[k]);
            assert(comes_before(dated(rows, a[k]), dated(rows, a[last])));
        }
        assert(b.contains(b[last]));
        assert(a.contains(b[last]));
        let m = a.index_of(b[last]);
        if m < last {
            assert(b[m] == a[m]);
            assert(comes_before(dated(rows, b[m]), dated(rows, b[last])));
        }
        if k > last && m > last {
            assert(comes_before(dated(rows, b[last]), dated(rows, b[k])));
            assert(comes_before(dated(rows, a[last]), dated(rows, a[m])));
        }
    }
}

/// The rows that a load hands out are records of the requested type and nothing else: each is asked
/// for by its name, whole or without the path before its last name, and has the very identifier and
/// the very metadata of the request, a missing identifier being an empty one.
pub proof fn found_records_are_requested(
    found: Seq<usize>,
    rows: Seq<CustomRowView>,
    request: DataTypeView,
    i: int,
)
    requires
        is_selection(found, rows, request),
        0 <= i < found.len(),
    ensures
        found[i] < rows.len(),
        rows[found[i] as int] matches CustomRowView::Record { data_type: stored, .. } && {
            &&& stored.name == request.name || (stored.name.len() <= request.name.len()
                && stored.name == request.name.skip(request.name.len() - stored.name.len()) && (
            stored.name.len() < request.name.len() ==> {
                let c = request.name[request.name.len() - stored.name.len() - 1];
                c == ':' || c == '.'
            }) && !stored.name.contains(':') && !stored.name.contains('.'))
            &&& stored.identifier == request.identifier || (match (
                stored.identifier,
                request.identifier,
            ) {
                (Some(text), None) => text.len() == 0,
                (None, Some(text)) => text.len() == 0,
                _ => false,
            })
            &&& stored.metadata == request.metadata || (match (
                stored.metadata,
                request.metadata,
            ) {
                (Some(Some(a)), Some(Some(b))) => same_json(b, a),
                _ => false,
            })
        },
{
    assert(found.contains(found[i]));
    let stored = rows[found[i] as int]->data_type;
    short_name_is_last(request.name);
    if stored.name != request.name {
        let short = stored.name;
        let start = request.name.len() - short.len();
        assert forall|k: int| 0 <= k < short.len() implies short[k] != ':' && short[k] != '.' by {
            assert(!parts_names(request.name[start + k]));
        }
    }
    if identifier_text(stored.identifier).len() == 0 {
        assert(identifier_text(stored.identifier) =~= Seq::empty());
        if let Some(text) = stored.identifier {
            assert(text =~= Seq::empty());
        }
        if let Some(text) = request.identifier {
            assert(text =~= Seq::empty());
        }
    }
}

/// A stored record with the identifier and the metadata of the request is found wherever its name
/// is the requested one.
pub proof fn records_of_the_whole_name_are_found(
    found: Seq<usize>,
    rows: Seq<CustomRowView>,
    request: DataTypeView,
    p: usize,
)
    requires
        is_selection(found, rows, request),
        p < rows.len(),
        rows[p as int] matches CustomRowView::Record { data_type: stored, .. } && stored.name
            == request.name && stored.identifier == request.identifier && (stored.metadata
            == request.metadata || (match (request.metadata, stored.metadata) {
            (Some(Some(x)), Some(Some(y))) => same_json(x, y),
            _ => false,
        })),
    ensures
        found.contains(p),
{
    if let Some(Some(document)) = request.metadata {
        document_is_itself(document);
    }
}

/// A stored record with the identifier and the metadata of the request is found wherever its name,
/// which has no path before it, is the last of the requested path.
pub proof fn records_of_the_last_name_are_found(
    found: Seq<usize>,
    rows: Seq<CustomRowView>,
    request: DataTypeView,
    p: usize,
    path: Seq<char>,
    separator: char,
)
    requires
        is_selection(found, rows, request),
        p < rows.len(),
        separator == ':' || separator == '.',
        rows[p as int] matches CustomRowView::Record { data_type: stored, .. } && request.name
            == path.push(separator) + stored.name && !stored.name.contains(':')
            && !stored.name.contains('.') && stored.identifier == request.identifier
            && (stored.metadata == request.metadata || (match (request.metadata, stored.metadata) {
            (Some(Some(x)), Some(Some(y))) => same_json(x, y),
            _ => false,
        })),
    ensures
        found.contains(p),
{
    let stored = rows[p as int]->data_type;
    let name = request.name;
    short_name_is_last(name);
    let start = path.len() + 1int;
    let first = name.len() - short_name(name).len();
    assert(parts_names(name[path.len() as int]));
    if first > start {
        assert(name[first - 1] == stored.name[first - 1 - start]);
        assert(stored.name.contains(name[first - 1]));
    }
    assert(first == start);
    assert(short_name(name) =~= stored.name);
    if let Some(Some(document)) = request.metadata {
        document_is_itself(document);
    }
}

/// A missing identifier and an empty one find the same records.
pub proof fn missing_identifier_is_an_empty_one(
    request: DataTypeView,
    stored: DataTypeView,
    empty: Seq<char>,
)
    requires
        empty.len() == 0,
    ensures
        is_requested(
            DataTypeView { identifier: None, ..request },
            stored,
        ) == is_requested(DataTypeView { identifier: Some(empty), ..request }, stored),
        is_requested(
            request,
            DataTypeView { identifier: None, ..stored },
        ) == is_requested(request, DataTypeView { identifier: Some(empty), ..stored }),
{
    assert(empty =~= Seq::empty());
}

/// Records of two requests with different identifiers are different records: no record is found for
/// both.
pub proof fn identifiers_part_the_records(
    a: DataTypeView,
    b: DataTypeView,
    stored: DataTypeView,
    first: Seq<char>,
    second: Seq<char>,
)
    requires
        a.identifier == Some(first),
        b.identifier == Some(second),
        first != second,
    ensures
        !(is_requested(a, stored) && is_requested(b, stored)),
{
}

/// What a load hands out is ordered by the time at which the records were made, those of one time by
/// the order of their rows, and no row twice.
pub proof fn found_records_are_in_order_of_time(
    found: Seq<usize>,
    rows: Seq<CustomRowView>,
    request: DataTypeView,
    i: int,
    j: int,
)
    requires
        is_selection(found, rows, request),
        0 <= i < j < found.len(),
    ensures
        found[i] != found[j],
        rows[found[i] as int]->ts_init <= rows[found[j] as int]->ts_init,
        rows[found[i] as int]->ts_init == rows[found[j] as int]->ts_init ==> found[i] < found[j],
{
}

/// A row that is no custom data makes the load fail, and with the error of the first such row;
/// nothing else does.
pub proof fn first_invalid_row_is_told(rows: Seq<CustomRowView>)
    ensures
        match first_invalid(rows) {
            Some(error) => exists|i: int|
                0 <= i < rows.len() && #[trigger] rows[i] == CustomRowView::Invalid(error)
                    && forall|j: int| 0 <= j < i ==> !(#[trigger] rows[j] is Invalid),
            None => forall|i: int| 0 <= i < rows.len() ==> !(#[trigger] rows[i] is Invalid),
        },
    decreases rows.len(),
{
    if rows.len() > 0 {
        let rest = rows.drop_last();
        let last = rows.len() - 1;
        first_invalid_row_is_told(rest);
        assert(forall|i: int| 0 <= i < last ==> #[trigger] rows[i] == rest[i]);
        assert(rows[last] == rows.last());
        if first_invalid(rest) is Some {
            let error = first_invalid(rest)->0;
            let i = choose|i: int|
                0 <= i < rest.len() && #[trigger] rest[i] == CustomRowView::Invalid(error)
                    && forall|j: int| 0 <= j < i ==> !(#[trigger] rest[j] is Invalid);
            assert(rows[i] == rest[i]);
        }
    }
}

/// What a row of custom data is, row by row: a list has as many, in the same places, and of a record
/// nothing is left out.
pub proof fn custom_rows_keep_their_places(rows: Seq<CustomRow>, i: int)
    requires
        0 <= i < rows.len(),
    ensures
        custom_rows_view(rows).len() == rows.len(),
        match rows[i] {
            CustomRow::Missing => custom_rows_view(rows)[i] is Missing,
            CustomRow::Invalid(error) => custom_rows_view(rows)[i] == CustomRowView::Invalid(
                error@,
            ),
            CustomRow::Record { data_type, ts_init } => custom_rows_view(
                rows,
            )[i] matches CustomRowView::Record { data_type: view, ts_init: time } && time == ts_init
                && view == data_type@,
        },
{
}

/// What a data type is: its whole name, its identifier and its metadata, each there exactly where the
/// type has it.
pub proof fn data_types_are_whole(data_type: DataType)
    ensures
        data_type@.name == data_type.name@,
        data_type@.identifier is Some <==> data_type.identifier is Some,
        data_type.identifier matches Some(text) ==> data_type@.identifier == Some(text@),
        data_type@.metadata is Some <==> data_type.metadata is Some,
        data_type.metadata matches Some(None) ==> (data_type@.metadata matches Some(None)),
        data_type.metadata matches Some(Some(document)) ==> (data_type@.metadata matches Some(
            Some(view),
        ) && view == document@),
{
}

/// The last name of a path of names.
pub fn short_name_of<'a>(name: &'a str) -> (short: &'a str)
    ensures
        short@ == short_name(name@),
{
    let chars = chars_of(name);
    let mut start: usize = chars.len();
    proof {
        short_name_is_last(name@);
    }
    while start > 0 && chars[start - 1] != ':' && chars[start - 1] != '.'
        invariant
            chars@ == name@,
            start <= chars.len(),
            forall|i: int| start <= i < chars.len() ==> !parts_names(#[trigger] chars@[i]),
        decreases start,
    {
        start = start - 1;
    }
    proof {
        let first = chars@.len() - short_name(name@).len();
        if start < first {
            assert(parts_names(chars@[first - 1]));
        }
        if start > first {
            assert(!parts_names(chars@[start - 1]));
        }
    }
    name.substring_char(start, name.unicode_len())
}

/// The text of an identifier; a missing one is empty.
fn text_of_identifier(identifier: &Option<String>) -> (text: String)
    ensures
        text@ == identifier_text(
            (match *identifier {
                Some(t) => Some(t@),
                None => None,
            }),
        ),
{
    match identifier {
        Some(text) => text.clone(),
        None => String::new(),
    }
}

/// What metadata as `serde_json` documents is.
spec fn values_metadata(metadata: Option<Option<serde_json::Value>>) -> Option<Option<JsonView>> {
    match metadata {
        None => None,
        Some(None) => Some(None),
        Some(Some(value)) => Some(Some(value_view(value))),
    }
}

/// Metadata as `serde_json` documents.
fn metadata_values(metadata: Option<Option<Json>>) -> (values: Option<Option<serde_json::Value>>)
    ensures
        values_metadata(values) == metadata_view(metadata),
{
    match metadata {
        None => None,
        Some(None) => Some(None),
        Some(Some(document)) => Some(Some(value_from_json(document))),
    }
}

/// Whether two metadata are the same.
fn metadata_equal(
    a: &Option<Option<serde_json::Value>>,
    b: &Option<Option<serde_json::Value>>,
) -> (same: bool)
    ensures
        same == same_metadata(values_metadata(*a), values_metadata(*b)),
{
    match (a, b) {
        (None, None) => true,
        (Some(x), Some(y)) => match (x, y) {
            (None, None) => true,
            (Some(v), Some(w)) => values_equal(v, w),
            _ => false,
        },
        _ => false,
    }
}

/// Rows after one that is no custom data change nothing.
proof fn lemma_invalid_stays(rows: Seq<CustomRowView>, len: int)
    requires
        0 <= len <= rows.len(),
        first_invalid(rows.take(len)) is Some,
    ensures
        first_invalid(rows) == first_invalid(rows.take(len)),
    decreases rows.len(),
{
    if len == rows.len() {
        assert(rows.take(len) == rows);
    } else {
        assert(rows.drop_last().take(len) == rows.take(len));
        lemma_invalid_stays(rows.drop_last(), len);
    }
}

impl DatabaseQueries {
    /// Begins a load of custom data: the scan that finds the keys.
    pub fn load_custom_data(trader_key: &str) -> (scan: KeyScan)
        ensures
            scan@ == scan_start(collection_pattern(trader_key@, CUSTOM@)),
    {
        DatabaseQueries::scan_keys(pattern_of(trader_key, CUSTOM))
    }

    /// The positions of the rows of the requested type, earliest first: `rows` are what stands
    /// under the scanned keys.
    pub fn load_custom_data_reply(request: DataType, rows: Vec<CustomRow>) -> (found: Result<
        Vec<usize>,
        QueryError,
    >)
        ensures
            match found {
                Ok(positions) => first_invalid(custom_rows_view(rows@)) is None && is_selection(
                    positions@,
                    custom_rows_view(rows@),
                    request@,
                ),
                Err(error) => first_invalid(custom_rows_view(rows@)) == Some(error@),
            },
    {
        let ghost wanted = request@;
        let ghost listed = rows@;
        let ghost all = custom_rows_view(rows@);
        let full = request.name;
        let short = short_name_of(full.as_str());
        let identifier = text_of_identifier(&request.identifier);
        let metadata = metadata_values(request.metadata);
        let mut matching: Vec<(u64, usize)> = Vec::new();
        let mut at: usize = 0;
        assert(listed.len() == rows.len());
        for row in it: rows
            invariant
                it.seq() == listed,
                all == custom_rows_view(listed),
                listed.len() <= usize::MAX,
                at == it.index(),
                full@ == wanted.name,
                short@ == short_name(wanted.name),
                identifier@ == identifier_text(wanted.identifier),
                values_metadata(metadata) == wanted.metadata,
                first_invalid(all.take(it.index())) is None,
                forall|i: int, j: int|
                    0 <= i < j < matching.len() ==> (#[trigger] matching[i]).1 < (
                    #[trigger] matching[j]).1,
                forall|i: int|
                    0 <= i < matching.len() ==> (#[trigger] matching[i]).1 < at && matching[i]
                        == dated(all, matching[i].1) && row_is_requested(
                        wanted,
                        all[matching[i].1 as int],
                    ),
                forall|p: usize|
                    p < at && row_is_requested(wanted, all[p as int]) ==> matching@.contains(
                        #[trigger] dated(all, p),
                    ),
        {
            let ghost before = matching@;
            proof {
                assert(all.take(at + 1).drop_last() == all.take(at as int));
                assert(all.take(at + 1).last() == row@);
                assert(all[at as int] == row@);
            }
            match row {
                CustomRow::Missing => {},
                CustomRow::Invalid(error) => {
                    proof {
                        lemma_invalid_stays(all, at + 1);
                    }
                    return Err(error);
                },
                CustomRow::Record { data_type, ts_init } => {
                    let stored_identifier = text_of_identifier(&data_type.identifier);
                    let stored_name = data_type.name;
                    let type_match = same_text(stored_name.as_str(), full.as_str()) || same_text(
                        stored_name.as_str(),
                        short,
                    );
                    let identifier_match = same_text(
                        stored_identifier.as_str(),
                        identifier.as_str(),
                    );
                    let stored_metadata = metadata_values(data_type.metadata);
                    let metadata_match = metadata_equal(&metadata, &stored_metadata);
                    if type_match && identifier_match && metadata_match {
                        matching.push((ts_init, at));
                        proof {
                            assert(matching@[before.len() as int] == dated(all, at));
                        }
                    }
                },
            }
            proof {
                assert forall|p: usize|
                    p < at + 1 && row_is_requested(wanted, all[p as int]) implies matching@.contains(
                    #[trigger] dated(all, p),
                ) by {
                    if p < at {
                        let k = before.index_of(dated(all, p));
                        assert(matching@[k] == dated(all, p));
                    }
                }
            }
            at = at + 1;
        }
        assert(all.take(all.len() as int) == all);
        let ghost pairs = matching@;
        let sorted = sort_by_date(matching);
        let mut positions: Vec<usize> = Vec::new();
        for i in 0..sorted.len()
            invariant
                positions.len() == i,
                forall|j: int| 0 <= j < i ==> #[trigger] positions[j] == sorted[j].1,
        {
            positions.push(sorted[i].1);
        }
        proof {
            assert forall|i: int| 0 <= i < sorted.len() implies #[trigger] sorted@[i] == dated(
                all,
                positions@[i],
            ) && pairs.contains(sorted@[i]) by {
                assert(sorted@.contains(sorted@[i]));
                let k = pairs.index_of(sorted@[i]);
                assert(pairs[k] == sorted@[i]);
            }
            assert forall|p: usize| #[trigger] positions@.contains(p) <==> p < all.len()
                && row_is_requested(wanted, all[p as int]) by {
                if positions@.contains(p) {
                    let i = positions@.index_of(p);
                    let k = pairs.index_of(sorted@[i]);
                    assert(pairs[k].1 == p);
                }
                if p < all.len() && row_is_requested(wanted, all[p as int]) {
                    assert(pairs.contains(dated(all, p)));
                    assert(sorted@.contains(dated(all, p)));
                    let i = sorted@.index_of(dated(all, p));
                    assert(positions@[i] == p);
                }
            }
            assert forall|i: int, j: int| 0 <= i < j < positions@.len() implies comes_before(
                dated(all, #[trigger] positions@[i]),
                dated(all, #[trigger] positions@[j]),
            ) by {
                assert(comes_before(sorted@[i], sorted@[j]));
            }
        }
        Ok(positions)
    }
}

} // verus!
