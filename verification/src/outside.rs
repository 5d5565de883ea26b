//! Byte buffers, interned texts and hash maps of other crates.

use ahash::AHashMap;
use bytes::Bytes;
use ustr::Ustr;
use vstd::prelude::*;

verus! {

/// The byte buffer of `bytes`.
#[verifier::external_type_specification]
#[verifier::external_body]
pub struct ExBytes(Bytes);

/// The interned text of `ustr`.
#[verifier::external_type_specification]
#[verifier::external_body]
pub struct ExUstr(Ustr);

/// The hasher state of `ahash`.
#[verifier::external_type_specification]
#[verifier::external_body]
pub struct ExRandomState(ahash::RandomState);

/// The hash map of `ahash`.
#[verifier::external_type_specification]
#[verifier::external_body]
#[verifier::reject_recursive_types(K)]
#[verifier::reject_recursive_types(V)]
#[verifier::reject_recursive_types(S)]
pub struct ExAHashMap<K, V, S>(AHashMap<K, V, S>);

/// The bytes that a buffer holds.
pub uninterp spec fn bytes_view(buffer: Bytes) -> Seq<u8>;

/// The text that is interned.
pub uninterp spec fn ustr_view(text: Ustr) -> Seq<char>;

/// The positions that a map of identifiers holds.
pub uninterp spec fn positions(map: AHashMap<String, usize>) -> Map<Seq<char>, usize>;

/// The positions that a map of codes holds.
pub uninterp spec fn code_positions(map: AHashMap<Ustr, usize>) -> Map<Seq<char>, usize>;

/// The payloads that a map of keys holds.
pub uninterp spec fn key_payloads(map: AHashMap<String, Bytes>) -> Map<Seq<char>, Seq<u8>>;

/// The texts that a map of texts holds.
pub uninterp spec fn text_pairs(map: AHashMap<String, String>) -> Map<Seq<char>, Seq<char>>;

/// The bytes of each buffer of a list.
pub open spec fn buffers_view(buffers: Seq<Bytes>) -> Seq<Seq<u8>> {
    Seq::new(buffers.len(), |i: int| bytes_view(buffers[i]))
}

/// The bytes of a buffer that may be missing.
pub open spec fn found_view(buffer: Option<Bytes>) -> Option<Seq<u8>> {
    match buffer {
        Some(b) => Some(bytes_view(b)),
        None => None,
    }
}

/// The bytes of each buffer of a list in which some may be missing.
pub open spec fn found_buffers_view(buffers: Seq<Option<Bytes>>) -> Seq<Option<Seq<u8>>> {
    Seq::new(buffers.len(), |i: int| found_view(buffers[i]))
}

/// What a buffer of a list is, buffer by buffer: a list has as many, in the same places.
pub proof fn buffers_keep_their_places(
    buffers: Seq<Bytes>,
    found: Seq<Option<Bytes>>,
    i: int,
)
    ensures
        buffers_view(buffers).len() == buffers.len(),
        0 <= i < buffers.len() ==> buffers_view(buffers)[i] == bytes_view(buffers[i]),
        found_buffers_view(found).len() == found.len(),
        0 <= i < found.len() ==> (found_buffers_view(found)[i] is Some <==> found[i] is Some),
        0 <= i < found.len() ==> (found[i] matches Some(buffer) ==> found_buffers_view(found)[i]
            == Some(bytes_view(buffer))),
{
}

/// `Bytes::from(Vec<u8>)`: a buffer that holds the bytes of the vector.
#[verifier::external_body]
pub(crate) fn buffer_from(bytes: Vec<u8>) -> (buffer: Bytes)
    ensures
        bytes_view(buffer) == bytes@,
{
    Bytes::from(bytes)
}

/// `Bytes::as_ref`: the bytes of a buffer.
#[verifier::external_body]
pub(crate) fn buffer_bytes(buffer: &Bytes) -> (bytes: &[u8])
    ensures
        bytes@ == bytes_view(*buffer),
{
    buffer.as_ref()
}

/// `Bytes::clone`: a buffer that holds the same bytes.
#[verifier::external_body]
pub(crate) fn buffer_clone(buffer: &Bytes) -> (copy: Bytes)
    ensures
        bytes_view(copy) == bytes_view(*buffer),
{
    buffer.clone()
}

/// `Ustr::from(&str)`: the given text, interned.
#[verifier::external_body]
pub(crate) fn intern(text: &str) -> (interned: Ustr)
    ensures
        ustr_view(interned) == text@,
{
    Ustr::from(text)
}

/// `AHashMap::new`: a map without entries.
#[verifier::external_body]
pub(crate) fn no_positions() -> (map: AHashMap<String, usize>)
    ensures
        positions(map).dom() == Set::<Seq<char>>::empty(),
{
    AHashMap::new()
}

/// `AHashMap::insert`: the entry is added, in place of an earlier one of its key.
#[verifier::external_body]
pub(crate) fn insert_position(map: &mut AHashMap<String, usize>, key: String, position: usize)
    ensures
        positions(*final(map)) == positions(*old(map)).insert(key@, position),
{
    map.insert(key, position);
}

/// `AHashMap::new`: a map without entries.
#[verifier::external_body]
pub(crate) fn no_code_positions() -> (map: AHashMap<Ustr, usize>)
    ensures
        code_positions(map).dom() == Set::<Seq<char>>::empty(),
{
    AHashMap::new()
}

/// `AHashMap::insert`: the entry is added, in place of an earlier one of its key. Two interned
/// texts are the same key where their texts are the same.
#[verifier::external_body]
pub(crate) fn insert_code_position(map: &mut AHashMap<Ustr, usize>, code: Ustr, position: usize)
    ensures
        code_positions(*final(map)) == code_positions(*old(map)).insert(ustr_view(code), position),
{
    map.insert(code, position);
}

/// `AHashMap::new`: a map without entries.
#[verifier::external_body]
pub(crate) fn no_payloads() -> (map: AHashMap<String, Bytes>)
    ensures
        key_payloads(map).dom() == Set::<Seq<char>>::empty(),
{
    AHashMap::new()
}

/// `AHashMap::insert`: the entry is added, in place of an earlier one of its key.
#[verifier::external_body]
pub(crate) fn insert_payload(map: &mut AHashMap<String, Bytes>, key: String, payload: Bytes)
    ensures
        key_payloads(*final(map)) == key_payloads(*old(map)).insert(key@, bytes_view(payload)),
{
    map.insert(key, payload);
}

/// `AHashMap::new`: a map without entries.
#[verifier::external_body]
pub(crate) fn no_text_pairs() -> (map: AHashMap<String, String>)
    ensures
        text_pairs(map).dom() == Set::<Seq<char>>::empty(),
{
    AHashMap::new()
}

/// `AHashMap::insert`: the entry is added, in place of an earlier one of its key.
#[verifier::external_body]
pub(crate) fn insert_text_pair(map: &mut AHashMap<String, String>, key: String, value: String)
    ensures
        text_pairs(*final(map)) == text_pairs(*old(map)).insert(key@, value@),
{
    map.insert(key, value);
}

} // verus!
