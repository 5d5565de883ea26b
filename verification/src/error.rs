//! Why a query fails.

use vstd::prelude::*;

verus! {

/// Why a query fails.
#[derive(Debug, PartialEq)]
pub enum QueryError {
    /// A key has no collection; holds the key.
    MissingDelimiter(String),
    /// A collection cannot be read; holds its name.
    UnsupportedCollection(String),
    /// An index is not known; holds its key.
    UnknownIndex(String),
    /// Keys cannot be read in batches of none.
    ZeroBatchSize,
    /// The MessagePack encoder refused a document; holds its reason.
    SerializeMsgPack(String),
    /// The JSON encoder refused a document; holds its reason.
    SerializeJson(String),
    /// The MessagePack decoder refused a payload; holds its reason.
    DeserializeMsgPack(String),
    /// The JSON decoder refused a payload; holds its reason.
    DeserializeJson(String),
    /// A timestamp lies outside the range of a nanosecond count.
    InvalidDateTime,
    /// A text is no identifier; holds the text.
    InvalidIdentifier(String),
    /// A document is not of the type that it is read as; holds the reason.
    InvalidValue(String),
    /// A stored record is not what it should be; holds the reason.
    InvalidRecord(String),
    /// The store refused a request; holds its reason.
    Store(String),
    /// Part of the cache could not be loaded.
    LoadCache(Box<QueryError>),
}

/// What a `QueryError` is.
pub enum ErrorView {
    MissingDelimiter(Seq<char>),
    UnsupportedCollection(Seq<char>),
    UnknownIndex(Seq<char>),
    ZeroBatchSize,
    SerializeMsgPack(Seq<char>),
    SerializeJson(Seq<char>),
    DeserializeMsgPack(Seq<char>),
    DeserializeJson(Seq<char>),
    InvalidDateTime,
    InvalidIdentifier(Seq<char>),
    InvalidValue(Seq<char>),
    InvalidRecord(Seq<char>),
    Store(Seq<char>),
    LoadCache(Box<ErrorView>),
}

/// What `error` is.
pub open spec fn error_view(error: QueryError) -> ErrorView
    decreases error,
{
    match error {
        QueryError::MissingDelimiter(key) => ErrorView::MissingDelimiter(key@),
        QueryError::UnsupportedCollection(name) => ErrorView::UnsupportedCollection(name@),
        QueryError::UnknownIndex(key) => ErrorView::UnknownIndex(key@),
        QueryError::ZeroBatchSize => ErrorView::ZeroBatchSize,
        QueryError::SerializeMsgPack(reason) => ErrorView::SerializeMsgPack(reason@),
        QueryError::SerializeJson(reason) => ErrorView::SerializeJson(reason@),
        QueryError::DeserializeMsgPack(reason) => ErrorView::DeserializeMsgPack(reason@),
        QueryError::DeserializeJson(reason) => ErrorView::DeserializeJson(reason@),
        QueryError::InvalidDateTime => ErrorView::InvalidDateTime,
        QueryError::InvalidIdentifier(text) => ErrorView::InvalidIdentifier(text@),
        QueryError::InvalidValue(reason) => ErrorView::InvalidValue(reason@),
        QueryError::InvalidRecord(reason) => ErrorView::InvalidRecord(reason@),
        QueryError::Store(reason) => ErrorView::Store(reason@),
        QueryError::LoadCache(cause) => ErrorView::LoadCache(Box::new(error_view(*cause))),
    }
}

impl View for QueryError {
    type V = ErrorView;

    open spec fn view(&self) -> ErrorView {
        error_view(*self)
    }
}

/// What an outcome is.
pub open spec fn outcome<T: View>(result: Result<T, QueryError>) -> Result<T::V, ErrorView> {
    match result {
        Ok(value) => Ok(value@),
        Err(error) => Err(error@),
    }
}

/// What an outcome is: a value or an error, whichever it is, left whole.
pub proof fn outcomes_are_whole<T: View>(result: Result<T, QueryError>)
    ensures
        match result {
            Ok(value) => outcome(result) matches Ok(view) && view == value@,
            Err(error) => outcome(result) matches Err(view) && view == error@,
        },
{
}

/// The sentence that tells of an error.
pub open spec fn error_message(error: ErrorView) -> Seq<char>
    decreases error,
{
    match error {
        ErrorView::MissingDelimiter(key) => "Invalid `key`, missing a ':' delimiter, was "@ + key,
        ErrorView::UnsupportedCollection(name) => "Unsupported operation: `read` for collection '"@
            + name + "'"@,
        ErrorView::UnknownIndex(key) => "Index unknown '"@ + key + "' on read"@,
        ErrorView::ZeroBatchSize => "`batch_size` must be greater than zero"@,
        ErrorView::SerializeMsgPack(reason) => "Failed to serialize msgpack `payload`: "@ + reason,
        ErrorView::SerializeJson(reason) => "Failed to serialize json `payload`: "@ + reason,
        ErrorView::DeserializeMsgPack(reason) => "Failed to deserialize msgpack `payload`: "@
            + reason,
        ErrorView::DeserializeJson(reason) => "Failed to deserialize json `payload`: "@ + reason,
        ErrorView::InvalidDateTime => "Invalid DateTime"@,
        ErrorView::InvalidIdentifier(text) => "Invalid identifier: "@ + text,
        ErrorView::InvalidValue(reason) => "Failed to convert value to target type: "@ + reason,
        ErrorView::InvalidRecord(reason) => reason,
        ErrorView::Store(reason) => reason,
        ErrorView::LoadCache(cause) => "Error loading cache data: "@ + error_message(*cause),
    }
}

/// The sentence of an error has its cause whole at its end, after words that depend on the kind of the
/// error alone.
pub proof fn messages_end_with_their_cause(cause: Seq<char>, inner: ErrorView)
    ensures
        tells_of(
            error_message(ErrorView::MissingDelimiter(cause)),
            "Invalid `key`, missing a ':' delimiter, was "@,
            cause,
        ),
        tells_of(
            error_message(ErrorView::SerializeMsgPack(cause)),
            "Failed to serialize msgpack `payload`: "@,
            cause,
        ),
        tells_of(
            error_message(ErrorView::SerializeJson(cause)),
            "Failed to serialize json `payload`: "@,
            cause,
        ),
        tells_of(
            error_message(ErrorView::DeserializeMsgPack(cause)),
            "Failed to deserialize msgpack `payload`: "@,
            cause,
        ),
        tells_of(
            error_message(ErrorView::DeserializeJson(cause)),
            "Failed to deserialize json `payload`: "@,
            cause,
        ),
        tells_of(
            error_message(ErrorView::InvalidIdentifier(cause)),
            "Invalid identifier: "@,
            cause,
        ),
        tells_of(
            error_message(ErrorView::InvalidValue(cause)),
            "Failed to convert value to target type: "@,
            cause,
        ),
        error_message(ErrorView::InvalidRecord(cause)) == cause,
        error_message(ErrorView::Store(cause)) == cause,
        tells_of(
            error_message(ErrorView::LoadCache(Box::new(inner))),
            "Error loading cache data: "@,
            error_message(inner),
        ),
{
    lemma_tells_of("Invalid `key`, missing a ':' delimiter, was "@, cause);
    lemma_tells_of("Failed to serialize msgpack `payload`: "@, cause);
    lemma_tells_of("Failed to serialize json `payload`: "@, cause);
    lemma_tells_of("Failed to deserialize msgpack `payload`: "@, cause);
    lemma_tells_of("Failed to deserialize json `payload`: "@, cause);
    lemma_tells_of("Invalid identifier: "@, cause);
    lemma_tells_of("Failed to convert value to target type: "@, cause);
    lemma_tells_of("Error loading cache data: "@, error_message(inner));
}

/// The sentence of an unknown collection or index has the name whole between its words.
pub proof fn messages_quote_their_names(name: Seq<char>)
    ensures
        tells_of(
            error_message(ErrorView::UnsupportedCollection(name)).drop_last(),
            "Unsupported operation: `read` for collection '"@,
            name,
        ),
        error_message(ErrorView::UnsupportedCollection(name)).last() == '\'',
        error_message(ErrorView::UnknownIndex(name)).len() == "Index unknown '"@.len() + name.len()
            + "' on read"@.len(),
        error_message(ErrorView::UnknownIndex(name)).subrange(
            "Index unknown '"@.len() as int,
            "Index unknown '"@.len() + name.len() as int,
        ) == name,
        "Index unknown '"@.is_prefix_of(error_message(ErrorView::UnknownIndex(name))),
{
    reveal_strlit("'");
    let start = "Unsupported operation: `read` for collection '"@;
    lemma_tells_of(start, name);
    assert(error_message(ErrorView::UnsupportedCollection(name)).drop_last() =~= start + name);
    let message = error_message(ErrorView::UnknownIndex(name));
    let before = "Index unknown '"@;
    assert(message.subrange(before.len() as int, before.len() + name.len() as int) =~= name);
    assert(message.take(before.len() as int) =~= before);
}

/// Whether a sentence is `words` and then `cause`.
pub open spec fn tells_of(sentence: Seq<char>, words: Seq<char>, cause: Seq<char>) -> bool {
    &&& sentence.len() == words.len() + cause.len()
    &&& words.is_prefix_of(sentence)
    &&& cause.is_suffix_of(sentence)
}

/// Words followed by a cause tell of it.
proof fn lemma_tells_of(words: Seq<char>, cause: Seq<char>)
    ensures
        tells_of(words + cause, words, cause),
{
    let sentence = words + cause;
    assert(sentence.take(words.len() as int) =~= words);
    assert(sentence.skip(words.len() as int) =~= cause);
}

/// Errors are told apart by their kind, and hold their texts whole.
pub proof fn errors_are_whole(error: QueryError)
    ensures
        match error {
            QueryError::MissingDelimiter(text) => error@ == ErrorView::MissingDelimiter(text@),
            QueryError::UnsupportedCollection(text) => error@
                == ErrorView::UnsupportedCollection(text@),
            QueryError::UnknownIndex(text) => error@ == ErrorView::UnknownIndex(text@),
            QueryError::SerializeMsgPack(text) => error@ == ErrorView::SerializeMsgPack(text@),
            QueryError::SerializeJson(text) => error@ == ErrorView::SerializeJson(text@),
            QueryError::DeserializeMsgPack(text) => error@ == ErrorView::DeserializeMsgPack(text@),
            QueryError::DeserializeJson(text) => error@ == ErrorView::DeserializeJson(text@),
            QueryError::InvalidIdentifier(text) => error@ == ErrorView::InvalidIdentifier(text@),
            QueryError::InvalidValue(text) => error@ == ErrorView::InvalidValue(text@),
            QueryError::InvalidRecord(text) => error@ == ErrorView::InvalidRecord(text@),
            QueryError::Store(text) => error@ == ErrorView::Store(text@),
            QueryError::ZeroBatchSize => error@ is ZeroBatchSize,
            QueryError::InvalidDateTime => error@ is InvalidDateTime,
            QueryError::LoadCache(cause) => error@ matches ErrorView::LoadCache(view) && *view
                == cause@,
        },
{
}

/// `before`, then `after`.
fn phrase(before: &str, after: &str) -> (text: String)
    ensures
        text@ == before@ + after@,
{
    before.to_owned().concat(after)
}

/// `before`, then `middle`, then `after`.
fn sentence(before: &str, middle: &str, after: &str) -> (text: String)
    ensures
        text@ == before@ + middle@ + after@,
{
    before.to_owned().concat(middle).concat(after)
}

impl QueryError {
    /// The sentence that tells of this error.
    pub fn message(&self) -> (text: String)
        ensures
            text@ == error_message(self@),
        decreases self,
    {
        match self {
            QueryError::MissingDelimiter(key) => phrase(
                "Invalid `key`, missing a ':' delimiter, was ",
                key.as_str(),
            ),
            QueryError::UnsupportedCollection(name) => sentence(
                "Unsupported operation: `read` for collection '",
                name.as_str(),
                "'",
            ),
            QueryError::UnknownIndex(key) => sentence("Index unknown '", key.as_str(), "' on read"),
            QueryError::ZeroBatchSize => "`batch_size` must be greater than zero".to_owned(),
            QueryError::SerializeMsgPack(reason) => phrase(
                "Failed to serialize msgpack `payload`: ",
                reason.as_str(),
            ),
            QueryError::SerializeJson(reason) => phrase(
                "Failed to serialize json `payload`: ",
                reason.as_str(),
            ),
            QueryError::DeserializeMsgPack(reason) => phrase(
                "Failed to deserialize msgpack `payload`: ",
                reason.as_str(),
            ),
            QueryError::DeserializeJson(reason) => phrase(
                "Failed to deserialize json `payload`: ",
                reason.as_str(),
            ),
            QueryError::InvalidDateTime => "Invalid DateTime".to_owned(),
            QueryError::InvalidIdentifier(text) => phrase(
                "Invalid identifier: ",
                text.as_str(),
            ),
            QueryError::InvalidValue(reason) => phrase(
                "Failed to convert value to target type: ",
                reason.as_str(),
            ),
            QueryError::InvalidRecord(reason) => reason.clone(),
            QueryError::Store(reason) => reason.clone(),
            QueryError::LoadCache(cause) => phrase(
                "Error loading cache data: ",
                cause.message().as_str(),
            ),
        }
    }
}

} // verus!
