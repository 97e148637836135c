use vstd::prelude::*;

use crate::json::JsonValue;
use crate::numbers::{decimal, format_u64};

verus! {

broadcast use vstd::string::group_string_axioms;

/// Why a database reply holds no rows to read.
#[derive(Debug, Clone, Copy, PartialEq, Eq)]
pub enum ResponseError {
    /// The reply is not an array of statement results.
    NotAnArray,
    /// The reply is an empty array.
    EmptyArray,
    /// The reply has no entry at the index asked for.
    MissingStatement,
    /// The statement's entry has neither a `result` nor a `results` member.
    MissingResult,
    /// The statement's result is not an array.
    ResultNotArray,
}

/// The text that reports a reply without rows; `index` is the position of
/// the statement that was asked for.
pub open spec fn response_error_text(e: ResponseError, index: nat) -> Seq<char> {
    match e {
        ResponseError::NotAnArray => "Unexpected SurrealDB response format"@,
        ResponseError::EmptyArray => "SurrealDB returned an empty result array"@,
        ResponseError::MissingStatement => "SurrealDB response does not have item at index "@
            + decimal(index),
        ResponseError::MissingResult => "Unable to find query results in SurrealDB response"@,
        ResponseError::ResultNotArray => "SurrealDB query result is not an array"@,
    }
}

/// The shorter text that the chunk-strategy front end gives for a reply
/// without rows (it reads only the last statement, so it never misses one).
pub open spec fn response_error_brief_text(e: ResponseError) -> Seq<char> {
    match e {
        ResponseError::NotAnArray => "Unexpected SurrealDB response format"@,
        ResponseError::EmptyArray => "SurrealDB returned an empty result array"@,
        ResponseError::MissingStatement => "No results found"@,
        ResponseError::MissingResult => "No results found"@,
        ResponseError::ResultNotArray => "Result is not an array"@,
    }
}

impl ResponseError {
    /// The text that reports this error; `index` is the position of the
    /// statement that was asked for.
    pub fn message(&self, index: usize) -> (r: String)
        ensures
            r@ == response_error_text(*self, index as nat),
    {
        match self {
            ResponseError::NotAnArray => "Unexpected SurrealDB response format".to_owned(),
            ResponseError::EmptyArray => "SurrealDB returned an empty result array".to_owned(),
            ResponseError::MissingStatement => {
                let mut r = "SurrealDB response does not have item at index ".to_owned();
                let number = format_u64(index as u64);
                r.append(number.as_str());
                r
            },
            ResponseError::MissingResult => "Unable to find query results in SurrealDB response".to_owned(),
            ResponseError::ResultNotArray => "SurrealDB query result is not an array".to_owned(),
        }
    }

    /// The shorter text that the chunk-strategy front end gives.
    pub fn brief_message(&self) -> (r: String)
        ensures
            r@ == response_error_brief_text(*self),
    {
        match self {
            ResponseError::NotAnArray => "Unexpected SurrealDB response format".to_owned(),
            ResponseError::EmptyArray => "SurrealDB returned an empty result array".to_owned(),
            ResponseError::MissingStatement => "No results found".to_owned(),
            ResponseError::MissingResult => "No results found".to_owned(),
            ResponseError::ResultNotArray => "Result is not an array".to_owned(),
        }
    }
}

/// The rows of one statement's entry: its `result` member, or else its
/// `results` member, which must be an array.
pub open spec fn statement_rows(item: JsonValue) -> Result<Seq<JsonValue>, ResponseError> {
    let found = match item.member("result"@) {
        Some(v) => Some(v),
        None => item.member("results"@),
    };
    match found {
        None => Err(ResponseError::MissingResult),
        Some(JsonValue::Array(rows)) => Ok(rows@),
        Some(_) => Err(ResponseError::ResultNotArray),
    }
}

/// The rows of the statement at `index` of a reply.
pub open spec fn rows_at(response: JsonValue, index: int) -> Result<Seq<JsonValue>, ResponseError> {
    match response {
        JsonValue::Array(items) => if 0 <= index < items@.len() {
            statement_rows(items@[index])
        } else {
            Err(ResponseError::MissingStatement)
        },
        _ => Err(ResponseError::NotAnArray),
    }
}

/// The rows of the last statement of a reply.
pub open spec fn last_rows(response: JsonValue) -> Result<Seq<JsonValue>, ResponseError> {
    match response {
        JsonValue::Array(items) => if items@.len() > 0 {
            statement_rows(items@.last())
        } else {
            Err(ResponseError::EmptyArray)
        },
        _ => Err(ResponseError::NotAnArray),
    }
}

/// How a statement's entry is read: its `result` member when it has one
/// (which must then be an array), else its `results` member (which must be
/// an array), else the entry has no rows.
pub proof fn lemma_statement_rows_cases(item: JsonValue)
    ensures
        item.member("result"@) is Some && item.member("result"@)->0 is Array ==> statement_rows(
            item,
        ) == Ok::<Seq<JsonValue>, ResponseError>(item.member("result"@)->0->Array_0@),
        item.member("result"@) is Some && !(item.member("result"@)->0 is Array) ==> statement_rows(
            item,
        ) == Err::<Seq<JsonValue>, ResponseError>(ResponseError::ResultNotArray),
        item.member("result"@) is None && item.member("results"@) is Some && item.member(
            "results"@,
        )->0 is Array ==> statement_rows(item) == Ok::<Seq<JsonValue>, ResponseError>(
            item.member("results"@)->0->Array_0@,
        ),
        item.member("result"@) is None && item.member("results"@) is Some && !(item.member(
            "results"@,
        )->0 is Array) ==> statement_rows(item) == Err::<Seq<JsonValue>, ResponseError>(
            ResponseError::ResultNotArray,
        ),
        item.member("result"@) is None && item.member("results"@) is None ==> statement_rows(item)
            == Err::<Seq<JsonValue>, ResponseError>(ResponseError::MissingResult),
{
}

/// The rows of a reply's last statement are the rows at its last position;
/// an empty array has no last statement, a position past the end has no
/// statement, and anything but an array has none at all.
pub proof fn lemma_last_rows_is_last_position(response: JsonValue, index: int)
    ensures
        response is Array && response->Array_0@.len() > 0 ==> last_rows(response) == rows_at(
            response,
            response->Array_0@.len() - 1,
        ),
        response is Array && response->Array_0@.len() == 0 ==> last_rows(response) == Err::<
            Seq<JsonValue>,
            ResponseError,
        >(ResponseError::EmptyArray),
        response is Array && (index < 0 || index >= response->Array_0@.len()) ==> rows_at(
            response,
            index,
        ) == Err::<Seq<JsonValue>, ResponseError>(ResponseError::MissingStatement),
        response is Array && 0 <= index < response->Array_0@.len() ==> rows_at(response, index)
            == statement_rows(response->Array_0@[index]),
        !(response is Array) ==> last_rows(response) == Err::<Seq<JsonValue>, ResponseError>(
            ResponseError::NotAnArray,
        ) && rows_at(response, index) == Err::<Seq<JsonValue>, ResponseError>(
            ResponseError::NotAnArray,
        ),
{
}

/// The answer of a generation reply is its whole `response` string, or
/// `No response` when it has none.
pub proof fn lemma_answer_is_response_member(response: JsonValue)
    ensures
        response.member("response"@) is Some && response.member("response"@)->0 is Str
            ==> str_member_or(response, "response"@, "No response"@) == response.member(
            "response"@,
        )->0->Str_0@,
        !(response.member("response"@) is Some && response.member("response"@)->0 is Str)
            ==> str_member_or(response, "response"@, "No response"@) == "No response"@,
{
}

/// A borrowed list of rows, or why there is none, as the rows it holds.
pub open spec fn rows_view(r: Result<&Vec<JsonValue>, ResponseError>) -> Result<
    Seq<JsonValue>,
    ResponseError,
> {
    match r {
        Ok(rows) => Ok(rows@),
        Err(e) => Err(e),
    }
}

fn rows_of_statement(item: &JsonValue) -> (r: Result<&Vec<JsonValue>, ResponseError>)
    ensures
        rows_view(r) == statement_rows(*item),
{
    let found = match item.get("result") {
        Some(v) => Some(v),
        None => item.get("results"),
    };
    match found {
        None => Err(ResponseError::MissingResult),
        Some(v) => match v.as_array() {
            Some(rows) => Ok(rows),
            None => Err(ResponseError::ResultNotArray),
        },
    }
}

/// The rows of the last statement of a reply.
pub fn extract_rows(response: &JsonValue) -> (r: Result<&Vec<JsonValue>, ResponseError>)
    ensures
        rows_view(r) == last_rows(*response),
{
    match response.as_array() {
        None => Err(ResponseError::NotAnArray),
        Some(items) => {
            if items.len() == 0 {
                Err(ResponseError::EmptyArray)
            } else {
                rows_of_statement(&items[items.len() - 1])
            }
        },
    }
}

/// The rows of the statement at `index` of a reply.
pub fn extract_results_at_index(response: &JsonValue, index: usize) -> (r: Result<
    &Vec<JsonValue>,
    ResponseError,
>)
    ensures
        rows_view(r) == rows_at(*response, index as int),
{
    match response.as_array() {
        None => Err(ResponseError::NotAnArray),
        Some(items) => {
            if index < items.len() {
                rows_of_statement(&items[index])
            } else {
                Err(ResponseError::MissingStatement)
            }
        },
    }
}

/// The text of member `key` where it is a string, else `default`.
pub open spec fn str_member_or(v: JsonValue, key: Seq<char>, default: Seq<char>) -> Seq<char> {
    match v.member(key) {
        Some(JsonValue::Str(s)) => s@,
        _ => default,
    }
}

/// The value of member `key` where it is a whole number in `0..2^64`, else 0.
pub open spec fn u64_member_or_zero(v: JsonValue, key: Seq<char>) -> u64 {
    match v.member(key) {
        Some(JsonValue::Number(Some(n))) => n,
        _ => 0,
    }
}

/// The text of member `key` where it is a string, else `default`.
pub fn str_member_or_default(v: &JsonValue, key: &str, default: &str) -> (r: String)
    ensures
        r@ == str_member_or(*v, key@, default@),
{
    match v.get(key) {
        Some(x) => match x.as_str() {
            Some(t) => t.to_owned(),
            None => default.to_owned(),
        },
        None => default.to_owned(),
    }
}

/// The value of member `key` where it is a whole number in `0..2^64`, else 0.
pub fn u64_member_or_zero_of(v: &JsonValue, key: &str) -> (r: u64)
    ensures
        r == u64_member_or_zero(*v, key@),
{
    match v.get(key) {
        Some(x) => match x.as_u64() {
            Some(n) => n,
            None => 0,
        },
        None => 0,
    }
}

/// A retrieved chunk: where it comes from, its page or chunk number, and
/// its text.
#[derive(Debug)]
pub struct MatchRow {
    pub source: String,
    pub number: u64,
    pub text: String,
}

/// `m` holds what `row` says: its `source` (default `unknown`), its
/// `number_key` number (default 0) and its `text` (default empty).
pub open spec fn is_match_of(m: MatchRow, row: JsonValue, number_key: Seq<char>) -> bool {
    &&& m.source@ == str_member_or(row, "source"@, "unknown"@)
    &&& m.number == u64_member_or_zero(row, number_key)
    &&& m.text@ == str_member_or(row, "text"@, ""@)
}

/// A retrieved chunk holds the row's whole `text` string (empty when the row
/// has none), its whole `source` string (`unknown` when it has none), and
/// its number (0 when it has none that fits).
pub proof fn lemma_match_reads_whole_fields(m: MatchRow, row: JsonValue, number_key: Seq<char>)
    requires
        is_match_of(m, row, number_key),
    ensures
        match row.member("text"@) {
            Some(JsonValue::Str(s)) => m.text@ == s@ && m.text@.len() == s@.len(),
            _ => m.text@.len() == 0,
        },
        match row.member("source"@) {
            Some(JsonValue::Str(s)) => m.source@ == s@,
            _ => m.source@ == "unknown"@,
        },
        match row.member(number_key) {
            Some(JsonValue::Number(Some(n))) => m.number == n,
            _ => m.number == 0,
        },
{
    reveal_strlit("");
}

/// Reads a retrieved chunk from a result row.
pub fn read_match(row: &JsonValue, number_key: &str) -> (m: MatchRow)
    ensures
        is_match_of(m, *row, number_key@),
{
    MatchRow {
        source: str_member_or_default(row, "source", "unknown"),
        number: u64_member_or_zero_of(row, number_key),
        text: str_member_or_default(row, "text", ""),
    }
}

/// The first `limit` rows, read as retrieved chunks.
pub fn top_matches(rows: &Vec<JsonValue>, limit: usize, number_key: &str) -> (ms: Vec<MatchRow>)
    ensures
        ms@.len() == if limit < rows@.len() {
            limit as int
        } else {
            rows@.len() as int
        },
        forall|i: int| 0 <= i < ms@.len() ==> is_match_of(#[trigger] ms@[i], rows@[i], number_key@),
{
    let n = if limit < rows.len() {
        limit
    } else {
        rows.len()
    };
    let mut ms: Vec<MatchRow> = Vec::new();
    let mut i: usize = 0;
    while i < n
        invariant
            n <= rows@.len(),
            i <= n,
            ms@.len() == i,
            forall|j: int| 0 <= j < i ==> is_match_of(#[trigger] ms@[j], rows@[j], number_key@),
        decreases n - i,
    {
        ms.push(read_match(&rows[i], number_key));
        i += 1;
    }
    ms
}

/// The hits of a search reply: its `hits` member's `hits` array.
pub open spec fn search_hits(result: JsonValue) -> Option<Seq<JsonValue>> {
    match result.member("hits"@) {
        Some(h) => match h.member("hits"@) {
            Some(JsonValue::Array(items)) => Some(items@),
            _ => None,
        },
        None => None,
    }
}

/// A search reply whose `hits.hits` member is not an array.
#[derive(Debug, Clone, Copy, PartialEq, Eq)]
pub struct SearchFormatError;

impl SearchFormatError {
    /// The text that reports the malformed search reply.
    pub fn message(&self) -> (r: String)
        ensures
            r@ == "Unexpected Elasticsearch search response format"@,
    {
        "Unexpected Elasticsearch search response format".to_owned()
    }
}

/// The hits of a search reply.
pub fn extract_hits(result: &JsonValue) -> (r: Result<&Vec<JsonValue>, SearchFormatError>)
    ensures
        r is Ok <==> search_hits(*result) is Some,
        r matches Ok(items) ==> items@ == search_hits(*result)->0,
{
    let found = match result.get("hits") {
        Some(h) => match h.get("hits") {
            Some(v) => v.as_array(),
            None => None,
        },
        None => None,
    };
    match found {
        Some(items) => Ok(items),
        None => Err(SearchFormatError),
    }
}

/// The stored document of a hit: its `_source` member, or null.
pub open spec fn hit_document(hit: JsonValue) -> JsonValue {
    match hit.member("_source"@) {
        Some(d) => d,
        None => JsonValue::Null,
    }
}

/// Reads a retrieved chunk from a search hit, with its page number.
pub fn read_hit(hit: &JsonValue) -> (m: MatchRow)
    ensures
        is_match_of(m, hit_document(*hit), "page"@),
{
    match hit.get("_source") {
        Some(d) => read_match(d, "page"),
        None => {
            let null = JsonValue::Null;
            read_match(&null, "page")
        },
    }
}

/// The generated text of a generation reply: its `response` member, or
/// `No response`.
pub fn answer_text(response: &JsonValue) -> (r: String)
    ensures
        r@ == str_member_or(*response, "response"@, "No response"@),
{
    str_member_or_default(response, "response", "No response")
}

/// Reads retrieved chunks from all the hits of a search, with their page
/// numbers.
pub fn read_hits(hits: &Vec<JsonValue>) -> (ms: Vec<MatchRow>)
    ensures
        ms@.len() == hits@.len(),
        forall|i: int|
            0 <= i < ms@.len() ==> is_match_of(#[trigger] ms@[i], hit_document(hits@[i]), "page"@),
{
    let mut ms: Vec<MatchRow> = Vec::new();
    let mut i: usize = 0;
    while i < hits.len()
        invariant
            i <= hits@.len(),
            ms@.len() == i,
            forall|j: int|
                0 <= j < i ==> is_match_of(#[trigger] ms@[j], hit_document(hits@[j]), "page"@),
        decreases hits.len() - i,
    {
        ms.push(read_hit(&hits[i]));
        i += 1;
    }
    ms
}

/// Where the full-text search's rows stand in a hybrid search reply: after
/// the replies to the two statements that select namespace and database.
pub const FULL_TEXT_STATEMENT: usize = 2;

/// Where the vector search's rows stand in a hybrid search reply.
pub const VECTOR_STATEMENT: usize = 3;

/// The rows of the full-text search and of the vector search in a hybrid
/// search reply. A failure names the error and the position of the
/// statement whose rows could not be read; the first is read first.
pub fn hybrid_results(response: &JsonValue) -> (r: Result<
    (&Vec<JsonValue>, &Vec<JsonValue>),
    (ResponseError, usize),
>)
    ensures
        match r {
            Ok((a, b)) => rows_at(*response, FULL_TEXT_STATEMENT as int) == Ok::<
                Seq<JsonValue>,
                ResponseError,
            >(a@) && rows_at(*response, VECTOR_STATEMENT as int) == Ok::<
                Seq<JsonValue>,
                ResponseError,
            >(b@),
            Err((e, index)) => match rows_at(*response, FULL_TEXT_STATEMENT as int) {
                Err(e1) => e == e1 && index == FULL_TEXT_STATEMENT,
                Ok(_) => rows_at(*response, VECTOR_STATEMENT as int) == Err::<
                    Seq<JsonValue>,
                    ResponseError,
                >(e) && index == VECTOR_STATEMENT,
            },
        },
{
    let full_text = match extract_results_at_index(response, FULL_TEXT_STATEMENT) {
        Ok(rows) => rows,
        Err(e) => return Err((e, FULL_TEXT_STATEMENT)),
    };
    let vector = match extract_results_at_index(response, VECTOR_STATEMENT) {
        Ok(rows) => rows,
        Err(e) => return Err((e, VECTOR_STATEMENT)),
    };
    Ok((full_text, vector))
}

} // verus!
