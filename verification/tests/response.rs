use rag_core::json::JsonValue;
use rag_core::response::{
    answer_text, extract_hits, extract_results_at_index, extract_rows, hybrid_results, read_hit,
    read_hits, read_match, top_matches, ResponseError, SearchFormatError,
};

fn s(t: &str) -> JsonValue {
    JsonValue::Str(t.to_string())
}

fn obj(entries: Vec<(&str, JsonValue)>) -> JsonValue {
    JsonValue::Object(entries.into_iter().map(|(k, v)| (k.to_string(), v)).collect())
}

fn row(source: &str, page: u64, text: &str) -> JsonValue {
    obj(vec![("source", s(source)), ("page", JsonValue::Number(Some(page))), ("text", s(text))])
}

fn statement(rows: Vec<JsonValue>) -> JsonValue {
    obj(vec![("status", s("OK")), ("result", JsonValue::Array(rows))])
}

#[test]
fn rows_of_last_statement() {
    let reply = JsonValue::Array(vec![
        statement(vec![]),
        statement(vec![row("a.pdf", 1, "one"), row("b.pdf", 2, "two")]),
    ]);
    let rows = extract_rows(&reply).unwrap();
    assert_eq!(rows.len(), 2);
    let m = read_match(&rows[1], "page");
    assert_eq!(m.source, "b.pdf");
    assert_eq!(m.number, 2);
    assert_eq!(m.text, "two");
}

#[test]
fn rows_under_results_member() {
    let reply = JsonValue::Array(vec![obj(vec![("results", JsonValue::Array(vec![row("x", 3, "t")]))])]);
    assert_eq!(extract_rows(&reply).unwrap().len(), 1);
}

#[test]
fn result_member_wins_over_results() {
    let reply = JsonValue::Array(vec![obj(vec![
        ("results", JsonValue::Array(vec![])),
        ("result", JsonValue::Array(vec![row("x", 3, "t")])),
    ])]);
    assert_eq!(extract_rows(&reply).unwrap().len(), 1);
}

#[test]
fn reply_errors() {
    assert_eq!(extract_rows(&JsonValue::Null).unwrap_err(), ResponseError::NotAnArray);
    assert_eq!(extract_rows(&obj(vec![])).unwrap_err(), ResponseError::NotAnArray);
    assert_eq!(extract_rows(&JsonValue::Array(vec![])).unwrap_err(), ResponseError::EmptyArray);
    assert_eq!(
        extract_rows(&JsonValue::Array(vec![obj(vec![("status", s("ERR"))])])).unwrap_err(),
        ResponseError::MissingResult
    );
    assert_eq!(
        extract_rows(&JsonValue::Array(vec![obj(vec![("result", s("oops"))])])).unwrap_err(),
        ResponseError::ResultNotArray
    );
    assert_eq!(
        extract_results_at_index(&JsonValue::Array(vec![statement(vec![])]), 2).unwrap_err(),
        ResponseError::MissingStatement
    );
}

#[test]
fn rows_at_index() {
    let reply = JsonValue::Array(vec![
        statement(vec![]),
        statement(vec![]),
        statement(vec![row("f", 1, "fts")]),
        statement(vec![row("v", 2, "vec"), row("w", 3, "vec2")]),
    ]);
    assert_eq!(extract_results_at_index(&reply, 2).unwrap().len(), 1);
    let (fts, vector) = hybrid_results(&reply).unwrap();
    assert_eq!(fts.len(), 1);
    assert_eq!(vector.len(), 2);
}

#[test]
fn hybrid_reports_first_failure_first() {
    let reply = JsonValue::Array(vec![statement(vec![]), statement(vec![]), obj(vec![])]);
    assert_eq!(hybrid_results(&reply).unwrap_err(), (ResponseError::MissingResult, 2));
    let short = JsonValue::Array(vec![statement(vec![]), statement(vec![]), statement(vec![])]);
    assert_eq!(hybrid_results(&short).unwrap_err(), (ResponseError::MissingStatement, 3));
    assert_eq!(
        ResponseError::MissingStatement.message(3),
        "SurrealDB response does not have item at index 3"
    );
}

#[test]
fn match_defaults() {
    let m = read_match(&obj(vec![("page", s("not a number"))]), "page");
    assert_eq!(m.source, "unknown");
    assert_eq!(m.number, 0);
    assert_eq!(m.text, "");
    let m = read_match(&JsonValue::Number(None), "chunk_index");
    assert_eq!(m.source, "unknown");
    let m = read_match(&obj(vec![("chunk_index", JsonValue::Number(Some(7)))]), "chunk_index");
    assert_eq!(m.number, 7);
}

#[test]
fn top_matches_takes_limit() {
    let rows = vec![row("a", 1, "1"), row("b", 2, "2"), row("c", 3, "3"), row("d", 4, "4")];
    let ms = top_matches(&rows, 3, "page");
    assert_eq!(ms.len(), 3);
    assert_eq!(ms[2].source, "c");
    assert_eq!(top_matches(&vec![row("a", 1, "1")], 3, "page").len(), 1);
}

#[test]
fn search_hits() {
    let hit = obj(vec![("_score", JsonValue::Number(None)), ("_source", row("doc.pdf", 5, "body"))]);
    let result = obj(vec![("hits", obj(vec![("hits", JsonValue::Array(vec![hit]))]))]);
    let hits = extract_hits(&result).unwrap();
    assert_eq!(hits.len(), 1);
    let m = read_hit(&hits[0]);
    assert_eq!((m.source.as_str(), m.number, m.text.as_str()), ("doc.pdf", 5, "body"));
    let all = read_hits(hits);
    assert_eq!(all.len(), 1);
    assert_eq!(extract_hits(&obj(vec![("hits", obj(vec![]))])).unwrap_err(), SearchFormatError);
    let err = extract_hits(&JsonValue::Null).unwrap_err();
    assert_eq!(err.message(), "Unexpected Elasticsearch search response format");
    let bare = read_hit(&obj(vec![]));
    assert_eq!(bare.source, "unknown");
}

#[test]
fn generated_answer() {
    assert_eq!(answer_text(&obj(vec![("response", s("Peter is a rabbit."))])), "Peter is a rabbit.");
    assert_eq!(answer_text(&obj(vec![("response", JsonValue::Null)])), "No response");
    assert_eq!(answer_text(&JsonValue::Array(vec![])), "No response");
}


#[test]
fn error_messages() {
    assert_eq!(
        extract_rows(&JsonValue::Array(vec![])).unwrap_err().message(0),
        "SurrealDB returned an empty result array"
    );
    let both = JsonValue::Array(vec![obj(vec![
        ("result", JsonValue::Number(Some(5))),
        ("results", JsonValue::Array(vec![JsonValue::Number(Some(1))])),
    ])]);
    assert_eq!(
        extract_rows(&both).unwrap_err().message(0),
        "SurrealDB query result is not an array"
    );
    assert_eq!(
        extract_results_at_index(&JsonValue::Array(vec![statement(vec![])]), 2)
            .unwrap_err()
            .message(2),
        "SurrealDB response does not have item at index 2"
    );
    assert_eq!(ResponseError::NotAnArray.message(0), "Unexpected SurrealDB response format");
    assert_eq!(
        ResponseError::MissingResult.message(0),
        "Unable to find query results in SurrealDB response"
    );
    assert_eq!(ResponseError::MissingResult.brief_message(), "No results found");
    assert_eq!(ResponseError::ResultNotArray.brief_message(), "Result is not an array");
    assert_eq!(
        ResponseError::EmptyArray.brief_message(),
        "SurrealDB returned an empty result array"
    );
}
