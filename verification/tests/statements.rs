use rag_core::statements::{
    create_chunk_statement, create_document_statement, create_keyed_chunk_statement, document_url,
    escape_single_quotes, index_mapping_body,
    fulltext_search_statement, index_missing, index_url, knn_search_statement, relate_statement,
    request_body, search_url, setup_statements, upsert_document_statement, use_statement,
};

#[test]
fn use_statement_text() {
    assert_eq!(use_statement("rag", "sample"), "USE NS rag; USE DB sample;");
}

#[test]
fn setup_without_documents() {
    assert_eq!(
        setup_statements("rag", "extended", false),
        vec![
            "USE NS rag; USE DB extended;".to_string(),
            "DEFINE INDEX IF NOT EXISTS chunk_embedding ON chunk FIELDS embedding HNSW DIMENSION 4096 DISTANCE COSINE;".to_string(),
        ]
    );
}

#[test]
fn setup_with_documents() {
    let s = setup_statements("rag", "sample", true);
    assert_eq!(s.len(), 7);
    assert_eq!(s[2], "DEFINE ANALYZER IF NOT EXISTS ascii TOKENIZERS blank FILTERS ascii, lowercase;");
    assert_eq!(s[6], "DEFINE FIELD created_at ON document TYPE datetime DEFAULT time::now();");
}

#[test]
fn record_statements() {
    assert_eq!(create_chunk_statement("{\"a\":1}"), "CREATE chunk CONTENT {\"a\":1};");
    assert_eq!(
        create_document_statement("document:abc", "tale.pdf"),
        "CREATE document:abc SET name = 'tale.pdf';"
    );
    assert_eq!(
        upsert_document_statement("document:sample_peter", "Sample Data"),
        "UPSERT document:sample_peter SET name = 'Sample Data';"
    );
    assert_eq!(relate_statement("document:abc", "k1"), "RELATE document:abc->contains->chunk:k1");
}

#[test]
fn quotes_are_escaped() {
    assert_eq!(escape_single_quotes("Peter's 'coat'"), "Peter\\'s \\'coat\\'");
    assert_eq!(escape_single_quotes("plain"), "plain");
    let q = "it's";
    assert_eq!(escape_single_quotes(q), q.replace("'", "\\'"));
}

#[test]
fn search_statements() {
    assert_eq!(
        fulltext_search_statement("Who's Peter?"),
        "SELECT *, search::score(1) AS score FROM chunk WHERE text @1@ 'Who\\'s Peter?' ORDER BY score DESC LIMIT 3;"
    );
    assert_eq!(
        knn_search_statement("[0.5,1.0]"),
        "SELECT *, vector::distance::knn() AS distance FROM chunk WHERE embedding <|3,40|> [0.5,1.0] ORDER BY distance ASC;"
    );
}

#[test]
fn body_is_one_statement_per_line() {
    let stmts = vec!["USE NS rag; USE DB sample;".to_string(), "SELECT 1;".to_string()];
    assert_eq!(request_body(&stmts), "USE NS rag; USE DB sample;\nSELECT 1;");
}

#[test]
fn search_index_addresses() {
    let base = "http://127.0.0.1:9200";
    assert_eq!(index_url(base, "pdf_chunks"), "http://127.0.0.1:9200/pdf_chunks");
    assert_eq!(document_url(base, "pdf_chunks"), "http://127.0.0.1:9200/pdf_chunks/_doc");
    assert_eq!(search_url(base, "pdf_chunks"), "http://127.0.0.1:9200/pdf_chunks/_search");
    assert!(index_missing(404));
    assert!(!index_missing(200));
}

#[test]
fn keyed_chunk_statement() {
    assert_eq!(
        create_keyed_chunk_statement("abc123", "{\"text\":\"t\"}"),
        "CREATE chunk:abc123 CONTENT {\"text\":\"t\"};"
    );
}

#[test]
fn index_mapping() {
    let body = index_mapping_body();
    let v: serde_json::Value = serde_json::from_str(&body).unwrap();
    let props = &v["mappings"]["properties"];
    assert_eq!(props["embedding"]["type"], "dense_vector");
    assert_eq!(props["embedding"]["dims"], 4096);
    assert_eq!(props["embedding"]["index"], true);
    assert_eq!(props["embedding"]["similarity"], "cosine");
    assert_eq!(props["text"]["type"], "text");
    assert_eq!(props["source"]["type"], "keyword");
    assert_eq!(props["page"]["type"], "integer");
    assert_eq!(props.as_object().unwrap().len(), 4);
    assert_eq!(serde_json::to_string(&v).unwrap(), body);
}
