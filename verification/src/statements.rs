use vstd::prelude::*;

use crate::text::{chars_of, join_strings, join_with, push_char, string_views};

verus! {

/// `s` with a backslash put before every single quote, so that it can
/// stand between single quotes in a query.
pub open spec fn escape_quotes(s: Seq<char>) -> Seq<char>
    decreases s.len(),
{
    if s.len() == 0 {
        seq![]
    } else if s.last() == '\'' {
        escape_quotes(s.drop_last()) + seq!['\\', '\'']
    } else {
        escape_quotes(s.drop_last()).push(s.last())
    }
}

/// `s` with every `'` replaced by `\'` (`str::replace("'", "\\'")`).
pub fn escape_single_quotes(s: &str) -> (r: String)
    ensures
        r@ == escape_quotes(s@),
{
    let cs = chars_of(s);
    let mut r = String::new();
    let mut i: usize = 0;
    assert(cs@.take(0) =~= seq![]);
    while i < cs.len()
        invariant
            i <= cs@.len(),
            r@ == escape_quotes(cs@.take(i as int)),
        decreases cs.len() - i,
    {
        assert(cs@.take(i + 1).drop_last() =~= cs@.take(i as int));
        let c = cs[i];
        if c == '\'' {
            push_char(&mut r, '\\');
            push_char(&mut r, '\'');
            assert(r@ =~= escape_quotes(cs@.take(i + 1)));
        } else {
            push_char(&mut r, c);
        }
        i += 1;
    }
    assert(cs@.take(cs@.len() as int) =~= s@);
    r
}

/// In an escaped text every single quote follows a backslash, and the
/// escaped text is the original with one backslash more per quote.
pub proof fn lemma_escaped_quotes_follow_backslash(s: Seq<char>)
    ensures
        forall|i: int|
            0 <= i < escape_quotes(s).len() && #[trigger] escape_quotes(s)[i] == '\'' ==> i > 0
                && escape_quotes(s)[i - 1] == '\\',
        escape_quotes(s).len() == s.len() + s.filter(|c: char| c == '\'').len(),
    decreases s.len(),
{
    reveal_with_fuel(Seq::<_>::filter, 1);
    if s.len() > 0 {
        let t = s.drop_last();
        lemma_escaped_quotes_follow_backslash(t);
        let e = escape_quotes(s);
        let et = escape_quotes(t);
        assert(s.drop_last() == t);
        assert forall|i: int| 0 <= i < e.len() && #[trigger] e[i] == '\'' implies i > 0 && e[i
            - 1] == '\\' by {
            if i < et.len() {
                assert(e[i] == et[i]);
                assert(e[i - 1] == et[i - 1]);
            }
        }
    }
}

/// The statement that selects the namespace and database.
pub open spec fn use_statement_text(ns: Seq<char>, db: Seq<char>) -> Seq<char> {
    "USE NS "@ + ns + "; USE DB "@ + db + ";"@
}

/// The statement that selects the namespace and database.
pub fn use_statement(ns: &str, db: &str) -> (r: String)
    ensures
        r@ == use_statement_text(ns@, db@),
{
    let mut r = "USE NS ".to_owned();
    r.append(ns);
    r.append("; USE DB ");
    r.append(db);
    r.append(";");
    r
}

/// The statements that prepare the store: select the database and index the
/// chunk embeddings; with `with_documents`, also index the chunk texts for
/// full-text search and define the document table.
pub fn setup_statements(ns: &str, db: &str, with_documents: bool) -> (r: Vec<String>)
    ensures
        string_views(r@) == if with_documents {
            seq![
                use_statement_text(ns@, db@),
                "DEFINE INDEX IF NOT EXISTS chunk_embedding ON chunk FIELDS embedding HNSW DIMENSION 4096 DISTANCE COSINE;"@,
                "DEFINE ANALYZER IF NOT EXISTS ascii TOKENIZERS blank FILTERS ascii, lowercase;"@,
                "DEFINE INDEX IF NOT EXISTS chunk_text ON chunk FIELDS text FULLTEXT ANALYZER ascii BM25 HIGHLIGHTS;"@,
                "DEFINE TABLE document SCHEMAFULL;"@,
                "DEFINE FIELD name ON document TYPE string;"@,
                "DEFINE FIELD created_at ON document TYPE datetime DEFAULT time::now();"@,
            ]
        } else {
            seq![
                use_statement_text(ns@, db@),
                "DEFINE INDEX IF NOT EXISTS chunk_embedding ON chunk FIELDS embedding HNSW DIMENSION 4096 DISTANCE COSINE;"@,
            ]
        },
{
    let mut r: Vec<String> = Vec::new();
    r.push(use_statement(ns, db));
    r.push(
        "DEFINE INDEX IF NOT EXISTS chunk_embedding ON chunk FIELDS embedding HNSW DIMENSION 4096 DISTANCE COSINE;".to_owned(),
    );
    if with_documents {
        r.push(
            "DEFINE ANALYZER IF NOT EXISTS ascii TOKENIZERS blank FILTERS ascii, lowercase;".to_owned(),
        );
        r.push(
            "DEFINE INDEX IF NOT EXISTS chunk_text ON chunk FIELDS text FULLTEXT ANALYZER ascii BM25 HIGHLIGHTS;".to_owned(),
        );
        r.push("DEFINE TABLE document SCHEMAFULL;".to_owned());
        r.push("DEFINE FIELD name ON document TYPE string;".to_owned());
        r.push("DEFINE FIELD created_at ON document TYPE datetime DEFAULT time::now();".to_owned());
    }
    assert(string_views(r@) =~= if with_documents {
        seq![
            use_statement_text(ns@, db@),
            "DEFINE INDEX IF NOT EXISTS chunk_embedding ON chunk FIELDS embedding HNSW DIMENSION 4096 DISTANCE COSINE;"@,
            "DEFINE ANALYZER IF NOT EXISTS ascii TOKENIZERS blank FILTERS ascii, lowercase;"@,
            "DEFINE INDEX IF NOT EXISTS chunk_text ON chunk FIELDS text FULLTEXT ANALYZER ascii BM25 HIGHLIGHTS;"@,
            "DEFINE TABLE document SCHEMAFULL;"@,
            "DEFINE FIELD name ON document TYPE string;"@,
            "DEFINE FIELD created_at ON document TYPE datetime DEFAULT time::now();"@,
        ]
    } else {
        seq![
            use_statement_text(ns@, db@),
            "DEFINE INDEX IF NOT EXISTS chunk_embedding ON chunk FIELDS embedding HNSW DIMENSION 4096 DISTANCE COSINE;"@,
        ]
    });
    r
}

/// The statement that stores a chunk record given as JSON text.
pub fn create_chunk_statement(record_json: &str) -> (r: String)
    ensures
        r@ == "CREATE chunk CONTENT "@ + record_json@ + ";"@,
{
    let mut r = "CREATE chunk CONTENT ".to_owned();
    r.append(record_json);
    r.append(";");
    r
}

/// The statement that stores a chunk record, given as JSON text, under the
/// record key `key`.
pub fn create_keyed_chunk_statement(key: &str, record_json: &str) -> (r: String)
    ensures
        r@ == "CREATE chunk:"@ + key@ + " CONTENT "@ + record_json@ + ";"@,
{
    let mut r = "CREATE chunk:".to_owned();
    r.append(key);
    r.append(" CONTENT ");
    r.append(record_json);
    r.append(";");
    r
}

/// The statement that creates a document record with its name.
pub fn create_document_statement(doc_id: &str, name: &str) -> (r: String)
    ensures
        r@ == "CREATE "@ + doc_id@ + " SET name = '"@ + name@ + "';"@,
{
    let mut r = "CREATE ".to_owned();
    r.append(doc_id);
    r.append(" SET name = '");
    r.append(name);
    r.append("';");
    r
}

/// The statement that creates or replaces a document record with its name.
pub fn upsert_document_statement(doc_id: &str, name: &str) -> (r: String)
    ensures
        r@ == "UPSERT "@ + doc_id@ + " SET name = '"@ + name@ + "';"@,
{
    let mut r = "UPSERT ".to_owned();
    r.append(doc_id);
    r.append(" SET name = '");
    r.append(name);
    r.append("';");
    r
}

/// The statement that relates a document to a chunk key.
pub fn relate_statement(doc_id: &str, chunk_key: &str) -> (r: String)
    ensures
        r@ == "RELATE "@ + doc_id@ + "->contains->chunk:"@ + chunk_key@,
{
    let mut r = "RELATE ".to_owned();
    r.append(doc_id);
    r.append("->contains->chunk:");
    r.append(chunk_key);
    r
}

/// The full-text search for the question, best three first; the question
/// stands quoted, its quotes escaped.
pub fn fulltext_search_statement(question: &str) -> (r: String)
    ensures
        r@ == "SELECT *, search::score(1) AS score FROM chunk WHERE text @1@ '"@ + escape_quotes(
            question@,
        ) + "' ORDER BY score DESC LIMIT 3;"@,
{
    let mut r = "SELECT *, search::score(1) AS score FROM chunk WHERE text @1@ '".to_owned();
    let escaped = escape_single_quotes(question);
    r.append(escaped.as_str());
    r.append("' ORDER BY score DESC LIMIT 3;");
    r
}

/// The nearest-neighbour search for an embedding given as JSON text,
/// nearest first.
pub fn knn_search_statement(embedding_json: &str) -> (r: String)
    ensures
        r@ == "SELECT *, vector::distance::knn() AS distance FROM chunk WHERE embedding <|3,40|> "@
            + embedding_json@ + " ORDER BY distance ASC;"@,
{
    let mut r = "SELECT *, vector::distance::knn() AS distance FROM chunk WHERE embedding <|3,40|> ".to_owned();
    r.append(embedding_json);
    r.append(" ORDER BY distance ASC;");
    r
}

/// The body of a query request: the statements, one per line.
pub fn request_body(statements: &Vec<String>) -> (r: String)
    ensures
        r@ == join_with(string_views(statements@), "\n"@),
{
    join_strings(statements, "\n")
}

/// The address of a search index.
pub fn index_url(base: &str, index: &str) -> (r: String)
    ensures
        r@ == base@ + "/"@ + index@,
{
    let mut r = base.to_owned();
    r.append("/");
    r.append(index);
    r
}

/// The address that stores a document in a search index.
pub fn document_url(base: &str, index: &str) -> (r: String)
    ensures
        r@ == base@ + "/"@ + index@ + "/_doc"@,
{
    let mut r = index_url(base, index);
    r.append("/_doc");
    r
}

/// The address that searches a search index.
pub fn search_url(base: &str, index: &str) -> (r: String)
    ensures
        r@ == base@ + "/"@ + index@ + "/_search"@,
{
    let mut r = index_url(base, index);
    r.append("/_search");
    r
}

/// The JSON body that creates the search index: a cosine-similarity dense
/// vector of 4096 dimensions for the embedding, full text for the text, a
/// keyword for the source and an integer for the page.
pub fn index_mapping_body() -> (r: String)
    ensures
        r@ == "{\"mappings\":{\"properties\":{\"embedding\":{\"dims\":4096,\"index\":true,\"similarity\":\"cosine\",\"type\":\"dense_vector\"},\"page\":{\"type\":\"integer\"},\"source\":{\"type\":\"keyword\"},\"text\":{\"type\":\"text\"}}}}"@,
{
    "{\"mappings\":{\"properties\":{\"embedding\":{\"dims\":4096,\"index\":true,\"similarity\":\"cosine\",\"type\":\"dense_vector\"},\"page\":{\"type\":\"integer\"},\"source\":{\"type\":\"keyword\"},\"text\":{\"type\":\"text\"}}}}".to_owned()
}

/// Whether the status of an index lookup says the index does not exist yet.
pub fn index_missing(status: u16) -> (b: bool)
    ensures
        b == (status == 404),
{
    status == 404
}

} // verus!
