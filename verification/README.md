# rag_core

A verified library for retrieval-augmented question answering over PDF
documents, with command-line front ends around it.

`src/` is the library, written in Verus: every function states its result
in `requires`/`ensures`, and the properties that tie functions together are
proof functions (`lemma_*`). It covers what the pipelines compute:

- cutting a document into fixed-size chunks that overlap, or into
  paragraphs;
- trimming, splitting, joining and previewing text;
- numbering the pages or chunks to store and skipping the blank ones;
- the database statements and search addresses that store and retrieve
  chunks;
- reading rows, hits and answers from JSON replies;
- the prompts and the context of retrieved chunks given to the model;
- reading the command line;
- random record keys.

`app/` is ordinary Rust around it: the HTTP calls to Ollama, SurrealDB and
Elasticsearch, PostgreSQL with pgvector, PDF text extraction, terminal input
and output. Its first argument picks a front end:

    rag joke
    rag elasticsearch (load <pdf> | ask "<question>")
    rag postgres (load <pdf> | ask "<question>")
    rag surrealdb (load <pdf> | ask "<question>")
    rag surrealdb-chunks (load <pdf> [fixed|paragraph] | ask "<question>")
    rag surrealdb-documents (init_db | load <pdf> | ask "<question>")

`tests/` runs the library on concrete inputs, several of them against the
standard library's own `trim`, `lines`, `split` and `is_whitespace`.
