use rag_core::numbers::{format_i64, format_u64};
use rag_core::prompt::{
    answer_prompt, build_context, context_entry, hybrid_context, joke_prompt, page_rows_context,
    plan_for_hybrid, plan_for_matches, plan_for_page_rows, AnswerPlan, PageRow,
};
use rag_core::response::MatchRow;

fn m(source: &str, number: u64, text: &str) -> MatchRow {
    MatchRow { source: source.to_string(), number, text: text.to_string() }
}

#[test]
fn numbers_in_decimal() {
    for n in [0u64, 7, 10, 99, 100, 1234567890, u64::MAX] {
        assert_eq!(format_u64(n), n.to_string());
    }
    for i in [0i64, -1, 42, -42, i64::MIN, i64::MAX] {
        assert_eq!(format_i64(i), i.to_string());
    }
}

#[test]
fn one_context_entry() {
    assert_eq!(
        context_entry("tale.pdf", "Page", "3", "Once upon a time"),
        "\n--- Source: tale.pdf, Page: 3 ---\nOnce upon a time\n"
    );
}

#[test]
fn context_of_matches() {
    let ms = vec![m("a.pdf", 1, "first"), m("b.pdf", 12, "second")];
    assert_eq!(
        build_context(&ms, "Chunk"),
        "\n--- Source: a.pdf, Chunk: 1 ---\nfirst\n\n--- Source: b.pdf, Chunk: 12 ---\nsecond\n"
    );
    assert_eq!(build_context(&Vec::new(), "Page"), "");
}

#[test]
fn hybrid_context_tags() {
    let fts = vec![m("x", 0, "keyword hit")];
    let vector = vec![m("y", 0, "near"), m("z", 0, "nearer")];
    assert_eq!(
        hybrid_context(&fts, &vector),
        "\n[FTS Context] keyword hit\n\n[Vector Context] near\n\n[Vector Context] nearer\n"
    );
    assert_eq!(hybrid_context(&Vec::new(), &Vec::new()), "");
}

#[test]
fn answer_prompt_text() {
    assert_eq!(
        answer_prompt("CTX", "Who is Peter?"),
        "Use the following context to answer the question.\n\nContext:\nCTX\n\nQuestion: Who is Peter?\n\nAnswer:"
    );
}

#[test]
fn joke_prompt_text() {
    let kws: Vec<String> = ["coffee", "robots", "pizza", "astronauts", "socks"].iter().map(|s| s.to_string()).collect();
    assert_eq!(
        joke_prompt(&kws),
        "Create a funny joke using these keywords: coffee, robots, pizza, astronauts, socks"
    );
}

#[test]
fn answer_plans() {
    assert!(matches!(plan_for_matches(&Vec::new(), "Page"), AnswerPlan::NoMatches));
    match plan_for_matches(&vec![m("a.pdf", 2, "x")], "Page") {
        AnswerPlan::Generate(c) => assert_eq!(c, "\n--- Source: a.pdf, Page: 2 ---\nx\n"),
        AnswerPlan::NoMatches => panic!("expected a context"),
    }
    assert!(matches!(plan_for_hybrid(&Vec::new(), &Vec::new()), AnswerPlan::NoMatches));
    // A match with empty text still gives a context.
    match plan_for_hybrid(&Vec::new(), &vec![m("v", 0, "")]) {
        AnswerPlan::Generate(c) => assert_eq!(c, "\n[Vector Context] \n"),
        AnswerPlan::NoMatches => panic!("expected a context"),
    }
    assert!(matches!(plan_for_page_rows(&Vec::new()), AnswerPlan::NoMatches));
}

#[test]
fn page_row_context() {
    let rows = vec![
        PageRow { source: "s.pdf".to_string(), page: 4, text: "four".to_string() },
        PageRow { source: "s.pdf".to_string(), page: -1, text: "odd".to_string() },
    ];
    assert_eq!(
        page_rows_context(&rows),
        "\n--- Source: s.pdf, Page: 4 ---\nfour\n\n--- Source: s.pdf, Page: -1 ---\nodd\n"
    );
    match plan_for_page_rows(&rows) {
        AnswerPlan::Generate(c) => assert_eq!(c, page_rows_context(&rows)),
        AnswerPlan::NoMatches => panic!("expected a context"),
    }
}
