use rag_core::command::{parse_command, Command, CommandSet};

fn args(a: &[&str]) -> Vec<String> {
    a.iter().map(|s| s.to_string()).collect()
}

#[test]
fn load_and_ask() {
    match parse_command(&args(&["prog", "load", "doc.pdf"]), CommandSet::Pages) {
        Command::Load { path, strategy } => {
            assert_eq!(path, "doc.pdf");
            assert!(strategy.is_none());
        }
        _ => panic!("expected load"),
    }
    match parse_command(&args(&["prog", "ask", "Who is Peter?"]), CommandSet::Pages) {
        Command::Ask { question } => assert_eq!(question, "Who is Peter?"),
        _ => panic!("expected ask"),
    }
}

#[test]
fn strategies() {
    match parse_command(&args(&["prog", "load", "doc.pdf"]), CommandSet::Strategies) {
        Command::Load { strategy, .. } => assert_eq!(strategy.as_deref(), Some("fixed")),
        _ => panic!("expected load"),
    }
    match parse_command(&args(&["prog", "load", "doc.pdf", "paragraph"]), CommandSet::Strategies) {
        Command::Load { strategy, .. } => assert_eq!(strategy.as_deref(), Some("paragraph")),
        _ => panic!("expected load"),
    }
    assert!(matches!(
        parse_command(&args(&["prog", "load", "doc.pdf", "paragraph"]), CommandSet::Pages),
        Command::Usage
    ));
}

#[test]
fn init_db_only_for_documents() {
    assert!(matches!(parse_command(&args(&["prog", "init_db"]), CommandSet::Documents), Command::InitDb));
    assert!(matches!(parse_command(&args(&["prog", "init_db"]), CommandSet::Pages), Command::Usage));
}

#[test]
fn anything_else_is_usage() {
    for a in [vec!["prog"], vec!["prog", "ask"], vec!["prog", "remove", "x"], vec!["prog", "Load", "x"]] {
        assert!(matches!(parse_command(&args(&a), CommandSet::Documents), Command::Usage));
    }
}
