use rag_core::ids::{new_document_id, new_record_key, record_key_from_bytes};
use rag_core::load::{join_pages, numbered_texts, report_progress, strategy_named, ChunkStrategy};

#[test]
fn strategy_names() {
    assert_eq!(strategy_named("paragraph"), ChunkStrategy::Paragraph);
    assert_eq!(strategy_named("fixed"), ChunkStrategy::Fixed);
    assert_eq!(strategy_named("anything"), ChunkStrategy::Fixed);
}

#[test]
fn pages_joined_with_empty_lines() {
    let pages = vec!["p1".to_string(), "p2".to_string(), "p3".to_string()];
    assert_eq!(join_pages(&pages), "p1\n\np2\n\np3");
}

#[test]
fn pages_numbered_from_one_skipping_blank() {
    let pages = vec!["  first ".to_string(), " \n ".to_string(), "third".to_string()];
    let texts = numbered_texts(&pages, 1);
    assert_eq!(texts.len(), 2);
    assert_eq!((texts[0].number, texts[0].text.as_str()), (1, "first"));
    assert_eq!((texts[1].number, texts[1].text.as_str()), (3, "third"));
}

#[test]
fn chunks_numbered_from_zero() {
    let chunks = vec!["".to_string(), "b".to_string()];
    let texts = numbered_texts(&chunks, 0);
    assert_eq!(texts.len(), 1);
    assert_eq!(texts[0].number, 1);
}

#[test]
fn progress_every_fifth_and_last() {
    let reported: Vec<usize> = (0..12).filter(|&i| report_progress(i, 12)).collect();
    assert_eq!(reported, vec![4, 9, 11]);
}

#[test]
fn random_keys() {
    let k = new_record_key();
    assert_eq!(k.len(), 32);
    assert!(k.chars().all(|c| c.is_ascii_digit() || ('a'..='f').contains(&c)));
    assert_eq!(&k[12..13], "4");
    assert!(matches!(&k[16..17], "8" | "9" | "a" | "b"));
    assert_ne!(k, new_record_key());
    let id = new_document_id();
    assert!(id.starts_with("document:"));
    assert_eq!(id.len(), 41);
}

#[test]
fn record_key_of_bytes() {
    let bytes = [0x01u8, 0x23, 0x45, 0x67, 0x89, 0xab, 0xcd, 0xef, 0x00, 0x10, 0xff, 0xfe, 0x7f, 0x80, 0x0a, 0xa0];
    assert_eq!(record_key_from_bytes(bytes), "0123456789abcdef0010fffe7f800aa0");
}
