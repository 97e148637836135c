use rag_core::chunking::{chunk_text_fixed, chunk_text_paragraphs};
use rag_core::load::{chunk_document, ChunkStrategy, CHUNK_OVERLAP, CHUNK_SIZE};

#[test]
fn fixed_empty_text_has_no_chunks() {
    assert!(chunk_text_fixed("", 10, 3).is_empty());
}

#[test]
fn fixed_short_text_is_one_chunk() {
    assert_eq!(chunk_text_fixed("hello", 10, 3), vec!["hello".to_string()]);
    assert_eq!(chunk_text_fixed("hello", 5, 3), vec!["hello".to_string()]);
}

#[test]
fn fixed_short_text_with_overlap_not_below_size() {
    // The window never has to move, so an overlap as large as the size is fine.
    assert_eq!(chunk_text_fixed("abc", 3, 5), vec!["abc".to_string()]);
}

#[test]
fn fixed_windows_share_overlap() {
    assert_eq!(
        chunk_text_fixed("abcdefghij", 4, 2),
        vec!["abcd".to_string(), "cdef".to_string(), "efgh".to_string(), "ghij".to_string()]
    );
}

#[test]
fn fixed_last_chunk_may_be_short() {
    assert_eq!(
        chunk_text_fixed("abcdefg", 3, 1),
        vec!["abc".to_string(), "cde".to_string(), "efg".to_string()]
    );
    assert_eq!(
        chunk_text_fixed("abcdefgh", 3, 1),
        vec!["abc".to_string(), "cde".to_string(), "efg".to_string(), "gh".to_string()]
    );
}

#[test]
fn fixed_without_overlap_partitions() {
    assert_eq!(
        chunk_text_fixed("abcdefg", 3, 0),
        vec!["abc".to_string(), "def".to_string(), "g".to_string()]
    );
}

#[test]
fn fixed_counts_characters_not_bytes() {
    let text = "héllo wörld ünïcode";
    let chunks = chunk_text_fixed(text, 5, 1);
    for c in &chunks[..chunks.len() - 1] {
        assert_eq!(c.chars().count(), 5);
    }
    assert_eq!(chunks[0], "héllo");
    assert_eq!(chunks[1], "o wör");
}

#[test]
fn fixed_reassembles_and_counts() {
    let text: String = (0..2345).map(|i| char::from(b'a' + (i % 26) as u8)).collect();
    let chunks = chunk_text_fixed(&text, 1000, 200);
    // 1 + ceil((2345 - 1000) / 800) chunks
    assert_eq!(chunks.len(), 3);
    let mut rebuilt = String::new();
    for (i, c) in chunks.iter().enumerate() {
        let n = c.chars().count();
        if i + 1 < chunks.len() {
            assert_eq!(n, 1000);
            let tail: String = c.chars().skip(800).collect();
            let head: String = chunks[i + 1].chars().take(200).collect();
            assert_eq!(tail, head);
            rebuilt.extend(c.chars().take(800));
        } else {
            rebuilt.push_str(c);
        }
    }
    assert_eq!(rebuilt, text);
}

#[test]
fn paragraphs_split_at_empty_lines() {
    assert_eq!(
        chunk_text_paragraphs("First para.\n\n  Second para.  \n\n\n\nThird"),
        vec!["First para.".to_string(), "Second para.".to_string(), "Third".to_string()]
    );
}

#[test]
fn paragraphs_drop_blank_pieces() {
    assert!(chunk_text_paragraphs("").is_empty());
    assert!(chunk_text_paragraphs("\n\n \n\n\t").is_empty());
}

#[test]
fn paragraphs_keep_single_line_breaks() {
    assert_eq!(
        chunk_text_paragraphs("line one\nline two\n\nnext"),
        vec!["line one\nline two".to_string(), "next".to_string()]
    );
}

#[test]
fn paragraphs_odd_newline_runs() {
    // "\n\n\n" splits once, leaving a lone line feed that trims away.
    assert_eq!(
        chunk_text_paragraphs("a\n\n\nb"),
        vec!["a".to_string(), "b".to_string()]
    );
}

#[test]
fn paragraphs_agree_with_std_split() {
    let samples = [
        "x\n\ny\n\n\n\nz",
        "  lead\n\ntrail  \n\n",
        "\u{3000}wide space\u{3000}\n\n\u{a0}nbsp",
        "one\r\n\r\ntwo",
        "no breaks at all",
    ];
    for s in samples {
        let expected: Vec<String> = s
            .split("\n\n")
            .map(|p| p.trim().to_string())
            .filter(|p| !p.is_empty())
            .collect();
        assert_eq!(chunk_text_paragraphs(s), expected, "sample {:?}", s);
    }
}

#[test]
fn document_strategies() {
    assert_eq!(CHUNK_SIZE, 1000);
    assert_eq!(CHUNK_OVERLAP, 200);
    let text = "p1\n\np2";
    assert_eq!(chunk_document(text, ChunkStrategy::Paragraph), vec!["p1", "p2"]);
    assert_eq!(chunk_document(text, ChunkStrategy::Fixed), vec!["p1\n\np2"]);
}

#[test]
fn paragraphs_follow_page_boundaries() {
    let pages = vec![
        "Page one\nstill one".to_string(),
        "  page two ".to_string(),
        "   ".to_string(),
        "page four".to_string(),
    ];
    let text = rag_core::load::join_pages(&pages);
    assert_eq!(
        chunk_document(&text, ChunkStrategy::Paragraph),
        vec!["Page one\nstill one", "page two", "page four"]
    );
}

#[test]
fn page_ending_in_line_feed_moves_the_boundary() {
    // A page that ends with a line feed lets the empty line start one
    // character early, so the next page keeps a leading line feed, which
    // trimming then removes.
    let pages = vec!["a\n".to_string(), "b".to_string()];
    let text = rag_core::load::join_pages(&pages);
    assert_eq!(text, "a\n\n\nb");
    assert_eq!(chunk_text_paragraphs(&text), vec!["a", "b"]);
}

#[test]
fn paragraphs_of_joined_texts() {
    let samples = ["", "a", "a\n", "a\n\n", "\nb", "x\n\ny\n", "  \n", "p\n\n\n", "\n\nq\n\nr"];
    for a in samples {
        for b in samples {
            let joined = format!("{}\n\n{}", a, b);
            let mut expected = chunk_text_paragraphs(a);
            expected.extend(chunk_text_paragraphs(b));
            assert_eq!(chunk_text_paragraphs(&joined), expected, "a={:?} b={:?}", a, b);
        }
    }
}
