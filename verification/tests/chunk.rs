use gnosis::chunk::{chunk_markdown, heading_path, sections_from_events, split_sections, window};
use gnosis::outside::MarkdownEvent;

#[test]
fn test_window() {
    let text = "The quick brown fox jumps over the lazy dog";
    let chunks = window(text, 4, 2);
    assert_eq!(
        chunks,
        vec!["The quick brown fox", "brown fox jumps over", "jumps over the lazy", "the lazy dog"]
    );
}

#[test]
fn test_split_sections() {
    let md = r#"# Heading 1
Some text under heading 1.
## Heading 2
Some text under heading 2.
"#;
    let sections = split_sections(md);
    assert_eq!(sections.len(), 2);
    assert_eq!(sections[0].heading_path, "Heading 1");
    assert_eq!(sections[0].text, "Some text under heading 1.");
    assert_eq!(sections[1].heading_path, "Heading 1 > Heading 2");
    assert_eq!(sections[1].text, "Some text under heading 2.");
}

#[test]
fn test_chunk_markdown() {
    let md = r#"# Heading 1
Some text under heading 1 that is long enough to be split into multiple chunks. It has several sentences and should be divided properly.
## Heading 2
Some text under heading 2 that is also long enough to be split into multiple chunks. It has several sentences and should be divided properly.
"#;
    let chunks = chunk_markdown(md, 10, 2);

    assert_eq!(chunks.len(), 6);
    assert_eq!(chunks[0].heading_path, "Heading 1");
    assert_eq!(chunks[1].heading_path, "Heading 1");
    assert_eq!(chunks[2].heading_path, "Heading 1");
    assert_eq!(chunks[3].heading_path, "Heading 1 > Heading 2");
    assert_eq!(chunks[4].heading_path, "Heading 1 > Heading 2");
    assert_eq!(chunks[5].heading_path, "Heading 1 > Heading 2");
    let ords: Vec<usize> = chunks.iter().map(|c| c.ord).collect();
    assert_eq!(ords, vec![0, 1, 2, 3, 4, 5]);
}

#[test]
fn window_of_blank_text_is_empty() {
    assert!(window("", 4, 2).is_empty());
    assert!(window(" \n\t ", 4, 2).is_empty());
}

#[test]
fn window_of_short_text_is_one_window_with_single_spaces() {
    assert_eq!(window("  a \n b\tc ", 3, 1), vec!["a b c"]);
}

#[test]
fn window_steps_by_one_when_the_overlap_is_too_large() {
    assert_eq!(window("a b c d", 2, 5), vec!["a b", "b c", "c d"]);
    assert_eq!(window("a b c d", 2, 2), vec!["a b", "b c", "c d"]);
}

#[test]
fn window_of_no_words_gives_an_empty_window_per_step() {
    assert_eq!(window("a b", 0, 0), vec!["", ""]);
}

#[test]
fn windows_cover_every_word_and_overlap() {
    let words: Vec<String> = (0..57).map(|i| format!("w{i}")).collect();
    let windows = window(&words.join(" "), 10, 3);
    let mut next = 0;
    for (k, w) in windows.iter().enumerate() {
        let parts: Vec<&str> = w.split(' ').collect();
        assert_eq!(parts[0], words[k * 7]);
        assert!(k * 7 <= next);
        next = k * 7 + parts.len();
    }
    assert_eq!(next, words.len());
}

#[test]
fn sections_drop_deeper_headings_when_a_higher_one_comes() {
    let md = "intro\n\n# A\n\none\n\n## B\n\ntwo\n\n### C\n\nthree\n\n## D\n\nfour\n\n# E\n\nfive\n";
    let got: Vec<(String, String)> =
        split_sections(md).into_iter().map(|s| (s.heading_path, s.text)).collect();
    let want = [
        ("", "intro"),
        ("A", "one"),
        ("A > B", "two"),
        ("A > B > C", "three"),
        ("A > D", "four"),
        ("E", "five"),
    ];
    let want: Vec<(String, String)> =
        want.iter().map(|(h, t)| (h.to_string(), t.to_string())).collect();
    assert_eq!(got, want);
}

#[test]
fn sections_keep_code_and_breaks_but_not_empty_sections() {
    let md = "# A\n\n## B `c`\n\nsoft\nbreak and `code`\n\n- one\n- two\n\n```\nfenced\n```\n";
    let sections = split_sections(md);
    assert_eq!(sections.len(), 1);
    assert_eq!(sections[0].heading_path, "A > B c");
    assert_eq!(sections[0].text, "soft break and code\none\ntwo\nfenced");
}

#[test]
fn sections_from_events_reads_each_kind_of_event() {
    let events = vec![
        MarkdownEvent::Text("a".to_string()),
        MarkdownEvent::HardBreak,
        MarkdownEvent::Code("b".to_string()),
        MarkdownEvent::Other,
        MarkdownEvent::ItemEnd,
        MarkdownEvent::HeadingStart,
        MarkdownEvent::Text(" T ".to_string()),
        MarkdownEvent::SoftBreak,
        MarkdownEvent::HeadingEnd(2),
        MarkdownEvent::Text("c".to_string()),
        MarkdownEvent::CodeBlockEnd,
        MarkdownEvent::ParagraphEnd,
    ];
    let sections = sections_from_events(&events);
    assert_eq!(sections.len(), 2);
    assert_eq!(sections[0].heading_path, "");
    assert_eq!(sections[0].text, "a b");
    assert_eq!(sections[1].heading_path, "T");
    assert_eq!(sections[1].text, "c");
}

#[test]
fn heading_path_leaves_empty_titles_out() {
    let stack =
        vec![(1, "Design".to_string()), (2, String::new()), (3, "Storage".to_string())];
    assert_eq!(heading_path(&stack), "Design > Storage");
    assert_eq!(heading_path(&[]), "");
}
