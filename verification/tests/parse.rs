use gnosis::outside::YamlField;
use gnosis::parse::{
    assemble, extract_aliases, extract_frontmatter_list, extract_inline_tags, extract_tags,
    extract_wikilinks, first_h1, frontmatter_title, list_from_field, merge_tags, parse_markdown,
    split_frontmatter,
};

fn chars(s: &str) -> Vec<char> {
    s.chars().collect()
}

fn split(content: &str) -> (Option<String>, String) {
    let content = chars(content);
    let (frontmatter, body) = split_frontmatter(&content);
    (frontmatter.map(|f| f.iter().collect()), body.iter().collect())
}

#[test]
fn aliases_inline_list() {
    let fm = "aliases: [Foo, Bar Baz]\ntitle: Real Title";
    assert_eq!(extract_aliases(fm), vec!["Foo", "Bar Baz"]);
}

#[test]
fn aliases_block_list() {
    let fm = "aliases:\n  - Foo\n  - Bar Baz\n";
    assert_eq!(extract_aliases(fm), vec!["Foo", "Bar Baz"]);
}

#[test]
fn aliases_comma_shorthand() {
    let fm = "aliases: Foo, Bar Baz";
    assert_eq!(extract_aliases(fm), vec!["Foo", "Bar Baz"]);
}

#[test]
fn aliases_absent() {
    assert_eq!(extract_aliases("title: X"), Vec::<String>::new());
}

#[test]
fn tags_frontmatter_and_inline_merge_deduped() {
    let fm = "tags: [project, #urgent]";
    let body = "This is #project work, also #urgent and #123 (numeric, skipped).";
    let tags = extract_tags(Some(fm), body);
    assert_eq!(tags, vec!["project", "urgent"]);
}

#[test]
fn inline_tags_skip_code_blocks_and_headings() {
    let body = "# Heading\n\n```\n#include <stdio.h>\n```\n\nReal #tag here, not C#.";
    let tags = extract_tags(None, body);
    assert_eq!(tags, vec!["tag"]);
}

#[test]
fn embeds_distinguished_from_links_but_links_unchanged() {
    let (links, embeds) = extract_wikilinks("See [[Note A]] and ![[Note B]].");
    assert_eq!(links, vec!["Note A", "Note B"]);
    assert_eq!(embeds, vec!["Note B"]);
}

#[test]
fn frontmatter_is_split_at_the_first_whole_fence() {
    assert_eq!(split("---\na: 1\n---\nbody\n"), (Some("a: 1".into()), "body\n".into()));
    assert_eq!(split("---\na: 1\n---"), (Some("a: 1".into()), String::new()));
    assert_eq!(
        split("---\na\n----\nb\n---\nc"),
        (Some("a\n----\nb".into()), "c".into())
    );
}

#[test]
fn frontmatter_without_both_fences_is_body() {
    for content in ["", "text", "--- \na\n---\n", "---\nunterminated", "---\n---\nbody", "\n---\n"] {
        assert_eq!(split(content), (None, content.to_string()));
    }
}

#[test]
fn frontmatter_split_reassembles() {
    let content = "---\ntitle: é\nx: y\n---\n# Body\n";
    let (fm, body) = split(content);
    assert_eq!(format!("---\n{}\n---\n{}", fm.unwrap(), body), content);
}

#[test]
fn frontmatter_title_takes_the_first_value() {
    assert_eq!(frontmatter_title(&chars("x: 1\n  title: \"A 'b'\"  ")), Some("A 'b".into()));
    assert_eq!(frontmatter_title(&chars("title: ''\ntitle: later")), Some("later".into()));
    assert_eq!(frontmatter_title(&chars("subtitle: x")), None);
}

#[test]
fn first_h1_skips_code_and_blank_headings() {
    assert_eq!(first_h1(&chars("```\n# no\n```\n#  \n  # Yes \r\n# later")), Some("Yes".into()));
    assert_eq!(first_h1(&chars("~~~\n# no\n")), None);
    assert_eq!(first_h1(&chars("## two\n#one")), None);
}

#[test]
fn title_precedence_is_frontmatter_heading_file_stem() {
    let title = |path: &str, content: &str| parse_markdown(path, content).title;
    assert_eq!(title("/v/note.md", "---\ntitle: T\n---\n# H\n"), "T");
    assert_eq!(title("/v/note.md", "---\nx: 1\n---\n# H\n"), "H");
    assert_eq!(title("/v/my note.v2.md", "text"), "my note.v2");
    assert_eq!(title("/", "text"), "untitled");
}

#[test]
fn wikilinks_drop_alias_heading_and_repeats() {
    let body = "[[A|alias]] [[A#h]] [[ B # h | x ]] [[]] [[#only]] ![[A]] [[open";
    let (links, embeds) = extract_wikilinks(body);
    assert_eq!(links, vec!["A", "B"]);
    assert_eq!(embeds, vec!["A"]);
}

#[test]
fn wikilinks_take_the_nearest_closing_brackets() {
    let (links, _) = extract_wikilinks("é [[[x]]] [[y]z]] [[w\nv]]");
    assert_eq!(links, vec!["[x", "y]z", "w\nv"]);
}

#[test]
fn list_from_field_handles_each_kind_of_value() {
    assert!(list_from_field(&YamlField::Missing).is_empty());
    assert!(list_from_field(&YamlField::Other).is_empty());
    assert_eq!(list_from_field(&YamlField::Text(" a, ,b ,".into())), vec!["a", "b"]);
    let items = vec![Some(" a ".to_string()), None, Some("  ".to_string()), Some("b,c".to_string())];
    assert_eq!(list_from_field(&YamlField::List(items)), vec!["a", "b,c"]);
}

#[test]
fn frontmatter_list_reads_yaml() {
    assert_eq!(extract_frontmatter_list("k: [a, 1, b]", "k"), vec!["a", "b"]);
    assert!(extract_frontmatter_list("k: 7", "k").is_empty());
    assert!(extract_frontmatter_list("k: [a", "k").is_empty());
    assert!(extract_frontmatter_list("- k", "k").is_empty());
}

#[test]
fn inline_tags_follow_the_scanner_rules() {
    let body = "#a/b-c_1 x#no (#yes) #1x #_ #/ ##z\n  ## Heading #not\n#é #A1 #9";
    assert_eq!(extract_inline_tags(body), vec!["a/b-c_1", "yes", "_", "/", "z", "A1"]);
}

#[test]
fn frontmatter_tags_lose_their_hashes_and_come_first() {
    let field = YamlField::List(vec![
        Some("##x".to_string()),
        Some("#".to_string()),
        Some("y".to_string()),
        Some("x".to_string()),
    ]);
    assert_eq!(merge_tags(&field, &chars("#y #w #w")), vec!["x", "y", "w"]);
}

#[test]
fn assemble_puts_the_parts_together() {
    let content = "---\ntags: t\n---\n# H\n[[L]] ![[E]] #i\n";
    let doc = assemble("n.md", content, &YamlField::Text("t".into()));
    assert_eq!(doc.title, "H");
    assert_eq!(doc.frontmatter.as_deref(), Some("tags: t"));
    assert_eq!(doc.body, "# H\n[[L]] ![[E]] #i\n");
    assert_eq!(doc.links, vec!["L", "E"]);
    assert_eq!(doc.embeds, vec!["E"]);
    assert_eq!(doc.tags, vec!["t", "i"]);
    let parsed = parse_markdown("n.md", content);
    assert_eq!(parsed.tags, doc.tags);
}
