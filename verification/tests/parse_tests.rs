use jrni::{Entry, FileInfo, MetaValue};

fn lines_of(content: &str) -> Vec<String> {
    content.lines().map(|l| l.to_string()).collect()
}

fn info() -> FileInfo {
    FileInfo { size: 7, modified_secs: 1_000_000, modified_nanos: 42 }
}

fn parse(content: &str) -> Entry {
    Entry::from_lines("notes/test.md".to_string(), info(), &lines_of(content))
}

#[test]
fn parse_tags_and_id() {
    let e = parse("tags: a, b, c\nid: x1\n---\nhello");
    assert_eq!(e.get_tags().unwrap(), vec!["a", "b", "c"]);
    assert_eq!(e.get_id().as_deref(), Some("x1"));
    assert_eq!(e.body, "hello");
    assert!(e.frontmatter_err.is_none());
    assert_eq!(e.path, "notes/test.md");
    assert_eq!(e.file_info, info());
}

#[test]
fn no_delimiter_prose() {
    let e = parse("just prose\nmore text");
    assert_eq!(e.get_tags().unwrap(), Vec::<String>::new());
    assert_eq!(e.get_id(), None);
    assert_eq!(e.body, "just prose\nmore text");
    assert!(e.frontmatter_err.is_some());
}

#[test]
fn sequence_tags_passthrough() {
    let e = parse("tags: [x, y]\n---\nbody text");
    assert_eq!(e.get_tags().unwrap(), vec!["x", "y"]);
    assert_eq!(e.body, "body text");
}

#[test]
fn parse_twice_identical() {
    let content = "tags: a, b\nid: z9\nextra: [1, deep]\n---\nline one\nline two";
    let e1 = parse(content);
    let e2 = parse(content);
    assert_eq!(e1.frontmatter, e2.frontmatter);
    assert_eq!(e1.frontmatter_err, e2.frontmatter_err);
    assert_eq!(e1.body, e2.body);
    let bad = "a: [unclosed\n---\nbody";
    let b1 = parse(bad);
    let b2 = parse(bad);
    assert_eq!(b1.frontmatter_err, b2.frontmatter_err);
    assert!(b1.frontmatter_err.is_some());
    assert_eq!(b1.body, b2.body);
}

#[test]
fn malformed_tags_number() {
    let e = parse("tags: 42\n---\nbody");
    assert_eq!(e.get_tags().unwrap(), Vec::<String>::new());
    assert!(e.frontmatter_err.is_none());
    assert_eq!(e.body, "body");
}

#[test]
fn empty_id_absent() {
    let e = parse("id: \n---\nbody");
    assert_eq!(e.get_id(), None);
    assert_eq!(e.body, "body");
}

#[test]
fn empty_string_id_absent() {
    let e = parse("id: ''\n---\nbody");
    assert_eq!(e.get_id(), None);
}

#[test]
fn decode_failure_keeps_whole_file_as_body() {
    let e = parse("a: [unclosed\n---\nbody after");
    assert!(e.frontmatter_err.is_some());
    assert_eq!(e.body, "a: [unclosed\n---\nbody after");
    assert_eq!(e.get_tags().unwrap(), Vec::<String>::new());
}

#[test]
fn no_delimiter_mapping_gives_empty_body() {
    let e = parse("tags: a\nid: q");
    assert!(e.frontmatter_err.is_none());
    assert_eq!(e.get_tags().unwrap(), vec!["a"]);
    assert_eq!(e.get_id().as_deref(), Some("q"));
    assert_eq!(e.body, "");
}

#[test]
fn delimiter_recognized_with_whitespace() {
    let e = parse("id: w\n  ---  \nbody");
    assert_eq!(e.get_id().as_deref(), Some("w"));
    assert_eq!(e.body, "body");
    assert!(jrni::line_is_delim("  ---  "));
    assert!(jrni::line_is_delim("---"));
    assert!(!jrni::line_is_delim("----"));
    assert!(!jrni::line_is_delim("-- -"));
}

#[test]
fn later_delimiters_go_to_body() {
    let e = parse("id: k\n---\nfirst\n---\nsecond");
    assert_eq!(e.get_id().as_deref(), Some("k"));
    assert_eq!(e.body, "first\n---\nsecond");
}

#[test]
fn tags_with_spaces_are_trimmed() {
    let e = parse("tags: alpha ,  beta gamma , d\n---\n");
    assert_eq!(e.get_tags().unwrap(), vec!["alpha", "beta gamma", "d"]);
}

#[test]
fn empty_scalar_tags_yield_one_empty_tag() {
    let e = parse("tags: ''\n---\nx");
    assert_eq!(e.get_tags().unwrap(), vec![""]);
}

#[test]
fn null_tags_yield_empty_sequence() {
    let e = parse("tags: \n---\nx");
    assert_eq!(e.get_tags().unwrap(), Vec::<String>::new());
}

#[test]
fn sequence_tags_keep_element_spacing() {
    let e = parse("tags: [' x ', y]\n---\nz");
    assert_eq!(e.get_tags().unwrap(), vec![" x ", "y"]);
}

#[test]
fn non_scalar_tag_items_detected() {
    let e = parse("tags: [x, 42]\n---\nz");
    assert!(!e.tags_all_scalar());
    let ok = parse("tags: [x, y]\n---\nz");
    assert!(ok.tags_all_scalar());
}

#[test]
fn other_keys_preserved() {
    let e = parse("title: hello world\nid: t\n---\nb");
    let title = e
        .frontmatter
        .iter()
        .find(|(k, _)| k == "title")
        .map(|(_, v)| v.clone());
    assert_eq!(title, Some(MetaValue::Scalar("hello world".to_string())));
}

#[test]
fn normalize_tags_directly() {
    let r = jrni::normalize_tags(Some(&MetaValue::Scalar("a, b".to_string())));
    assert_eq!(
        r,
        MetaValue::Items(vec![
            MetaValue::Scalar("a".to_string()),
            MetaValue::Scalar("b".to_string()),
        ])
    );
    assert_eq!(jrni::normalize_tags(None), MetaValue::Items(vec![]));
    assert_eq!(jrni::normalize_tags(Some(&MetaValue::Null)), MetaValue::Items(vec![]));
    assert_eq!(
        jrni::normalize_tags(Some(&MetaValue::Flag(true))),
        MetaValue::Items(vec![])
    );
    let passthrough = MetaValue::Items(vec![MetaValue::Scalar(" raw ".to_string())]);
    assert_eq!(
        jrni::normalize_tags(Some(&passthrough)),
        MetaValue::Items(vec![MetaValue::Scalar(" raw ".to_string())])
    );
}

#[test]
fn string_utilities() {
    assert_eq!(jrni::trim_str("  hi  "), "hi");
    assert_eq!(jrni::trim_str("\t a b \u{3000}"), "a b");
    assert_eq!(jrni::trim_str("   "), "");
    let pieces = jrni::split_char("a,b,,c", ',');
    assert_eq!(pieces, vec!["a", "b", "", "c"]);
    assert_eq!(jrni::split_char("", ','), vec![""]);
    assert_eq!(jrni::split_char("xyz", ','), vec!["xyz"]);
    let lines = vec!["a".to_string(), "b".to_string(), "".to_string()];
    assert_eq!(jrni::join_lines(&lines), "a\nb\n");
    assert_eq!(jrni::join_lines(&Vec::new()), "");
}
