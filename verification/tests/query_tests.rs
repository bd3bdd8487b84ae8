use jrni::{Entry, FileInfo};

fn lines_of(content: &str) -> Vec<String> {
    content.lines().map(|l| l.to_string()).collect()
}

fn parse(content: &str) -> Entry {
    Entry::from_lines(
        "j/e.md".to_string(),
        FileInfo { size: 0, modified_secs: 0, modified_nanos: 0 },
        &lines_of(content),
    )
}

#[test]
fn eligibility_filter() {
    assert!(jrni::is_jrnl_path("notes/a.md", false));
    assert!(jrni::is_jrnl_path("a.txt", false));
    assert!(jrni::is_jrnl_path("deep/tree/x.y.md", false));
    assert!(!jrni::is_jrnl_path("dir.md", true));
    assert!(!jrni::is_jrnl_path("notes/a.rs", false));
    assert!(!jrni::is_jrnl_path("noext", false));
    assert!(!jrni::is_jrnl_path("notes/.md", false));
    assert!(!jrni::is_jrnl_path("a.md/trailing", false));
    assert!(!jrni::is_jrnl_path("", false));
}

#[test]
fn find_and_collect_ids() {
    let entries = vec![
        parse("id: one\n---\nx"),
        parse("no id here"),
        parse("id: two\n---\ny"),
        parse("id: \n---\nz"),
        parse("id: two\n---\nduplicate"),
    ];
    assert_eq!(jrni::collect_ids(&entries), vec!["one", "two", "two"]);
    assert_eq!(jrni::find_entry_by_id(&entries, "one"), Some(0));
    assert_eq!(jrni::find_entry_by_id(&entries, "two"), Some(2));
    assert_eq!(jrni::find_entry_by_id(&entries, "three"), None);
    assert_eq!(jrni::choose_entry_id(&entries, "two"), "");
    assert_eq!(jrni::choose_entry_id(&entries, "fresh"), "fresh");
}

#[test]
fn tag_census() {
    let entries = vec![
        parse("tags: a, b\n---\nx"),
        parse("tags: b\n---\ny"),
        parse("tags: b, c, a\n---\nz"),
        parse("plain prose entry"),
    ];
    let counts = jrni::tag_counts(&entries);
    let mut found = 0;
    for (tag, n) in counts.iter() {
        match tag.as_str() {
            "a" => {
                assert_eq!(*n, 2);
                found += 1;
            },
            "b" => {
                assert_eq!(*n, 3);
                found += 1;
            },
            "c" => {
                assert_eq!(*n, 1);
                found += 1;
            },
            _ => panic!("unexpected tag {}", tag),
        }
    }
    assert_eq!(found, 3);
    let sorted = jrni::sort_by_count(counts);
    assert_eq!(sorted.len(), 3);
    assert!(sorted[0].1 <= sorted[1].1 && sorted[1].1 <= sorted[2].1);
    assert_eq!(sorted[0], ("c".to_string(), 1));
    assert_eq!(sorted[1], ("a".to_string(), 2));
    assert_eq!(sorted[2], ("b".to_string(), 3));
}

#[test]
fn sort_is_a_permutation() {
    let counts = vec![
        ("x".to_string(), 5usize),
        ("y".to_string(), 1usize),
        ("z".to_string(), 3usize),
        ("w".to_string(), 1usize),
    ];
    let sorted = jrni::sort_by_count(counts.clone());
    assert_eq!(sorted.len(), counts.len());
    for pair in counts.iter() {
        assert!(sorted.contains(pair));
    }
    for a in 1..sorted.len() {
        assert!(sorted[a - 1].1 <= sorted[a].1);
    }
}

#[test]
fn new_entry_pieces() {
    assert_eq!(jrni::entry_filename("2020-01-02", "note"), "2020-01-02-note.md");
    let contents = jrni::new_entry_content(
        Some("a, b"),
        "note",
        "2020-01-02 03:04:05.678 +0000",
        "hello",
    );
    assert_eq!(
        contents,
        "tags: a, b\nid: note\npubdate: 2020-01-02 03:04:05.678 +0000\n---\n\nhello\n"
    );
    let bare = jrni::new_entry_content(None, "", "d", "");
    assert_eq!(bare, "tags: \nid: \npubdate: d\n---\n\n\n");
}

#[test]
fn new_entry_round_trip() {
    let contents = jrni::new_entry_content(Some("alpha, beta"), "myid", "2021-05-06", "the body");
    let e = parse(&contents);
    assert_eq!(e.get_tags().unwrap(), vec!["alpha", "beta"]);
    assert_eq!(e.get_id().as_deref(), Some("myid"));
    assert_eq!(e.body, "\nthe body");
}

#[test]
fn eligibility_edge_cases() {
    // A dot at the end gives an empty extension, which is not accepted.
    assert!(!jrni::is_jrnl_path("notes/a.", false));
    // Extensions are case-sensitive.
    assert!(!jrni::is_jrnl_path("a.MD", false));
    // Only the last dot counts.
    assert!(jrni::is_jrnl_path("archive.tar.md", false));
    assert!(!jrni::is_jrnl_path("archive.md.bak", false));
    // The dot must stand after the first character of the file name.
    assert!(jrni::is_jrnl_path("notes/.hidden.md", false));
}

#[test]
fn empty_file_parses() {
    let e = parse("");
    assert_eq!(e.get_tags().unwrap(), Vec::<String>::new());
    assert_eq!(e.get_id(), None);
    assert_eq!(e.body, "");
}

#[test]
fn boolean_tags_discarded() {
    let e = parse("tags: true\n---\nb");
    assert_eq!(e.get_tags().unwrap(), Vec::<String>::new());
    assert!(e.frontmatter_err.is_none());
}

#[test]
fn mapping_tags_discarded() {
    let e = parse("tags:\n  a: b\n---\nbody");
    assert_eq!(e.get_tags().unwrap(), Vec::<String>::new());
    assert!(e.frontmatter_err.is_none());
    assert_eq!(e.body, "body");
}
