use kb_app::managed_markdown::{escape_label, region_parts, render_group, render_index, render_log, IndexEntry, LogEntry};

fn chars(s: &str) -> Vec<char> {
    s.chars().collect()
}

fn text(v: &[char]) -> String {
    v.iter().collect()
}

const PAGE: &str = "# Index\n<!-- kb:managed:start -->\nold\n<!-- kb:managed:end -->\nfooter\n";

#[test]
fn labels_escape_brackets_and_backslashes() {
    assert_eq!(text(&escape_label(&chars("a [b] \\ c"))), "a \\[b\\] \\\\ c");
}

#[test]
fn region_parts_split_around_the_markers() {
    let (before, managed, after) = region_parts(&chars(PAGE)).unwrap();
    assert_eq!(text(&before), "# Index\n");
    assert_eq!(text(&managed), "\nold\n");
    assert_eq!(text(&after), "\nfooter\n");
    assert!(region_parts(&chars("no markers")).is_err());
    assert!(region_parts(&chars("<!-- kb:managed:end --><!-- kb:managed:start -->")).is_err());
}

#[test]
fn the_index_lists_research_then_articles() {
    let research = vec![IndexEntry { path: "research/a.md".to_string(), title: "A [1]".to_string(), description: Some("first\n  study".to_string()) }];
    let articles = vec![IndexEntry { path: "articles/b.md".to_string(), title: "B".to_string(), description: None }];
    let out = render_index(PAGE, &research, &articles).unwrap();
    assert_eq!(
        out,
        "# Index\n<!-- kb:managed:start -->\n## Research\n- [A \\[1\\]](research/a.md) \u{2014} first study\n\n## Articles\n- [B](articles/b.md)\n<!-- kb:managed:end -->\nfooter\n"
    );
    let empty = render_index(PAGE, &[], &[]).unwrap();
    assert_eq!(empty, "# Index\n<!-- kb:managed:start -->\n<!-- kb:managed:end -->\nfooter\n");
    let mut out = Vec::new();
    render_group(&mut out, "Research", &[]);
    assert!(out.is_empty());
}

#[test]
fn the_log_adds_entries_under_the_date() {
    let entries = vec![LogEntry { path: "research/a.md".to_string(), title: "A".to_string(), summary: "new page".to_string(), creation: true }];
    let log = "# Log\n<!-- kb:managed:start -->\n<!-- kb:managed:end -->\n";
    let out = render_log(log, "2024-05-01", &entries).unwrap();
    assert_eq!(
        out,
        "# Log\n<!-- kb:managed:start -->\n## 2024-05-01\n- **Creation**: [A](research/a.md) \u{2014} new page\n<!-- kb:managed:end -->\n"
    );
    let update = vec![LogEntry { path: "research/a.md".to_string(), title: "A".to_string(), summary: "edit".to_string(), creation: false }];
    let same_day = render_log(&out, "2024-05-01", &update).unwrap();
    assert_eq!(
        same_day,
        "# Log\n<!-- kb:managed:start -->\n## 2024-05-01\n- **Update**: [A](research/a.md) \u{2014} edit\n- **Creation**: [A](research/a.md) \u{2014} new page\n<!-- kb:managed:end -->\n"
    );
    let next_day = render_log(&out, "2024-05-02", &update).unwrap();
    assert_eq!(
        next_day,
        "# Log\n<!-- kb:managed:start -->\n## 2024-05-02\n- **Update**: [A](research/a.md) \u{2014} edit\n\n## 2024-05-01\n- **Creation**: [A](research/a.md) \u{2014} new page\n<!-- kb:managed:end -->\n"
    );
    assert!(render_log("no region", "2024-05-02", &update).is_err());
}
