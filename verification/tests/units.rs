use md_linkcheck::events::{collect_links, extract_links, MdEvent};
use md_linkcheck::paths::{is_markdown, parent_dir, resolve_path};
use md_linkcheck::pipeline::filter_missing;
use md_linkcheck::resolve::resolve_targets;

fn enter(url: Option<&str>) -> MdEvent {
    MdEvent::Enter { link_url: url.map(|u| u.to_string()) }
}

#[test]
fn collect_links_orders_and_skips_link_subtrees() {
    // document
    //   paragraph
    //     link "a"  (its text holds a further link node "b")
    //     link "c"
    let events = vec![
        enter(None),
        enter(None),
        enter(Some("a")),
        enter(None),
        enter(Some("b")),
        MdEvent::Exit,
        MdEvent::Exit,
        MdEvent::Exit,
        enter(Some("c")),
        MdEvent::Exit,
        MdEvent::Exit,
        MdEvent::Exit,
    ];
    let links = collect_links(&events);
    assert_eq!(links, vec!["a".to_string(), "c".to_string()]);
}

#[test]
fn collect_links_empty_document() {
    let events = vec![enter(None), MdEvent::Exit];
    assert_eq!(collect_links(&events).len(), 0);
}

#[test]
fn collect_links_unterminated_link_consumes_the_rest() {
    // A link whose subtree never closes swallows everything after it.
    let events = vec![enter(Some("a")), enter(Some("b"))];
    assert_eq!(collect_links(&events), vec!["a".to_string()]);
}

#[test]
fn extract_links_appends() {
    let events = vec![enter(Some("x")), MdEvent::Exit];
    let mut out = vec!["kept".to_string()];
    extract_links(&events, &mut out);
    assert_eq!(out, vec!["kept".to_string(), "x".to_string()]);
}

#[test]
fn parent_dir_cases() {
    assert_eq!(parent_dir("/tmp/docs/guide.md"), "/tmp/docs");
    assert_eq!(parent_dir("guide.md"), "");
    assert_eq!(parent_dir("/guide.md"), "/");
    assert_eq!(parent_dir("a/b/c.md"), "a/b");
}

#[test]
fn is_markdown_cases() {
    assert!(is_markdown("a.md"));
    assert!(is_markdown("a.MD"));
    assert!(is_markdown("a.markdown"));
    assert!(is_markdown("/tmp/docs/guide.md"));
    assert!(!is_markdown("a.txt"));
    assert!(!is_markdown("a.Md"));
    assert!(!is_markdown("md"));
    assert!(!is_markdown(".md"));
    assert!(!is_markdown("a."));
    assert!(!is_markdown("dir.md/file"));
}

#[test]
fn resolve_path_cases() {
    assert_eq!(resolve_path("/tmp/docs", "./a/b.png"), "/tmp/docs/a/b.png");
    assert_eq!(resolve_path("/tmp/docs", "a.md"), "/tmp/docs/a.md");
    assert_eq!(resolve_path("/tmp/docs", "/abs.md"), "/abs.md");
    assert_eq!(resolve_path("", "x.md"), "x.md");
    assert_eq!(resolve_path("/", "x.md"), "/x.md");
    assert_eq!(resolve_path("/tmp/docs", "././x.md"), "/tmp/docs/x.md");
}

#[test]
fn resolve_targets_classifies_decodes_and_reports() {
    let targets = vec![
        "https://example.com/readme".to_string(),
        "my%20file.md".to_string(),
        "bad%FFseq".to_string(),
        "./plain.md".to_string(),
    ];
    let (paths, diags) = resolve_targets(&targets, "/tmp/docs");
    assert_eq!(paths, vec!["/tmp/docs/my file.md".to_string(), "/tmp/docs/plain.md".to_string()]);
    assert_eq!(diags.len(), 1);
    assert_eq!(diags[0].raw, "bad%FFseq");
    assert!(!diags[0].message.is_empty());
}

#[test]
fn filter_missing_keeps_absent_in_order() {
    let paths = vec!["a".to_string(), "b".to_string(), "c".to_string()];
    let present = vec![true, false, false];
    assert_eq!(filter_missing(&paths, &present), vec!["b".to_string(), "c".to_string()]);
}
