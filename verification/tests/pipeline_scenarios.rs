use md_linkcheck::pipeline::get_missing_links;

#[test]
fn no_links() {
    let (missing, diags) = get_missing_links("Hello world, no links here.", "/tmp/docs/guide.md");
    assert_eq!(missing.len(), 0);
    assert_eq!(diags.len(), 0);
}

#[test]
fn external_link_ignored() {
    let (missing, diags) =
        get_missing_links("See [docs](https://example.com/readme)", "/tmp/docs/guide.md");
    assert_eq!(missing.len(), 0);
    assert_eq!(diags.len(), 0);
}

#[test]
fn missing_local_file() {
    let (missing, _) = get_missing_links("[img](./assets/diagram.png)", "/tmp/docs/guide.md");
    assert_eq!(missing.len(), 1);
    assert_eq!(missing[0], "/tmp/docs/assets/diagram.png");
}

#[test]
fn existing_local_file() {
    // `/tmp` exists wherever the tests run; the relative reference
    // resolves to it from a document at the root.
    let (missing, diags) = get_missing_links("[t](./tmp)", "/guide.md");
    assert_eq!(missing.len(), 0);
    assert_eq!(diags.len(), 0);
}

#[test]
fn existing_absolute_path() {
    let (missing, _) = get_missing_links("[root](/)", "/tmp/docs/guide.md");
    assert_eq!(missing.len(), 0);
}

#[test]
fn percent_encoded_path() {
    let (missing, _) = get_missing_links("[f](my%20file.md)", "/tmp/docs/guide.md");
    assert_eq!(missing.len(), 1);
    assert_eq!(missing[0], "/tmp/docs/my file.md");
}

#[test]
fn link_text_is_not_rescanned() {
    // The display text holds a bracket-paren fragment; only the real
    // target may be reported, never anything taken from the text.
    let (missing, _) =
        get_missing_links("[a \\[b\\](c) d](./missing-target.md)", "/tmp/docs/guide.md");
    assert_eq!(missing.len(), 1);
    assert_eq!(missing[0], "/tmp/docs/missing-target.md");
}

#[test]
fn report_order_follows_document_order() {
    let text = "[a](./m1.md) then [b](./m2.md)\n\n- [c](./m3.md)\n";
    let (missing, _) = get_missing_links(text, "/tmp/docs/guide.md");
    assert_eq!(missing.len(), 3);
    assert_eq!(missing[0], "/tmp/docs/m1.md");
    assert_eq!(missing[1], "/tmp/docs/m2.md");
    assert_eq!(missing[2], "/tmp/docs/m3.md");
}

#[test]
fn unchanged_runs_agree() {
    let text = "[a](./m1.md) and [b](https://example.com) and [c](m2%20x.md)";
    let (m1, d1) = get_missing_links(text, "/tmp/docs/guide.md");
    let (m2, d2) = get_missing_links(text, "/tmp/docs/guide.md");
    assert_eq!(m1, m2);
    assert_eq!(d1.len(), d2.len());
}

#[test]
fn decode_failure_reported_not_missing() {
    let (missing, diags) = get_missing_links("[bad](bad%FFseq.md)", "/tmp/docs/guide.md");
    assert_eq!(missing.len(), 0);
    assert_eq!(diags.len(), 1);
    assert_eq!(diags[0].raw, "bad%FFseq.md");
}

#[test]
fn link_inside_table_cell() {
    let text = "| a | b |\n|---|---|\n| [x](./cell.md) | y |\n";
    let (missing, _) = get_missing_links(text, "/tmp/docs/guide.md");
    assert_eq!(missing.len(), 1);
    assert_eq!(missing[0], "/tmp/docs/cell.md");
}

#[test]
fn link_syntax_inside_code_span_ignored() {
    let (missing, _) = get_missing_links("`[x](./not-a-link.md)`", "/tmp/docs/guide.md");
    assert_eq!(missing.len(), 0);
}

#[test]
fn document_without_directory_resolves_in_place() {
    let (missing, _) = get_missing_links("[x](./nowhere.md)", "guide.md");
    assert_eq!(missing.len(), 1);
    assert_eq!(missing[0], "nowhere.md");
}
