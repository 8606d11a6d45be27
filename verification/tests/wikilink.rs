use maggraph::wikilink::{extract_wikilink_targets, extract_wikilinks, normalize_wikilink_target};

#[test]
fn parses_basic_wikilink() {
    assert_eq!(extract_wikilink_targets("See [[getting_started]] for details."), vec!["getting_started"]);
}

#[test]
fn parses_alias_and_heading() {
    assert_eq!(extract_wikilink_targets("[[welcome#intro|Back to welcome]]"), vec!["welcome"]);
}

#[test]
fn deduplicates_targets() {
    assert_eq!(extract_wikilink_targets("[[a]] and [[a]] again."), vec!["a"]);
}

#[test]
fn ignores_fenced_code_blocks() {
    let body = r#"
Normal [[real_link]].

```
[[fake_in_code]]
```
"#;
    assert_eq!(extract_wikilink_targets(body), vec!["real_link"]);
}

#[test]
fn normalize_strips_alias_and_heading() {
    assert_eq!(normalize_wikilink_target("page#section|Display"), "page");
}

#[test]
fn wikilink_matches_report_byte_offsets() {
    let matches = extract_wikilinks("é [[a|b]] x");
    assert_eq!(matches.len(), 1);
    assert_eq!(matches[0].raw, "a|b");
    assert_eq!(matches[0].start, 3);
    assert_eq!(matches[0].end, 10);
}

#[test]
fn non_ascii_targets_are_kept_as_written() {
    assert_eq!(extract_wikilink_targets("See [[café]] and [[日本]]."), vec!["café", "日本"]);
    assert_eq!(extract_wikilink_targets("```\n[[x]]\n```\n[[naïve|alias]]"), vec!["naïve"]);
}

#[test]
fn extract_wikilinks_skips_fenced_blocks() {
    let matches = extract_wikilinks("```\n[[hidden]]\n```\nsee [[shown]]");
    assert_eq!(matches.len(), 1);
    assert_eq!(matches[0].raw, "shown");
    assert_eq!(matches[0].start, 5);
    assert_eq!(matches[0].end, 14);
}
