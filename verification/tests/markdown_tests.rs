use runme::markdown::{extract_blocks, scan_events, MdEvent, ParseError};
use runme::runner::duplicate_names;

#[test]
fn extracts_basic_blocks() {
    let doc = "\n# Heading\n\n```\nmake test\n```\n\n```bash\ncargo test\n```\n";

    let blocks = extract_blocks(doc).expect("parse");
    assert_eq!(blocks.len(), 2);
    assert_eq!(blocks[0].headings, vec!["Heading"]);
    assert!(blocks[0].language.is_none());
    assert_eq!(blocks[1].language.as_deref(), Some("bash"));
}

#[test]
fn records_skip_directive() {
    let doc = "\n<!-- runme:ignore -->\n```bash\necho off\n```\n";
    let blocks = extract_blocks(doc).expect("parse");
    assert_eq!(
        blocks[0].skip_reason.as_deref(),
        Some("Marked with runme:ignore")
    );
}

#[test]
fn captures_name_directive() {
    let doc = "\n<!-- runme:name install-deps -->\n```bash\necho hi\n```\n";
    let blocks = extract_blocks(doc).expect("parse");
    assert_eq!(blocks[0].name.as_deref(), Some("install-deps"));
}

#[test]
fn captures_inline_name_and_ignore() {
    let doc = "\n```bash runme:name=inline-demo runme:ignore\necho hi\n```\n";
    let blocks = extract_blocks(doc).expect("parse");
    assert_eq!(blocks[0].name.as_deref(), Some("inline-demo"));
    assert_eq!(
        blocks[0].skip_reason.as_deref(),
        Some("Marked with runme:ignore")
    );
}

#[test]
fn ids_follow_discovery_order() {
    let doc = "\
# One

```bash
echo a
```

<!-- runme:ignore -->
```python
print('b')
```

## Two

```
echo c
```
";
    let blocks = extract_blocks(doc).expect("parse");
    assert_eq!(blocks.len(), 3);
    assert_eq!(blocks[0].id, "block-001");
    assert_eq!(blocks[1].id, "block-002");
    assert_eq!(blocks[2].id, "block-003");
}

#[test]
fn heading_stack_tracks_sections() {
    let doc = "\
# Top

## Inner

```bash
echo one
```

## Sibling

```bash
echo two
```

# Next

```bash
echo three
```
";
    let blocks = extract_blocks(doc).expect("parse");
    assert_eq!(blocks.len(), 3);
    assert_eq!(blocks[0].headings, vec!["Top", "Inner"]);
    assert_eq!(blocks[1].headings, vec!["Top", "Sibling"]);
    assert_eq!(blocks[2].headings, vec!["Next"]);
}

#[test]
fn comment_name_beats_inline_name() {
    let doc = "\n<!-- runme:name from-comment -->\n```bash runme:name=from-fence\necho hi\n```\n";
    let blocks = extract_blocks(doc).expect("parse");
    assert_eq!(blocks[0].name.as_deref(), Some("from-comment"));
}

#[test]
fn fence_language_is_lowercased() {
    let doc = "\n```BASH\necho hi\n```\n";
    let blocks = extract_blocks(doc).expect("parse");
    assert_eq!(blocks[0].language.as_deref(), Some("bash"));
    assert!(blocks[0].is_shell());
}

#[test]
fn skip_alias_is_recognized() {
    let doc = "\n<!-- runme:skip -->\n```bash\necho off\n```\n";
    let blocks = extract_blocks(doc).expect("parse");
    assert_eq!(
        blocks[0].skip_reason.as_deref(),
        Some("Marked with runme:ignore")
    );
}

#[test]
fn pending_directive_applies_only_to_next_block() {
    let doc = "\
<!-- runme:name first -->
```bash
echo one
```

```bash
echo two
```
";
    let blocks = extract_blocks(doc).expect("parse");
    assert_eq!(blocks[0].name.as_deref(), Some("first"));
    assert!(blocks[1].name.is_none());
}

#[test]
fn untagged_fence_is_shell_scenario() {
    let doc = "\n```\nmake test\n```\n";
    let blocks = extract_blocks(doc).expect("parse");
    assert_eq!(blocks.len(), 1);
    assert!(blocks[0].language.is_none());
    assert!(blocks[0].is_shell());
    assert_eq!(blocks[0].content, "make test");
}

#[test]
fn named_ignored_fence_scenario() {
    let doc = "\n```bash runme:name=setup runme:ignore\necho hi\n```\n";
    let blocks = extract_blocks(doc).expect("parse");
    assert_eq!(blocks.len(), 1);
    assert_eq!(blocks[0].name.as_deref(), Some("setup"));
    assert_eq!(
        blocks[0].skip_reason.as_deref(),
        Some("Marked with runme:ignore")
    );
}

#[test]
fn duplicate_names_are_both_reported() {
    let doc = "\
<!-- runme:name build -->
```bash
echo one
```

```bash runme:name=build
echo two
```
";
    let blocks = extract_blocks(doc).expect("parse");
    assert_eq!(blocks.len(), 2);
    assert_eq!(blocks[0].name.as_deref(), Some("build"));
    assert_eq!(blocks[1].name.as_deref(), Some("build"));

    let dups = duplicate_names(&blocks);
    assert_eq!(dups.len(), 1);
    assert_eq!(dups[0].0, "build");
    assert_eq!(dups[0].1, vec!["block-001", "block-002"]);
}

#[test]
fn stray_close_event_is_an_error() {
    let events = vec![MdEvent::BlockEnd];
    match scan_events(&events) {
        Err(ParseError::UnmatchedClose) => {}
        other => panic!("expected an unmatched close error, got {:?}", other.is_ok()),
    }
    assert_eq!(
        ParseError::UnmatchedClose.message(),
        "encountered closing code block without start"
    );
}

#[test]
fn unterminated_fence_is_an_error() {
    let events = vec![
        MdEvent::FenceStart(String::from("bash")),
        MdEvent::Text(String::from("echo hi\n")),
    ];
    match scan_events(&events) {
        Err(ParseError::UnterminatedFence) => {}
        other => panic!("expected an unterminated fence error, got {:?}", other.is_ok()),
    }
    assert_eq!(
        ParseError::UnterminatedFence.message(),
        "markdown ended while inside code block"
    );
}

#[test]
fn indented_code_block_has_no_language() {
    let doc = "paragraph\n\n    indented code\n";
    let blocks = extract_blocks(doc).expect("parse");
    assert_eq!(blocks.len(), 1);
    assert!(blocks[0].language.is_none());
    assert_eq!(blocks[0].content, "indented code");
}

#[test]
fn content_is_trimmed() {
    let doc = "\n```bash\n\n  echo hi  \n\n```\n";
    let blocks = extract_blocks(doc).expect("parse");
    assert_eq!(blocks[0].content, "echo hi");
}

#[test]
fn trailing_directive_without_block_is_discarded() {
    let doc = "\n```bash\necho hi\n```\n\n<!-- runme:name orphan -->\n";
    let blocks = extract_blocks(doc).expect("parse");
    assert_eq!(blocks.len(), 1);
    assert!(blocks[0].name.is_none());
}

#[test]
fn empty_info_string_means_no_language() {
    let doc = "\n```\necho hi\n```\n";
    let blocks = extract_blocks(doc).expect("parse");
    assert!(blocks[0].language.is_none());
}
