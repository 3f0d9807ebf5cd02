use daebug::outline::outline_of;
use daebug::outline::BlockKind;
use daebug::outline::RawBlock;
use daebug::parser::diff_asts;
use daebug::parser::find_first_request;
use daebug::parser::find_request_in_ast;
use daebug::diff::new_request;
use daebug::parser::parse_file_ast;
use daebug::parser::parse_request;
use daebug::parser::AstChange;
use daebug::document::Fault;
use daebug::document::LogDocument;
use daebug::document::ParseError;

#[test]
fn test_parse_simple_request() {
    let markdown = r#"
### 🗣️agent to page at 10:00:00

```js
console.log('test');
```
"#;

    let req = parse_request(markdown, "page");
    assert!(req.is_some());

    let req = req.unwrap();
    assert_eq!(req.target, "page");
    assert!(req.code.contains("console.log"));
}

#[test]
fn test_parse_file_ast() {
    let content = "# Hello\n\nSome text\n\n```js\ncode\n```";
    let ast = parse_file_ast(content);
    assert!(ast.is_ok());
}

#[test]
fn request_fields_are_read_from_the_heading() {
    let req = parse_request("### 🗣️ copilot to main-page at 23:59:59\n```JavaScript\n1 + 1\n```\n", "main-page").unwrap();
    assert_eq!(req.agent, "copilot");
    assert_eq!(req.target, "main-page");
    assert_eq!(req.time, "23:59:59");
    assert_eq!(req.code, "1 + 1");
    assert!(!req.has_footer);
}

#[test]
fn request_for_another_page_is_not_found() {
    let text = "### 🗣️agent to page at 10:00:00\n```js\n1\n```\n";
    assert!(parse_request(text, "other").is_none());
    assert!(parse_request(text, "page").is_some());
}

#[test]
fn answered_request_is_not_pending() {
    let text = "### 🗣️agent to page at 10:00:00\n```js\n1\n```\n\n#### 👍page to agent at 10:00:01 (12ms)\n```JSON\n1\n```\n";
    assert!(parse_request(text, "page").is_none());
    let doc = parse_file_ast(text).unwrap();
    let req = doc.request(0).unwrap();
    assert!(req.has_footer);
    assert_eq!(req.code, "1");
}

#[test]
fn latest_unanswered_request_wins() {
    let text = "### 🗣️agent to page at 10:00:00\n```js\nfirst\n```\n\n### 🗣️agent to page at 10:00:05\n```js\nsecond\n```\n";
    let req = parse_request(text, "page").unwrap();
    assert_eq!(req.code, "second");
    let doc = parse_file_ast(text).unwrap();
    assert_eq!(doc.unanswered_bounds("page"), (Some(0), Some(2)));
}

#[test]
fn reply_answers_only_the_request_before_it() {
    let text = "### 🗣️agent to page at 10:00:00\n```js\nfirst\n```\n\n#### 👍page to agent at 10:00:01 (3ms)\n```JSON\n1\n```\n\n### 🗣️agent to page at 10:00:05\n```js\nsecond\n```\n";
    let doc = parse_file_ast(text).unwrap();
    assert_eq!(doc.unanswered_bounds("page"), (Some(4), Some(4)));
    assert_eq!(find_request_in_ast(&doc, "page").unwrap().code, "second");
}

#[test]
fn reply_after_a_later_request_does_not_answer_the_earlier() {
    let text = "### 🗣️agent to page at 10:00:00\n```js\nfirst\n```\n\n### 🗣️agent to page at 10:00:05\n```js\nsecond\n```\n\n#### 👍page to agent at 10:00:06 (3ms)\n```json\n2\n```\n";
    let doc = parse_file_ast(text).unwrap();
    assert_eq!(doc.unanswered_bounds("page"), (Some(0), Some(0)));
    assert_eq!(parse_request(text, "page").unwrap().code, "first");
}

#[test]
fn empty_text_is_an_empty_document() {
    let doc = parse_file_ast("").unwrap();
    assert_eq!(doc.len(), 0);
    assert!(parse_request("", "page").is_none());
}

#[test]
fn unclosed_fence_is_a_parse_error() {
    let err = parse_file_ast("# Title\n\n```js\nunclosed\n\ntext").unwrap_err();
    assert_eq!(err, ParseError::Malformed { block: 1, fault: Fault::Fence });
    assert!(parse_request("### 🗣️agent to page at 10:00:00\n```js\nunclosed", "page").is_none());
}

#[test]
fn fence_indented_by_four_spaces_does_not_close() {
    let err = parse_file_ast("```js\nx\n    ```\n").unwrap_err();
    assert_eq!(err, ParseError::Malformed { block: 0, fault: Fault::Fence });
}

#[test]
fn closed_fences_are_accepted() {
    assert!(parse_file_ast("```js\nx\n   ```\t \r\nafter").is_ok());
    assert!(parse_file_ast("~~~~js\n```\n~~~\n~~~~~\nrest").is_ok());
    assert!(parse_file_ast("```js\nx\n```` \nnext").is_ok());
    assert!(parse_file_ast("text\n\n    indented code\n").is_ok());
}

#[test]
fn heading_before_code_must_be_a_request_heading() {
    let err = parse_file_ast("### 🗣️agent to page at 10:00\n```js\n1\n```\n").unwrap_err();
    assert_eq!(err, ParseError::Malformed { block: 0, fault: Fault::Heading });
    let err = parse_file_ast("intro\n\n### 🗣️ Setup\n```js\n1\n```\n").unwrap_err();
    assert_eq!(err, ParseError::Malformed { block: 1, fault: Fault::Heading });
    let err = parse_file_ast("### 🗣️agent to page at 24:00:00\n```js\n1\n```\n").unwrap_err();
    assert_eq!(err, ParseError::Malformed { block: 0, fault: Fault::Heading });
}

#[test]
fn heading_before_result_must_be_a_reply_heading() {
    let err = parse_file_ast("#### 👍page to agent at 10:00:01\n```JSON\n1\n```\n").unwrap_err();
    assert_eq!(err, ParseError::Malformed { block: 0, fault: Fault::Heading });
    assert!(parse_file_ast("#### 👍page to agent at 10:00:01 (0ms)\n```JSON\n1\n```\n").is_ok());
}

#[test]
fn other_headings_are_left_alone() {
    assert!(parse_file_ast("### Notes\n\ntext\n\n#### More\n```text\nx\n```\n").is_ok());
    assert!(parse_file_ast("### Setup\n```js\n1\n```\n\n#### Output\n```json\n1\n```\n").is_ok());
    assert!(parse_file_ast("### 🗣️ loose notes\n\ntext\n").is_ok());
    assert!(parse_request("### Setup\n```js\n1\n```\n", "page").is_none());
    assert!(parse_file_ast("## 🗣️agent to page at 10:00\n```js\n1\n```\n").is_ok());
}

#[test]
fn block_without_a_place_is_a_span_fault() {
    let raw = vec![RawBlock { kind: BlockKind::Other, text: String::from("x"), span: None }];
    let err = LogDocument::from_outline(&raw, "x").unwrap_err();
    assert_eq!(err, ParseError::Malformed { block: 0, fault: Fault::Span });
    let raw = vec![RawBlock { kind: BlockKind::Other, text: String::from("x"), span: Some((0, 2)) }];
    let err = LogDocument::from_outline(&raw, "x").unwrap_err();
    assert_eq!(err, ParseError::Malformed { block: 0, fault: Fault::Span });
    let raw = vec![
        RawBlock { kind: BlockKind::Other, text: String::from("ab"), span: Some((0, 2)) },
        RawBlock { kind: BlockKind::Other, text: String::from("b"), span: Some((1, 2)) },
    ];
    let err = LogDocument::from_outline(&raw, "ab").unwrap_err();
    assert_eq!(err, ParseError::Malformed { block: 1, fault: Fault::Span });
    let raw = vec![RawBlock { kind: BlockKind::Other, text: String::from("é"), span: Some((1, 2)) }];
    let err = LogDocument::from_outline(&raw, "é").unwrap_err();
    assert_eq!(err, ParseError::Malformed { block: 0, fault: Fault::Span });
}

#[test]
fn outline_reports_kinds_texts_and_offsets() {
    let blocks = outline_of("# Hi\n\n```js\nx\n```\n").unwrap();
    assert_eq!(blocks.len(), 2);
    assert!(matches!(blocks[0].kind, BlockKind::Heading { depth: 1 }));
    assert_eq!(blocks[0].text, "Hi");
    assert_eq!(blocks[0].span, Some((0, 4)));
    assert!(matches!(&blocks[1].kind, BlockKind::Code { lang: Some(tag) } if tag == "js"));
    assert_eq!(blocks[1].text, "x");
    assert_eq!(blocks[1].span, Some((6, 17)));
}

#[test]
fn document_keeps_blocks_in_order() {
    let doc = parse_file_ast("# Hi\n\ntext\n\n```js\nx\n```\n").unwrap();
    assert_eq!(doc.len(), 3);
    let b = doc.block(2).unwrap();
    assert_eq!(b.text, "x");
    assert_eq!((b.start, b.end), (12, 23));
    assert!(doc.block(3).is_none());
}

#[test]
fn identical_documents_do_not_differ() {
    let a = parse_file_ast("# Hi\n\ntext\n").unwrap();
    let b = parse_file_ast("\n\n# Hi\n\n\ntext\n\n").unwrap();
    assert_eq!(diff_asts(&a, &a), Vec::<AstChange>::new());
    assert_eq!(diff_asts(&a, &b), Vec::<AstChange>::new());
}

#[test]
fn appended_request_adds_children_and_code() {
    let a = parse_file_ast("# Log\n").unwrap();
    let b = parse_file_ast("# Log\n\n### 🗣️agent to page at 10:00:00\n```js\n1\n```\n").unwrap();
    assert_eq!(diff_asts(&a, &b), vec![AstChange::ChildrenAdded, AstChange::CodeBlockAdded]);
    assert_eq!(diff_asts(&b, &a), vec![AstChange::ContentChanged]);
}

#[test]
fn edited_heading_and_paragraph_are_told_apart() {
    let a = parse_file_ast("# Log\n\nold text\n").unwrap();
    let b = parse_file_ast("# Journal\n\nold text\n").unwrap();
    let c = parse_file_ast("# Log\n\nnew text\n").unwrap();
    let d = parse_file_ast("# Journal\n\nnew text\n\nmore\n").unwrap();
    assert_eq!(diff_asts(&a, &b), vec![AstChange::HeadingChanged]);
    assert_eq!(diff_asts(&a, &c), vec![AstChange::ContentChanged]);
    assert_eq!(
        diff_asts(&a, &d),
        vec![AstChange::ChildrenAdded, AstChange::HeadingChanged, AstChange::ContentChanged]
    );
}

#[test]
fn paragraph_replaced_by_code_counts_as_code_added() {
    let a = parse_file_ast("# Log\n\ntext\n").unwrap();
    let b = parse_file_ast("# Log\n\n```js\n1\n```\n").unwrap();
    assert_eq!(diff_asts(&a, &b), vec![AstChange::CodeBlockAdded, AstChange::ContentChanged]);
}

#[test]
fn new_request_is_dispatched_once() {
    let empty = LogDocument::empty();
    let one = parse_file_ast("### 🗣️agent to page at 10:00:00\n```js\nfirst\n```\n").unwrap();
    let found = new_request(&empty, &one, "page").unwrap();
    assert_eq!(found.code, "first");
    assert_eq!(found.agent, "agent");
    assert!(new_request(&one, &one, "page").is_none());
    assert!(new_request(&empty, &one, "other").is_none());
}

#[test]
fn reply_to_one_request_brings_the_turn_to_the_next() {
    let before = parse_file_ast(
        "### 🗣️agent to page at 10:00:00\n```js\nfirst\n```\n\n### 🗣️agent to page at 10:00:05\n```js\nsecond\n```\n",
    )
    .unwrap();
    let after = parse_file_ast(
        "### 🗣️agent to page at 10:00:00\n```js\nfirst\n```\n\n#### 👍page to agent at 10:00:06 (3ms)\n```JSON\n1\n```\n\n### 🗣️agent to page at 10:00:05\n```js\nsecond\n```\n",
    )
    .unwrap();
    assert_eq!(diff_asts(&before, &after), vec![AstChange::ChildrenAdded, AstChange::CodeBlockAdded]);
    assert_eq!(new_request(&before, &after, "page").unwrap().code, "second");
    assert!(new_request(&after, &after, "page").is_none());
    assert!(new_request(&before, &after, "other").is_none());
}

#[test]
fn two_new_requests_are_dispatched_in_the_order_of_the_log() {
    let empty = LogDocument::empty();
    let two = parse_file_ast(
        "### 🗣️agent to page at 10:00:00\n```js\nfirst\n```\n\n### 🗣️agent to page at 10:00:05\n```js\nsecond\n```\n",
    )
    .unwrap();
    assert_eq!(new_request(&empty, &two, "page").unwrap().code, "first");
    assert_eq!(find_first_request(&two, "page").unwrap().code, "first");
    assert_eq!(find_request_in_ast(&two, "page").unwrap().code, "second");
}

#[test]
fn request_added_behind_a_waiting_one_waits_for_its_turn() {
    let one = parse_file_ast("### 🗣️agent to page at 10:00:00\n```js\nfirst\n```\n").unwrap();
    let two = parse_file_ast(
        "### 🗣️agent to page at 10:00:00\n```js\nfirst\n```\n\n### 🗣️agent to page at 10:00:05\n```js\nsecond\n```\n",
    )
    .unwrap();
    assert_eq!(diff_asts(&one, &two), vec![AstChange::ChildrenAdded, AstChange::CodeBlockAdded]);
    assert!(new_request(&one, &two, "page").is_none());
    let other = parse_file_ast(
        "### 🗣️agent to page at 10:00:00\n```js\nfirst\n```\n\n### 🗣️agent to other at 10:00:05\n```js\nsecond\n```\n",
    )
    .unwrap();
    assert_eq!(new_request(&one, &other, "other").unwrap().code, "second");
    assert!(new_request(&one, &other, "page").is_none());
}

#[test]
fn cosmetic_edit_dispatches_nothing() {
    let before = parse_file_ast("intro\n\n### 🗣️agent to page at 10:00:00\n```js\nfirst\n```\n").unwrap();
    let after = parse_file_ast("changed intro\n\n### 🗣️agent to page at 10:00:00\n```js\nfirst\n```\n").unwrap();
    assert_eq!(diff_asts(&before, &after), vec![AstChange::ContentChanged]);
    assert!(new_request(&before, &after, "page").is_none());
    let edited = parse_file_ast("intro\n\n### 🗣️agent to page at 10:00:00\n```js\nsecond\n```\n").unwrap();
    assert!(new_request(&before, &edited, "page").is_none());
}

#[test]
fn code_added_under_a_waiting_heading_is_dispatched() {
    let before = parse_file_ast("### 🗣️agent to page at 10:00:00\n").unwrap();
    let after = parse_file_ast("### 🗣️agent to page at 10:00:00\n```js\nnow\n```\n").unwrap();
    assert_eq!(new_request(&before, &after, "page").unwrap().code, "now");
}
