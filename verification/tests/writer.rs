use daebug::grammar::reply_heading_matches;
use daebug::parser::parse_file_ast;
use daebug::parser::parse_request;
use daebug::document::Fault;
use daebug::document::ParseError;
use daebug::writer::format_clock;
use daebug::writer::format_reply;
use daebug::writer::insert_reply;
use daebug::writer::replace_results;
use daebug::writer::should_retry;
use daebug::writer::LogRead;
use daebug::writer::WriteError;
use daebug::writer::Writer;

#[test]
fn test_writer_create() {
    let _writer = Writer::new(".");
    // Writer created successfully
}

#[test]
fn log_path_follows_the_file_layout() {
    let writer = Writer::new("/srv/www");
    assert_eq!(writer.log_path("main-page"), "/srv/www/daebug/main-page.md");
    assert_eq!(Writer::new(".").log_path("p"), "./daebug/p.md");
}

#[test]
fn clock_is_written_with_two_digits_each() {
    assert_eq!(format_clock(0), "00:00:00");
    assert_eq!(format_clock(3661), "01:01:01");
    assert_eq!(format_clock(86399), "23:59:59");
    assert_eq!(format_clock(86400), "00:00:00");
    assert_eq!(format_clock(1_700_000_000), "22:13:20");
}

#[test]
fn reply_block_has_the_exact_format() {
    assert_eq!(
        format_reply("page", "10:00:00", 1234, "42"),
        "\n#### 👍page to agent at 10:00:00 (1234ms)\n```JSON\n42\n```\n\n"
    );
    assert_eq!(
        format_reply("p", "00:00:00", 0, ""),
        "\n#### 👍p to agent at 00:00:00 (0ms)\n```JSON\n\n```\n\n"
    );
    assert_eq!(
        format_reply("p", "00:00:00", u64::MAX, "x"),
        "\n#### 👍p to agent at 00:00:00 (18446744073709551615ms)\n```JSON\nx\n```\n\n"
    );
}

#[test]
fn reply_goes_after_the_request_it_answers() {
    let writer = Writer::new(".");
    let content = "### 🗣️agent to page at 10:00:00\n```js\n1 + 1\n```\n";
    let out = writer.write_reply_at(content, "page", "2", 7, 36_000).unwrap();
    assert_eq!(
        out,
        "### 🗣️agent to page at 10:00:00\n```js\n1 + 1\n```\n#### 👍page to agent at 10:00:00 (7ms)\n```JSON\n2\n```\n\n\n"
    );
    assert!(parse_request(&out, "page").is_none());
    let doc = parse_file_ast(&out).unwrap();
    assert!(doc.request(0).unwrap().has_footer);
}

#[test]
fn reply_stays_with_its_request_when_another_follows() {
    let writer = Writer::new(".");
    let content = "### 🗣️agent to page at 10:00:00\n```js\nfirst\n```\n\n### 🗣️agent to page at 10:00:05\n```js\nsecond\n```\n";
    let out = writer.write_reply_at(content, "page", "\"one\"", 3, 36_006).unwrap();
    assert_eq!(
        out,
        "### 🗣️agent to page at 10:00:00\n```js\nfirst\n```\n#### 👍page to agent at 10:00:06 (3ms)\n```JSON\n\"one\"\n```\n\n\n\n### 🗣️agent to page at 10:00:05\n```js\nsecond\n```\n"
    );
    let pending = parse_request(&out, "page").unwrap();
    assert_eq!(pending.code, "second");
    let out = writer.write_reply_at(&out, "page", "\"two\"", 4, 36_007).unwrap();
    assert!(out.ends_with("```js\nsecond\n```\n#### 👍page to agent at 10:00:07 (4ms)\n```JSON\n\"two\"\n```\n\n\n"));
    assert!(parse_request(&out, "page").is_none());
}

#[test]
fn reply_without_a_request_goes_to_the_end() {
    let writer = Writer::new(".");
    assert_eq!(
        writer.write_reply_at("", "page", "42", 0, 0).unwrap(),
        "\n#### 👍page to agent at 00:00:00 (0ms)\n```JSON\n42\n```\n\n"
    );
    let content = "# Log\n\n### 🗣️agent to other at 10:00:00\n```js\n1\n```\n";
    let out = writer.write_reply_at(content, "page", "42", 0, 0).unwrap();
    assert_eq!(out, format!("{}{}", content, "\n#### 👍page to agent at 00:00:00 (0ms)\n```JSON\n42\n```\n\n"));
}

#[test]
fn reply_with_the_clock_has_the_same_shape() {
    let writer = Writer::new(".");
    let out = writer.write_reply("", "page", "42", 5).unwrap();
    assert!(out.starts_with("\n#### 👍page to agent at "));
    assert!(out.ends_with(" (5ms)\n```JSON\n42\n```\n\n"));
    assert_eq!(out.len(), "\n#### 👍page to agent at 00:00:00 (5ms)\n```JSON\n42\n```\n\n".len());
}

#[test]
fn malformed_log_is_not_written() {
    let writer = Writer::new(".");
    let content = "```js\nunclosed";
    assert_eq!(
        writer.write_reply_at(content, "page", "42", 0, 0),
        Err(ParseError::Malformed { block: 0, fault: Fault::Fence })
    );
    assert_eq!(
        writer.update_test_results(content, "ok"),
        Err(ParseError::Malformed { block: 0, fault: Fault::Fence })
    );
}

#[test]
fn results_section_is_added_when_absent() {
    let writer = Writer::new(".");
    assert_eq!(writer.update_test_results("", "all passed").unwrap(), "\n## Test Results\nall passed\n");
    assert_eq!(
        writer.update_test_results("# Log\n\ntext\n", "all passed").unwrap(),
        "# Log\n\ntext\n\n## Test Results\nall passed\n"
    );
}

#[test]
fn results_section_is_replaced_up_to_the_next_section() {
    let writer = Writer::new(".");
    let content = "# Log\n\n## Test Results\nold\n\n### Details\nmore\n\n## Next\nkept\n";
    assert_eq!(
        writer.update_test_results(content, "new").unwrap(),
        "# Log\n\n## Test Results\nnew\n\n## Next\nkept\n"
    );
    let last = "# Log\n\n## Test Results\nold\n\n### Details\nmore\n";
    assert_eq!(writer.update_test_results(last, "new").unwrap(), "# Log\n\n## Test Results\nnew\n");
    let before_h1 = "## Test Results\nold\n# Top\n";
    assert_eq!(writer.update_test_results(before_h1, "new").unwrap(), "## Test Results\nnew\n\n# Top\n");
}

#[test]
fn marker_inside_code_or_text_is_not_the_section() {
    let writer = Writer::new(".");
    let content = "```text\n## Test Results\n```\n\nsee ## Test Results above\n";
    assert_eq!(
        writer.update_test_results(content, "new").unwrap(),
        "```text\n## Test Results\n```\n\nsee ## Test Results above\n\n## Test Results\nnew\n"
    );
    let other_rank = "### Test Results\nold\n";
    assert_eq!(
        writer.update_test_results(other_rank, "new").unwrap(),
        "### Test Results\nold\n\n## Test Results\nnew\n"
    );
}

#[test]
fn updating_results_twice_gives_the_same_bytes() {
    let writer = Writer::new(".");
    for content in ["", "# Log\n\ntext\n", "# Log\n\n## Test Results\nold\n\n## Next\nkept\n", "## Test Results\nold"] {
        let once = writer.update_test_results(content, "3 passed, 0 failed").unwrap();
        let twice = writer.update_test_results(&once, "3 passed, 0 failed").unwrap();
        assert_eq!(once.as_bytes(), twice.as_bytes());
    }
}

#[test]
fn insert_and_replace_work_on_a_parsed_document() {
    let content = "### 🗣️agent to page at 10:00:00\n```js\n1\n```\n\n## Test Results\nold\n";
    let doc = parse_file_ast(content).unwrap();
    assert_eq!(
        insert_reply(&doc, content, "page", "1", 2, 3).unwrap(),
        "### 🗣️agent to page at 10:00:00\n```js\n1\n```\n#### 👍page to agent at 00:00:03 (2ms)\n```JSON\n1\n```\n\n\n\n## Test Results\nold\n"
    );
    assert_eq!(
        replace_results(&doc, content, "new").unwrap(),
        "### 🗣️agent to page at 10:00:00\n```js\n1\n```\n\n## Test Results\nnew\n"
    );
}

#[test]
fn a_document_of_another_text_is_not_used() {
    let content = "### 🗣️agent to page at 10:00:00\n```js\n1\n```\n\n## Test Results\nold\n";
    let doc = parse_file_ast(content).unwrap();
    assert_eq!(insert_reply(&doc, "short", "page", "1", 2, 3), None);
    assert_eq!(replace_results(&doc, "short", "new"), None);
    let shifted = "aééééééééééééééééééééééééééééééééééééééééééééééééééééééééééééééé";
    assert_eq!(insert_reply(&doc, shifted, "page", "1", 2, 3), None);
    assert_eq!(replace_results(&doc, shifted, "new"), None);
    assert_eq!(
        insert_reply(&doc, "short", "other", "1", 2, 3),
        None
    );
    let empty = parse_file_ast("").unwrap();
    assert_eq!(
        insert_reply(&empty, "", "page", "1", 2, 3).unwrap(),
        "\n#### 👍page to agent at 00:00:03 (2ms)\n```JSON\n1\n```\n\n"
    );
    assert_eq!(replace_results(&empty, "any text", "new").unwrap(), "any text\n## Test Results\nnew\n");
}

#[test]
fn results_with_a_heading_of_their_own_are_not_stable() {
    let writer = Writer::new(".");
    let results = "a\n## Foo\nb";
    let once = writer.update_test_results("", results).unwrap();
    let twice = writer.update_test_results(&once, results).unwrap();
    assert_eq!(once, "\n## Test Results\na\n## Foo\nb\n");
    assert_eq!(twice, "\n## Test Results\na\n## Foo\nb\n\n## Foo\nb\n");
}

#[test]
fn page_name_outside_ascii_is_set_apart_from_the_emoji() {
    assert_eq!(
        format_reply("页面", "10:00:00", 1, "2"),
        "\n#### 👍 页面 to agent at 10:00:00 (1ms)\n```JSON\n2\n```\n\n"
    );
    assert_eq!(
        format_reply("ñu", "10:00:00", 1, "2"),
        "\n#### 👍 ñu to agent at 10:00:00 (1ms)\n```JSON\n2\n```\n\n"
    );
    let writer = Writer::new(".");
    let content = "### 🗣️agent to 页面 at 10:00:00\n```js\n1 + 1\n```\n";
    assert_eq!(parse_request(content, "页面").unwrap().code, "1 + 1");
    let out = writer.write_reply_at(content, "页面", "2", 7, 36_000).unwrap();
    assert!(parse_file_ast(&out).is_ok());
    assert!(parse_request(&out, "页面").is_none());
}

#[test]
fn written_reply_headings_are_read_as_reply_headings() {
    for page in ["page", "p", "my.page-1", "页面", "ñu", "a页"] {
        for (now, duration) in [(0u64, 0u64), (86_399, 7), (1_700_000_000, u64::MAX)] {
            let reply = format_reply(page, &format_clock(now), duration, "x");
            let heading = reply.strip_prefix("\n#### ").unwrap().lines().next().unwrap();
            assert!(reply_heading_matches(heading), "{:?}", heading);
        }
    }
}

#[test]
fn results_with_headings_and_code_keep_the_log_readable() {
    let writer = Writer::new(".");
    let results = "### Failing test\n```js\nassert(false)\n```\n#### Output\n```json\n{}\n```";
    let once = writer.update_test_results("# Log\n", results).unwrap();
    assert!(parse_file_ast(&once).is_ok());
    let twice = writer.update_test_results(&once, results).unwrap();
    assert_eq!(once, twice);
}

#[test]
fn a_failed_read_is_reported_and_nothing_is_written() {
    let writer = Writer::new(".");
    assert_eq!(writer.reply_to_read_at(&LogRead::Failed, "page", "42", 0, 0), Err(WriteError::Read));
    assert_eq!(writer.reply_to_read(&LogRead::Failed, "page", "42", 0), Err(WriteError::Read));
    assert_eq!(writer.results_to_read(&LogRead::Failed, "ok"), Err(WriteError::Read));
}

#[test]
fn a_missing_log_counts_as_empty() {
    let writer = Writer::new(".");
    assert_eq!(
        writer.reply_to_read_at(&LogRead::Missing, "page", "42", 0, 0),
        Ok(String::from("\n#### 👍page to agent at 00:00:00 (0ms)\n```JSON\n42\n```\n\n"))
    );
    assert_eq!(writer.results_to_read(&LogRead::Missing, "ok"), Ok(String::from("\n## Test Results\nok\n")));
}

#[test]
fn a_log_that_was_read_is_written_as_its_text_is() {
    let writer = Writer::new(".");
    let content = "### 🗣️agent to page at 10:00:00\n```js\n1 + 1\n```\n";
    let read = LogRead::Text(String::from(content));
    assert_eq!(
        writer.reply_to_read_at(&read, "page", "2", 7, 36_000),
        Ok(writer.write_reply_at(content, "page", "2", 7, 36_000).unwrap())
    );
    assert_eq!(
        writer.results_to_read(&read, "ok"),
        Ok(writer.update_test_results(content, "ok").unwrap())
    );
    let broken = LogRead::Text(String::from("```js\nunclosed"));
    let parse = ParseError::Malformed { block: 0, fault: Fault::Fence };
    assert_eq!(writer.reply_to_read_at(&broken, "page", "2", 7, 0), Err(WriteError::Parse(parse.clone())));
    assert_eq!(writer.results_to_read(&broken, "ok"), Err(WriteError::Parse(parse)));
}

#[test]
fn a_failure_is_tried_once_more() {
    assert!(should_retry(0));
    assert!(should_retry(1));
    assert!(!should_retry(2));
    assert!(!should_retry(3));
    assert!(!should_retry(u32::MAX));
}
