use daebug::fence::fence_closes;
use daebug::fence::fence_opens;
use daebug::grammar::emoji_leads;
use daebug::grammar::parse_request_heading;
use daebug::grammar::reply_heading_matches;
use daebug::grammar::result_tag_matches;
use daebug::grammar::script_tag_matches;
use daebug::clock::clamp_millis;
use daebug::clock::millis_since_epoch;
use daebug::clock::now_millis;
use daebug::clock::seconds_of;
use daebug::text::cut_allowed;
use daebug::text::push_decimal;
use daebug::text::splice;
use daebug::text::str_eq;

#[test]
fn request_heading_is_split_into_its_parts() {
    let h = parse_request_heading("🗣️agent to page at 10:00:00").unwrap();
    assert_eq!((h.agent.as_str(), h.target.as_str(), h.time.as_str()), ("agent", "page", "10:00:00"));
    let h = parse_request_heading("🗣️   co-pilot to my.page at 00:00:59").unwrap();
    assert_eq!((h.agent.as_str(), h.target.as_str(), h.time.as_str()), ("co-pilot", "my.page", "00:00:59"));
    let h = parse_request_heading("👾to to at at 23:59:59").unwrap();
    assert_eq!((h.agent.as_str(), h.target.as_str()), ("to", "at"));
}

#[test]
fn request_heading_needs_every_part() {
    for text in [
        "",
        "agent to page at 10:00:00",
        "🗣️ to page at 10:00:00",
        "🗣️agent to  at 10:00:00",
        "🗣️agent page at 10:00:00",
        "🗣️agent to page 10:00:00",
        "🗣️agent to page at 10:00",
        "🗣️agent to page at 10:00:00 ",
        "🗣️agent to page at 10:00:60",
        "🗣️agent to page at 10:60:00",
        "🗣️agent to page at 24:00:00",
        "🗣️agent to page at 1a:00:00",
        "🗣️agent to page at 10-00-00",
        "🗣️agent to my page at 10:00:00",
        "🗣️agent  to page at 10:00:00",
        "🗣️agent to page at 10:00:00 (5ms)",
    ] {
        assert!(parse_request_heading(text).is_none(), "{:?}", text);
    }
}

#[test]
fn reply_heading_is_recognised() {
    assert!(reply_heading_matches("👍page to agent at 10:00:00 (0ms)"));
    assert!(reply_heading_matches("👍 page to agent at 23:59:59 (18446744073709551616ms)"));
    for text in [
        "",
        "page to agent at 10:00:00 (0ms)",
        "👍page to agent at 10:00:00",
        "👍page to agent at 10:00:00 (ms)",
        "👍page to agent at 10:00:00 (5 ms)",
        "👍page to agent at 10:00:00 (5ms) ",
        "👍page to bot at 10:00:00 (5ms)",
        "👍page to agent at 25:00:00 (5ms)",
        "👍 to agent at 10:00:00 (5ms)",
        "👍page to agent at 10:00:00(5ms)",
    ] {
        assert!(!reply_heading_matches(text), "{:?}", text);
    }
}

#[test]
fn code_tags_ignore_case() {
    for tag in ["js", "JS", "Js", "javascript", "JavaScript", "JAVASCRIPT"] {
        assert!(script_tag_matches(tag), "{}", tag);
        assert!(!result_tag_matches(tag), "{}", tag);
    }
    for tag in ["json", "JSON", "Json"] {
        assert!(result_tag_matches(tag), "{}", tag);
        assert!(!script_tag_matches(tag), "{}", tag);
    }
    for tag in ["", "j", "jsx", "ts", "java", "javascripts", "js ", "ʝs", "jſ", "J\u{33}", "*S"] {
        assert!(!script_tag_matches(tag), "{:?}", tag);
        assert!(!result_tag_matches(tag), "{:?}", tag);
    }
}

#[test]
fn fences_open_and_close() {
    let closed = "```js\nx\n```".as_bytes();
    assert!(fence_opens(closed, 0, closed.len()));
    assert!(fence_closes(closed, 0, closed.len()));
    let open = "```js\nx\n``".as_bytes();
    assert!(fence_opens(open, 0, open.len()));
    assert!(!fence_closes(open, 0, open.len()));
    let single = "```js".as_bytes();
    assert!(fence_opens(single, 0, single.len()));
    assert!(!fence_closes(single, 0, single.len()));
    let tilde = "~~~\nx\n```".as_bytes();
    assert!(fence_opens(tilde, 0, tilde.len()));
    assert!(!fence_closes(tilde, 0, tilde.len()));
    let longer = "````\nx\n```".as_bytes();
    assert!(!fence_closes(longer, 0, longer.len()));
    let trailing = "```\nx\n   ````` \t".as_bytes();
    assert!(fence_closes(trailing, 0, trailing.len()));
    let text_after = "```\nx\n``` x".as_bytes();
    assert!(!fence_closes(text_after, 0, text_after.len()));
    let indented = "    code".as_bytes();
    assert!(!fence_opens(indented, 0, indented.len()));
    let short = "``\n``".as_bytes();
    assert!(!fence_opens(short, 0, short.len()));
    assert!(!fence_opens(closed, 3, 3));
    let inner = "ab```\nx\n```cd".as_bytes();
    assert!(fence_opens(inner, 2, 11));
    assert!(fence_closes(inner, 2, 11));
    assert!(!fence_closes(inner, 2, 12));
}

#[test]
fn strings_compare_by_content() {
    assert!(str_eq("", ""));
    assert!(str_eq("page", "page"));
    assert!(str_eq("🗣️", "🗣️"));
    assert!(!str_eq("page", "pages"));
    assert!(!str_eq("page", "pagf"));
    assert!(!str_eq("é", "e"));
}

#[test]
fn splice_inserts_at_a_byte_offset() {
    assert_eq!(splice("héllo", 3, "-"), Some(String::from("hé-llo")));
    assert_eq!(splice("abc", 0, "x"), Some(String::from("xabc")));
    assert_eq!(splice("abc", 3, "x"), Some(String::from("abcx")));
    assert_eq!(splice("", 0, ""), Some(String::new()));
    assert_eq!(splice("héllo", 2, "-"), None);
    assert_eq!(splice("abc", 4, "x"), None);
    assert!(cut_allowed("héllo", 1));
    assert!(!cut_allowed("héllo", 2));
    assert!(cut_allowed("héllo", 6));
    assert!(!cut_allowed("héllo", 7));
}

#[test]
fn decimal_numbers_are_written_without_padding() {
    for (n, text) in [(0, "0"), (7, "7"), (10, "10"), (909, "909"), (u64::MAX, "18446744073709551615")] {
        let mut out = String::from("n=");
        push_decimal(&mut out, n);
        assert_eq!(out, format!("n={}", text));
    }
}

#[test]
fn clock_readings_fit_a_u64() {
    assert_eq!(clamp_millis(0), 0);
    assert_eq!(clamp_millis(1_700_000_000_123), 1_700_000_000_123);
    assert_eq!(clamp_millis(u64::MAX as u128), u64::MAX);
    assert_eq!(clamp_millis(u64::MAX as u128 + 1), u64::MAX);
    assert_eq!(clamp_millis(u128::MAX), u64::MAX);
    assert_eq!(millis_since_epoch(None), 0);
    assert_eq!(millis_since_epoch(Some(0)), 0);
    assert_eq!(millis_since_epoch(Some(1_700_000_000_123)), 1_700_000_000_123);
    assert_eq!(millis_since_epoch(Some(u128::MAX)), u64::MAX);
    assert_eq!(seconds_of(0), 0);
    assert_eq!(seconds_of(999), 0);
    assert_eq!(seconds_of(1_000), 1);
    assert_eq!(seconds_of(1_700_000_000_123), 1_700_000_000);
    assert!(now_millis() > 1_600_000_000_000);
}

#[test]
fn emoji_is_told_by_the_first_character() {
    assert!(emoji_leads("🗣️agent"));
    assert!(emoji_leads("é"));
    assert!(!emoji_leads("agent 🗣️"));
    assert!(!emoji_leads(" 🗣️"));
    assert!(!emoji_leads(""));
}
