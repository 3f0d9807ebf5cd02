//! The headings of the log format, as a grammar on characters.
//!
//! A request heading reads `<emoji><agent> to <page> at HH:MM:SS`, a reply
//! heading `<emoji><page> to agent at HH:MM:SS (<N>ms)`. The emoji is a
//! non-empty run of non-ASCII characters and may be followed by spaces; a
//! name is a non-empty run of characters other than the space.

use crate::text::digit_value;
use crate::text::is_digit;
use vstd::prelude::*;
use vstd::string::*;

verus! {

/// The classes of characters that the grammar tells apart.
#[derive(Debug, Clone, Copy, PartialEq, Eq, Structural)]
pub enum CharClass {
    /// Any character outside ASCII.
    Emoji,
    /// The space character.
    Space,
    /// Any character but the space.
    Name,
    /// An ASCII digit.
    Digit,
}

/// Whether `c` belongs to `class`.
pub open spec fn in_class(class: CharClass, c: char) -> bool {
    match class {
        CharClass::Emoji => c as u32 >= 0x80,
        CharClass::Space => c == ' ',
        CharClass::Name => c != ' ',
        CharClass::Digit => is_digit(c),
    }
}

/// The length of the longest run of characters of `class` that starts at
/// `from`.
pub open spec fn run_len(s: Seq<char>, from: int, class: CharClass) -> nat
    decreases s.len() - from,
{
    if 0 <= from < s.len() && in_class(class, s[from]) {
        1 + run_len(s, from + 1, class)
    } else {
        0
    }
}

/// Whether `s` holds `word` at position `at`.
pub open spec fn has_word(s: Seq<char>, at: int, word: Seq<char>) -> bool {
    0 <= at && at + word.len() <= s.len() && s.subrange(at, at + word.len()) == word
}

/// The number written by the two digits at `at`.
pub open spec fn two_digit_value(s: Seq<char>, at: int) -> nat {
    digit_value(s[at]) * 10 + digit_value(s[at + 1])
}

/// Whether `s` holds a time of day, `HH:MM:SS`, at position `at`.
pub open spec fn has_clock(s: Seq<char>, at: int) -> bool {
    &&& 0 <= at
    &&& at + 8 <= s.len()
    &&& is_digit(s[at]) && is_digit(s[at + 1])
    &&& s[at + 2] == ':'
    &&& is_digit(s[at + 3]) && is_digit(s[at + 4])
    &&& s[at + 5] == ':'
    &&& is_digit(s[at + 6]) && is_digit(s[at + 7])
    &&& two_digit_value(s, at) < 24
    &&& two_digit_value(s, at + 3) < 60
    &&& two_digit_value(s, at + 6) < 60
}

/// The word between a request's agent and its page.
pub open spec fn word_to() -> Seq<char> {
    seq![' ', 't', 'o', ' ']
}

/// The word between a request's page and its time.
pub open spec fn word_at() -> Seq<char> {
    seq![' ', 'a', 't', ' ']
}

/// The words between a reply's page and its time.
pub open spec fn word_to_agent_at() -> Seq<char> {
    seq![' ', 't', 'o', ' ', 'a', 'g', 'e', 'n', 't', ' ', 'a', 't', ' ']
}

/// What opens a reply's duration.
pub open spec fn word_open() -> Seq<char> {
    seq![' ', '(']
}

/// What closes a reply's duration.
pub open spec fn word_ms() -> Seq<char> {
    seq!['m', 's', ')']
}

/// Whether a heading opens with an emoji, as the headings of requests and
/// replies do.
pub open spec fn leads_with_emoji(s: Seq<char>) -> bool {
    s.len() > 0 && in_class(CharClass::Emoji, s[0])
}

/// The parts of a request heading.
pub struct RequestHeadingView {
    pub agent: Seq<char>,
    pub target: Seq<char>,
    pub time: Seq<char>,
}

/// Where the agent's name starts in a heading: after the emoji and the
/// spaces that follow it.
pub open spec fn name_start(s: Seq<char>) -> int {
    let emoji = run_len(s, 0, CharClass::Emoji) as int;
    emoji + run_len(s, emoji, CharClass::Space)
}

/// The parts of the request heading `s`, if it is one.
pub open spec fn request_heading(s: Seq<char>) -> Option<RequestHeadingView> {
    let agent_start = name_start(s);
    let agent_end = agent_start + run_len(s, agent_start, CharClass::Name);
    let target_start = agent_end + 4;
    let target_end = target_start + run_len(s, target_start, CharClass::Name);
    let time_start = target_end + 4;
    if run_len(s, 0, CharClass::Emoji) >= 1 && agent_end > agent_start && has_word(
        s,
        agent_end,
        word_to(),
    ) && target_end > target_start && has_word(s, target_end, word_at()) && has_clock(s, time_start)
        && s.len() == time_start + 8 {
        Some(
            RequestHeadingView {
                agent: s.subrange(agent_start, agent_end),
                target: s.subrange(target_start, target_end),
                time: s.subrange(time_start, time_start + 8),
            },
        )
    } else {
        None
    }
}

/// Whether `s` is a reply heading.
pub open spec fn is_reply_heading(s: Seq<char>) -> bool {
    let page_start = name_start(s);
    let page_end = page_start + run_len(s, page_start, CharClass::Name);
    let time_start = page_end + 13;
    let digits_start = time_start + 10;
    let digits_end = digits_start + run_len(s, digits_start, CharClass::Digit);
    &&& run_len(s, 0, CharClass::Emoji) >= 1
    &&& page_end > page_start
    &&& has_word(s, page_end, word_to_agent_at())
    &&& has_clock(s, time_start)
    &&& has_word(s, time_start + 8, word_open())
    &&& digits_end > digits_start
    &&& has_word(s, digits_end, word_ms())
    &&& s.len() == digits_end + 3
}

/// A stretch of characters of one class, with a character of another class
/// or the end of the text behind it, is a run of that class.
pub proof fn lemma_run_is(s: Seq<char>, from: int, n: nat, class: CharClass)
    requires
        0 <= from,
        from + n <= s.len(),
        forall|k: int| from <= k < from + n ==> in_class(class, #[trigger] s[k]),
        from + n == s.len() || !in_class(class, s[from + n]),
    ensures
        run_len(s, from, class) == n,
    decreases n,
{
    if n > 0 {
        lemma_run_is(s, from + 1, (n - 1) as nat, class);
    }
}

/// Decides whether `c` belongs to `class`.
pub(crate) fn class_holds(class: CharClass, c: char) -> (yes: bool)
    ensures
        yes == in_class(class, c),
{
    match class {
        CharClass::Emoji => c as u32 >= 0x80,
        CharClass::Space => c == ' ',
        CharClass::Name => c != ' ',
        CharClass::Digit => '0' <= c && c <= '9',
    }
}

/// The characters of `s`, one by one.
pub(crate) fn chars_of(s: &str) -> (chars: Vec<char>)
    ensures
        chars@ == s@,
{
    let mut chars: Vec<char> = Vec::new();
    for c in it: s.chars()
        invariant
            chars@ == it.seq().take(it.index() as int),
    {
        chars.push(c);
    }
    chars
}

/// The text made of the characters of `chars` from `from` up to `to`.
pub(crate) fn text_of(chars: &Vec<char>, from: usize, to: usize) -> (text: String)
    requires
        from <= to <= chars@.len(),
    ensures
        text@ == chars@.subrange(from as int, to as int),
{
    let mut text = String::new();
    let mut i: usize = from;
    while i < to
        invariant
            from <= i <= to <= chars@.len(),
            text@ == chars@.subrange(from as int, i as int),
        decreases to - i,
    {
        text.push(chars[i]);
        proof {
            assert(chars@.subrange(from as int, i + 1) =~= chars@.subrange(from as int, i as int).push(
                chars@[i as int],
            ));
        }
        i += 1;
    }
    text
}

/// The end of the longest run of characters of `class` that starts at
/// `from`.
pub(crate) fn scan(chars: &Vec<char>, from: usize, class: CharClass) -> (end: usize)
    requires
        from <= chars@.len(),
    ensures
        end == from + run_len(chars@, from as int, class),
        from <= end <= chars@.len(),
{
    let mut i: usize = from;
    while i < chars.len() && class_holds(class, chars[i])
        invariant
            from <= i <= chars@.len(),
            from + run_len(chars@, from as int, class) == i + run_len(chars@, i as int, class),
        decreases chars@.len() - i,
    {
        i += 1;
    }
    i
}

/// Decides whether `chars` holds `word` at position `at`.
pub(crate) fn word_at_position(chars: &Vec<char>, at: usize, word: &Vec<char>) -> (yes: bool)
    ensures
        yes == has_word(chars@, at as int, word@),
{
    if word.len() > chars.len() || at > chars.len() - word.len() {
        return false;
    }
    let mut i: usize = 0;
    while i < word.len()
        invariant
            0 <= i <= word@.len(),
            at + word@.len() <= chars@.len() <= usize::MAX,
            forall|k: int| 0 <= k < i ==> chars@[at + k] == word@[k],
        decreases word@.len() - i,
    {
        if chars[at + i] != word[i] {
            proof {
                assert(chars@.subrange(at as int, at + word@.len())[i as int] == chars@[at + i]);
            }
            return false;
        }
        i += 1;
    }
    proof {
        assert(chars@.subrange(at as int, at + word@.len()) =~= word@);
    }
    true
}

/// The number that the digit `c` stands for.
fn digit_of(c: char) -> (d: u32)
    requires
        is_digit(c),
    ensures
        d == digit_value(c),
        d < 10,
{
    c as u32 - '0' as u32
}

/// Decides whether `c` is an ASCII digit.
fn digit_holds(c: char) -> (yes: bool)
    ensures
        yes == is_digit(c),
{
    '0' <= c && c <= '9'
}

/// Decides whether `chars` holds a time of day at position `at`.
pub(crate) fn clock_at_position(chars: &Vec<char>, at: usize) -> (yes: bool)
    ensures
        yes == has_clock(chars@, at as int),
{
    if chars.len() < 8 || at > chars.len() - 8 {
        return false;
    }
    if !(digit_holds(chars[at]) && digit_holds(chars[at + 1]) && chars[at + 2] == ':' && digit_holds(
        chars[at + 3],
    ) && digit_holds(chars[at + 4]) && chars[at + 5] == ':' && digit_holds(chars[at + 6])
        && digit_holds(chars[at + 7])) {
        return false;
    }
    let hours = digit_of(chars[at]) * 10 + digit_of(chars[at + 1]);
    let minutes = digit_of(chars[at + 3]) * 10 + digit_of(chars[at + 4]);
    let seconds = digit_of(chars[at + 6]) * 10 + digit_of(chars[at + 7]);
    hours < 24 && minutes < 60 && seconds < 60
}

/// The parts of a request heading, as text.
#[derive(Debug, Clone)]
pub struct RequestHeading {
    pub agent: String,
    pub target: String,
    pub time: String,
}

impl View for RequestHeading {
    type V = RequestHeadingView;

    open spec fn view(&self) -> RequestHeadingView {
        RequestHeadingView { agent: self.agent@, target: self.target@, time: self.time@ }
    }
}

/// The characters of ` to `.
fn literal_to() -> (word: Vec<char>)
    ensures
        word@ == word_to(),
        word@.len() == 4,
{
    let word = vec![' ', 't', 'o', ' '];
    assert(word@ =~= word_to());
    word
}

/// The characters of ` at `.
fn literal_at() -> (word: Vec<char>)
    ensures
        word@ == word_at(),
        word@.len() == 4,
{
    let word = vec![' ', 'a', 't', ' '];
    assert(word@ =~= word_at());
    word
}

/// The characters of ` to agent at `.
fn literal_to_agent_at() -> (word: Vec<char>)
    ensures
        word@ == word_to_agent_at(),
        word@.len() == 13,
{
    let word = vec![' ', 't', 'o', ' ', 'a', 'g', 'e', 'n', 't', ' ', 'a', 't', ' '];
    assert(word@ =~= word_to_agent_at());
    word
}

/// The characters of ` (`.
fn literal_open() -> (word: Vec<char>)
    ensures
        word@ == word_open(),
        word@.len() == 2,
{
    let word = vec![' ', '('];
    assert(word@ =~= word_open());
    word
}

/// The characters of `ms)`.
fn literal_ms() -> (word: Vec<char>)
    ensures
        word@ == word_ms(),
        word@.len() == 3,
{
    let word = vec!['m', 's', ')'];
    assert(word@ =~= word_ms());
    word
}

/// Decides whether a heading opens with an emoji.
pub fn emoji_leads(text: &str) -> (yes: bool)
    ensures
        yes == leads_with_emoji(text@),
{
    !text.is_empty() && text.get_char(0) as u32 >= 0x80
}

/// Reads a request heading: `Some` with its parts exactly when `text` is
/// one.
pub fn parse_request_heading(text: &str) -> (parts: Option<RequestHeading>)
    ensures
        match parts {
            Some(heading) => request_heading(text@) == Some(heading@),
            None => request_heading(text@) is None,
        },
{
    let chars = chars_of(text);
    let total = chars.len();
    let emoji_end = scan(&chars, 0, CharClass::Emoji);
    if emoji_end == 0 {
        return None;
    }
    let agent_start = scan(&chars, emoji_end, CharClass::Space);
    let agent_end = scan(&chars, agent_start, CharClass::Name);
    let to = literal_to();
    if agent_end == agent_start || !word_at_position(&chars, agent_end, &to) {
        return None;
    }
    assert(agent_end + 4 <= total);
    let target_start = agent_end + 4;
    let target_end = scan(&chars, target_start, CharClass::Name);
    let at = literal_at();
    if target_end == target_start || !word_at_position(&chars, target_end, &at) {
        return None;
    }
    assert(target_end + 4 <= total);
    let time_start = target_end + 4;
    if !clock_at_position(&chars, time_start) || total != time_start + 8 {
        return None;
    }
    Some(
        RequestHeading {
            agent: text_of(&chars, agent_start, agent_end),
            target: text_of(&chars, target_start, target_end),
            time: text_of(&chars, time_start, time_start + 8),
        },
    )
}

/// Decides whether `text` is a reply heading.
pub fn reply_heading_matches(text: &str) -> (yes: bool)
    ensures
        yes == is_reply_heading(text@),
{
    let chars = chars_of(text);
    let total = chars.len();
    let emoji_end = scan(&chars, 0, CharClass::Emoji);
    if emoji_end == 0 {
        return false;
    }
    let page_start = scan(&chars, emoji_end, CharClass::Space);
    let page_end = scan(&chars, page_start, CharClass::Name);
    let to_agent_at = literal_to_agent_at();
    if page_end == page_start || !word_at_position(&chars, page_end, &to_agent_at) {
        return false;
    }
    assert(page_end + 13 <= total);
    let time_start = page_end + 13;
    if !clock_at_position(&chars, time_start) {
        return false;
    }
    assert(time_start + 8 <= total);
    let open = literal_open();
    if !word_at_position(&chars, time_start + 8, &open) {
        return false;
    }
    assert(time_start + 10 <= total);
    let digits_start = time_start + 10;
    let digits_end = scan(&chars, digits_start, CharClass::Digit);
    let ms = literal_ms();
    if digits_end == digits_start || !word_at_position(&chars, digits_end, &ms) {
        return false;
    }
    assert(digits_end + 3 <= total);
    total == digits_end + 3
}

/// Whether `c` is `letter` or its upper-case form, for a lower-case ASCII
/// letter `letter`.
pub open spec fn same_letter(c: char, letter: char) -> bool {
    c == letter || ('A' <= c && c <= 'Z' && c as u32 + 32 == letter as u32)
}

/// Whether `s` is `word` but for the case of its ASCII letters; `word` is
/// written in lower case.
pub open spec fn is_word_ignoring_case(s: Seq<char>, word: Seq<char>) -> bool {
    s.len() == word.len() && forall|i: int| 0 <= i < s.len() ==> same_letter(#[trigger] s[i], word[i])
}

/// The tag `js`.
pub open spec fn tag_js() -> Seq<char> {
    seq!['j', 's']
}

/// The tag `javascript`.
pub open spec fn tag_javascript() -> Seq<char> {
    seq!['j', 'a', 'v', 'a', 's', 'c', 'r', 'i', 'p', 't']
}

/// The tag `json`.
pub open spec fn tag_json() -> Seq<char> {
    seq!['j', 's', 'o', 'n']
}

/// Whether a code block with this tag holds code to run: `js` or
/// `javascript`, in any case.
pub open spec fn is_script_tag(tag: Seq<char>) -> bool {
    is_word_ignoring_case(tag, tag_js()) || is_word_ignoring_case(tag, tag_javascript())
}

/// Whether a code block with this tag holds a result: `JSON`, in any case.
pub open spec fn is_result_tag(tag: Seq<char>) -> bool {
    is_word_ignoring_case(tag, tag_json())
}

/// Decides whether `chars` is `word` but for the case of its ASCII letters.
pub(crate) fn word_matches_ignoring_case(chars: &Vec<char>, word: &Vec<char>) -> (yes: bool)
    ensures
        yes == is_word_ignoring_case(chars@, word@),
{
    if chars.len() != word.len() {
        return false;
    }
    let mut i: usize = 0;
    while i < chars.len()
        invariant
            0 <= i <= chars@.len(),
            chars@.len() == word@.len(),
            forall|k: int| 0 <= k < i ==> same_letter(#[trigger] chars@[k], word@[k]),
        decreases chars@.len() - i,
    {
        let c = chars[i];
        let letter = word[i];
        if !(c == letter || ('A' <= c && c <= 'Z' && c as u32 + 32 == letter as u32)) {
            return false;
        }
        i += 1;
    }
    true
}

/// Decides whether a code block with this tag holds code to run.
pub fn script_tag_matches(tag: &str) -> (yes: bool)
    ensures
        yes == is_script_tag(tag@),
{
    let chars = chars_of(tag);
    let js = vec!['j', 's'];
    let javascript = vec!['j', 'a', 'v', 'a', 's', 'c', 'r', 'i', 'p', 't'];
    proof {
        assert(js@ =~= tag_js());
        assert(javascript@ =~= tag_javascript());
    }
    word_matches_ignoring_case(&chars, &js) || word_matches_ignoring_case(&chars, &javascript)
}

/// Decides whether a code block with this tag holds a result.
pub fn result_tag_matches(tag: &str) -> (yes: bool)
    ensures
        yes == is_result_tag(tag@),
{
    let chars = chars_of(tag);
    let json = vec!['j', 's', 'o', 'n'];
    proof {
        assert(json@ =~= tag_json());
    }
    word_matches_ignoring_case(&chars, &json)
}

} // verus!
