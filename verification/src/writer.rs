//! The log writer: where a reply goes in a page's log, what it looks like,
//! and how the results section is replaced.
//!
//! The functions here compute the new text of a log from its current text.
//! Reading and storing the file, and the lock that keeps two writers of one
//! page apart, belong to the caller.

use crate::clock::now_millis;
use crate::clock::seconds_of;
use crate::document::BlockView;
use crate::document::document_of;
use crate::document::is_heading_of;
use crate::document::LogDocument;
use crate::document::ParseError;
use crate::document::Rejection;
use crate::grammar::CharClass;
use crate::grammar::has_clock;
use crate::grammar::has_word;
use crate::grammar::in_class;
use crate::grammar::is_reply_heading;
use crate::grammar::lemma_run_is;
use crate::grammar::name_start;
use crate::grammar::run_len;
use crate::grammar::word_ms;
use crate::grammar::word_open;
use crate::grammar::word_to_agent_at;
use crate::outline::BlockKind;
use crate::outline::BlockKindView;
use crate::parser::earliest_unanswered;
use crate::parser::first_request;
use crate::parser::request_at;
use crate::parser::lemma_earliest_unique;
use crate::parser::parse_file_ast;
use crate::text::can_cut;
use crate::text::cut_allowed;
use crate::text::decimal;
use crate::text::digit_char;
use crate::text::lemma_decimal_reads_back;
use crate::text::lemma_digit_char;
use crate::text::lemma_encode_concat;
use crate::text::push_decimal;
use crate::text::push_two_digits;
use crate::text::splice;
use crate::text::spliced;
use crate::text::str_eq;
use crate::text::two_digits;
use vstd::prelude::*;
use vstd::string::*;
use vstd::utf8::*;

verus! {

/// The time of day, `HH:MM:SS`, at `secs` seconds since the Unix epoch.
pub open spec fn clock_text(secs: u64) -> Seq<char> {
    two_digits(((secs / 3600) % 24) as nat) + seq![':'] + two_digits(((secs / 60) % 60) as nat)
        + seq![':'] + two_digits((secs % 60) as nat)
}

/// What stands between the emoji and the name of `page` in a heading:
/// nothing, or a space where the name starts with a character outside
/// ASCII, which would else read as part of the emoji.
pub open spec fn name_gap(page: Seq<char>) -> Seq<char> {
    if page.len() > 0 && page[0] as u32 >= 0x80 {
        seq![' ']
    } else {
        Seq::empty()
    }
}

/// The text of the heading of a reply by `page`: the emoji, the page, the
/// time, and the duration in milliseconds.
pub open spec fn reply_heading_text(page: Seq<char>, time: Seq<char>, duration: u64) -> Seq<char> {
    seq!['👍'] + name_gap(page) + page + word_to_agent_at() + time + word_open() + decimal(
        duration as nat,
    ) + word_ms()
}

/// The reply block for `page`: a heading of rank 4, and the result in a
/// fence tagged `JSON`.
pub open spec fn reply_text(page: Seq<char>, time: Seq<char>, duration: u64, result: Seq<char>) -> Seq<
    char,
> {
    "\n#### "@ + reply_heading_text(page, time, duration) + "\n```JSON\n"@ + result + "\n```\n\n"@
}

/// Whether a page of this name can stand in a heading: the name is not
/// empty and holds no space.
pub open spec fn is_page_name(page: Seq<char>) -> bool {
    &&& page.len() > 0
    &&& forall|i: int| 0 <= i < page.len() ==> #[trigger] page[i] != ' '
}

/// The time of day is written as eight characters that read as a time.
pub proof fn lemma_clock_reads_back(secs: u64)
    ensures
        clock_text(secs).len() == 8,
        has_clock(clock_text(secs), 0),
{
    let h = ((secs / 3600) % 24) as nat;
    let m = ((secs / 60) % 60) as nat;
    let sec = (secs % 60) as nat;
    lemma_digit_char(h / 10);
    lemma_digit_char(h % 10);
    lemma_digit_char(m / 10);
    lemma_digit_char(m % 10);
    lemma_digit_char(sec / 10);
    lemma_digit_char(sec % 10);
    let t = clock_text(secs);
    assert(t =~= seq![
        digit_char(h / 10),
        digit_char(h % 10),
        ':',
        digit_char(m / 10),
        digit_char(m % 10),
        ':',
        digit_char(sec / 10),
        digit_char(sec % 10),
    ]);
}

/// What the writer puts into the heading of a reply, the parser reads as a
/// reply heading, for every page whose name can stand in a heading.
pub proof fn lemma_reply_heading_reads_back(page: Seq<char>, now: u64, duration: u64)
    requires
        is_page_name(page),
    ensures
        is_reply_heading(reply_heading_text(page, clock_text(now), duration)),
{
    let time = clock_text(now);
    let digits = decimal(duration as nat);
    let s = reply_heading_text(page, time, duration);
    lemma_clock_reads_back(now);
    lemma_decimal_reads_back(duration as nat);
    let gap = name_gap(page);
    let page_start: int = 1 + gap.len() as int;
    let page_end: int = page_start + page.len();
    let time_start = page_end + 13;
    let digits_start = time_start + 10;
    let digits_end = digits_start + digits.len();
    assert(word_to_agent_at().len() == 13);
    assert(word_open().len() == 2);
    assert(word_ms().len() == 3);
    assert(s.len() == digits_end + 3);
    assert(s[0] == '👍');
    assert forall|k: int| page_start <= k < page_end implies s[k] == page[k - page_start] by {}
    assert forall|k: int| 0 <= k < 13 implies s[page_end + k] == word_to_agent_at()[k] by {}
    assert forall|k: int| 0 <= k < 8 implies s[time_start + k] == time[k] by {}
    assert forall|k: int| 0 <= k < 2 implies s[time_start + 8 + k] == word_open()[k] by {}
    assert forall|k: int| digits_start <= k < digits_end implies s[k] == digits[k - digits_start] by {}
    assert forall|k: int| 0 <= k < 3 implies s[digits_end + k] == word_ms()[k] by {}
    assert(s[page_start] == page[0]);
    assert(run_len(s, 0, CharClass::Emoji) == 1) by {
        if gap.len() > 0 {
            assert(s[1] == gap[0]);
        }
        lemma_run_is(s, 0, 1, CharClass::Emoji);
    }
    assert(run_len(s, 1, CharClass::Space) == gap.len()) by {
        if gap.len() > 0 {
            assert(s[1] == gap[0]);
        }
        lemma_run_is(s, 1, gap.len(), CharClass::Space);
    }
    assert(name_start(s) == page_start);
    assert(run_len(s, page_start, CharClass::Name) == page.len()) by {
        assert(s[page_end] == word_to_agent_at()[0]);
        assert forall|k: int| page_start <= k < page_end implies in_class(
            CharClass::Name,
            #[trigger] s[k],
        ) by {
            assert(s[k] == page[k - page_start]);
        }
        lemma_run_is(s, page_start, page.len(), CharClass::Name);
    }
    assert(has_word(s, page_end, word_to_agent_at())) by {
        assert(s.subrange(page_end, page_end + 13) =~= word_to_agent_at());
    }
    assert(has_clock(s, time_start)) by {
        assert(s[time_start + 0] == time[0]);
        assert(s[time_start + 1] == time[1]);
        assert(s[time_start + 2] == time[2]);
        assert(s[time_start + 3] == time[3]);
        assert(s[time_start + 4] == time[4]);
        assert(s[time_start + 5] == time[5]);
        assert(s[time_start + 6] == time[6]);
        assert(s[time_start + 7] == time[7]);
    }
    assert(has_word(s, time_start + 8, word_open())) by {
        assert(s.subrange(time_start + 8, time_start + 10) =~= word_open());
    }
    assert(run_len(s, digits_start, CharClass::Digit) == digits.len()) by {
        assert(s[digits_end] == word_ms()[0]);
        assert forall|k: int| digits_start <= k < digits_end implies in_class(
            CharClass::Digit,
            #[trigger] s[k],
        ) by {
            assert(s[k] == digits[k - digits_start]);
        }
        lemma_run_is(s, digits_start, digits.len(), CharClass::Digit);
    }
    assert(has_word(s, digits_end, word_ms())) by {
        assert(s.subrange(digits_end, digits_end + 3) =~= word_ms());
    }
}

/// Where the reply for `page` goes: after the code block of the page's
/// first unanswered request, or at the end of the text where the page has
/// none. The first unanswered request is the one that the page's job was
/// created for: see `Comparison::request_to_dispatch`.
pub open spec fn reply_anchor(blocks: Seq<BlockView>, page: Seq<char>, length: int) -> int {
    if exists|i: int| earliest_unanswered(blocks, page, i) {
        blocks[(choose|i: int| earliest_unanswered(blocks, page, i)) + 1].end as int
    } else {
        length
    }
}

/// The text of the heading that marks the results section.
pub open spec fn marker_text() -> Seq<char> {
    "Test Results"@
}

/// The line that opens the results section.
pub open spec fn marker_line() -> Seq<char> {
    "## Test Results\n"@
}

/// Whether the block is the heading of the results section: a heading of
/// rank 2 with the marker as its text.
pub open spec fn is_results_heading(block: BlockView) -> bool {
    is_heading_of(block.kind, 2) && block.text == marker_text()
}

/// Whether the block ends a section of rank 2: a heading of rank 1 or 2.
pub open spec fn closes_section(block: BlockView) -> bool {
    match block.kind {
        BlockKindView::Heading { depth } => depth <= 2,
        _ => false,
    }
}

/// Whether block `i` is the first results heading of the document.
pub open spec fn section_opens_at(blocks: Seq<BlockView>, i: int) -> bool {
    &&& 0 <= i < blocks.len()
    &&& is_results_heading(blocks[i])
    &&& forall|j: int| 0 <= j < i ==> !is_results_heading(#[trigger] blocks[j])
}

/// Whether block `j` is the first block after `i` that ends the section.
pub open spec fn section_closes_at(blocks: Seq<BlockView>, i: int, j: int) -> bool {
    &&& i < j < blocks.len()
    &&& closes_section(blocks[j])
    &&& forall|k: int| i < k < j ==> !closes_section(#[trigger] blocks[k])
}

/// The bytes that the results section of a text covers.
pub enum Section {
    /// The text has no results section.
    Absent,
    /// The section starts at byte `start` and runs to the end of the text.
    Last { start: int },
    /// The section starts at byte `start` and ends before byte `next`, where
    /// the next heading of rank 1 or 2 starts.
    Inner { start: int, next: int },
}

/// The bytes that the results section of a document covers: from the start
/// of its heading to the start of the next heading of rank 1 or 2, or to the
/// end of the text.
pub open spec fn results_section(blocks: Seq<BlockView>) -> Section {
    if exists|i: int| section_opens_at(blocks, i) {
        let i = choose|i: int| section_opens_at(blocks, i);
        if exists|j: int| section_closes_at(blocks, i, j) {
            Section::Inner {
                start: blocks[i].start as int,
                next: blocks[choose|j: int| section_closes_at(blocks, i, j)].start as int,
            }
        } else {
            Section::Last { start: blocks[i].start as int }
        }
    } else {
        Section::Absent
    }
}

/// The text `bytes` with its results section replaced by `results`, or with
/// a results section added at the end where the text has none.
pub open spec fn with_results(bytes: Seq<u8>, section: Section, results: Seq<char>) -> Seq<u8> {
    match section {
        Section::Absent => bytes + encode_utf8("\n"@ + marker_line() + results + "\n"@),
        Section::Last { start } => bytes.subrange(0, start) + encode_utf8(
            marker_line() + results + "\n"@,
        ),
        Section::Inner { start, next } => bytes.subrange(0, start) + encode_utf8(
            marker_line() + results + "\n\n"@,
        ) + bytes.subrange(next, bytes.len() as int),
    }
}

/// Where the results section lies in `with_results(bytes, section,
/// results)`, provided the text is read back as it was written: the heading
/// where it was put, and the section's end where the kept text resumes.
pub open spec fn section_as_written(bytes: Seq<u8>, section: Section, results: Seq<char>) -> Section {
    match section {
        Section::Absent => Section::Last { start: (bytes.len() + encode_utf8("\n"@).len()) as int },
        Section::Last { start } => Section::Last { start: start },
        Section::Inner { start, next } => Section::Inner {
            start: start,
            next: start + encode_utf8(marker_line() + results + "\n\n"@).len(),
        },
    }
}

/// Replacing the results section twice with the same results gives the same
/// bytes as replacing it once, wherever the section is found again at the
/// place where the first replacement wrote it.
pub proof fn lemma_update_is_idempotent(bytes: Seq<u8>, section: Section, results: Seq<char>)
    requires
        match section {
            Section::Absent => true,
            Section::Last { start } => 0 <= start <= bytes.len(),
            Section::Inner { start, next } => 0 <= start <= next <= bytes.len(),
        },
    ensures
        with_results(
            with_results(bytes, section, results),
            section_as_written(bytes, section, results),
            results,
        ) == with_results(bytes, section, results),
{
    let once = with_results(bytes, section, results);
    let again = section_as_written(bytes, section, results);
    match section {
        Section::Absent => {
            let tail = marker_line() + results + "\n"@;
            lemma_encode_concat("\n"@, tail);
            assert("\n"@ + marker_line() + results + "\n"@ =~= "\n"@ + tail);
            let at = bytes.len() + encode_utf8("\n"@).len();
            assert(once.subrange(0, at as int) =~= bytes + encode_utf8("\n"@));
            assert(with_results(once, again, results) =~= once);
        },
        Section::Last { start } => {
            assert(once.subrange(0, start) =~= bytes.subrange(0, start));
            assert(with_results(once, again, results) =~= once);
        },
        Section::Inner { start, next } => {
            let middle = encode_utf8(marker_line() + results + "\n\n"@);
            assert(once.subrange(0, start) =~= bytes.subrange(0, start));
            assert(once.subrange(start + middle.len(), once.len() as int) =~= bytes.subrange(
                next,
                bytes.len() as int,
            ));
            assert(with_results(once, again, results) =~= once);
        },
    }
}

/// Writes the time of day at `secs` seconds since the Unix epoch.
pub fn format_clock(secs: u64) -> (text: String)
    ensures
        text@ == clock_text(secs),
{
    let mut text = String::new();
    push_two_digits(&mut text, (secs / 3600) % 24);
    text.push(':');
    push_two_digits(&mut text, (secs / 60) % 60);
    text.push(':');
    push_two_digits(&mut text, secs % 60);
    proof {
        assert(text@ =~= clock_text(secs));
    }
    text
}

/// Writes the reply block for `page`.
pub fn format_reply(page: &str, time: &str, duration_ms: u64, result: &str) -> (text: String)
    ensures
        text@ == reply_text(page@, time@, duration_ms, result@),
{
    let mut text = String::from_str("\n#### ");
    text.push('👍');
    if !page.is_empty() && page.get_char(0) as u32 >= 0x80 {
        text.push(' ');
    }
    let ghost start = text@;
    text.append(page);
    text.append(" to agent at ");
    text.append(time);
    text.append(" (");
    push_decimal(&mut text, duration_ms);
    text.append("ms)");
    text.append("\n```JSON\n");
    text.append(result);
    text.append("\n```\n\n");
    proof {
        reveal_strlit(" to agent at ");
        reveal_strlit(" (");
        reveal_strlit("ms)");
        assert(" to agent at "@ =~= word_to_agent_at());
        assert(" ("@ =~= word_open());
        assert("ms)"@ =~= word_ms());
        assert(start =~= "\n#### "@ + seq!['👍'] + name_gap(page@));
        assert(text@ =~= reply_text(page@, time@, duration_ms, result@));
    }
    text
}

/// Decides whether the block is the heading of the results section.
fn results_heading_matches(kind: &BlockKind, text: &str) -> (yes: bool)
    ensures
        yes == (is_heading_of(kind@, 2) && text@ == marker_text()),
{
    match kind {
        BlockKind::Heading { depth } => *depth == 2 && str_eq(text, "Test Results"),
        _ => false,
    }
}

/// Decides whether a block of this kind ends a section of rank 2.
fn section_end_matches(kind: &BlockKind) -> (yes: bool)
    ensures
        yes == (match kind@ {
            BlockKindView::Heading { depth } => depth <= 2,
            _ => false,
        }),
{
    match kind {
        BlockKind::Heading { depth } => *depth <= 2,
        _ => false,
    }
}

/// Decides whether block `i` is the heading of the results section.
fn opens_section(document: &LogDocument, i: usize) -> (yes: bool)
    requires
        i < document.blocks().len(),
    ensures
        yes == is_results_heading(document.blocks()[i as int]),
{
    let block = document.at(i);
    results_heading_matches(&block.kind, block.text.as_str())
}

/// Decides whether block `i` ends a section of rank 2.
fn ends_section(document: &LogDocument, i: usize) -> (yes: bool)
    requires
        i < document.blocks().len(),
    ensures
        yes == closes_section(document.blocks()[i as int]),
{
    section_end_matches(&document.at(i).kind)
}

/// The bytes that the results section of a text covers, as offsets.
enum SectionBounds {
    Absent,
    Last { start: usize },
    Inner { start: usize, next: usize },
}

impl View for SectionBounds {
    type V = Section;

    closed spec fn view(&self) -> Section {
        match self {
            SectionBounds::Absent => Section::Absent,
            SectionBounds::Last { start } => Section::Last { start: *start as int },
            SectionBounds::Inner { start, next } => Section::Inner {
                start: *start as int,
                next: *next as int,
            },
        }
    }
}

/// Finds the results section of a document.
fn find_results_section(document: &LogDocument) -> (section: SectionBounds)
    ensures
        section@ == results_section(document.blocks()),
{
    let ghost blocks = document.blocks();
    let n = document.len();
    let mut i: usize = 0;
    while i < n && !opens_section(document, i)
        invariant
            0 <= i <= n,
            n == blocks.len(),
            blocks == document.blocks(),
            forall|k: int| 0 <= k < i ==> !is_results_heading(#[trigger] blocks[k]),
        decreases n - i,
    {
        i += 1;
    }
    if i >= n {
        proof {
            assert forall|k: int| !section_opens_at(blocks, k) by {}
        }
        return SectionBounds::Absent;
    }
    let start = document.at(i).start;
    proof {
        assert(section_opens_at(blocks, i as int));
        let c = choose|k: int| section_opens_at(blocks, k);
        assert(c == i) by {
            if c < i {
                assert(!is_results_heading(blocks[c]));
            } else if i < c {
                assert(!is_results_heading(blocks[i as int]));
            }
        }
    }
    let mut j: usize = i + 1;
    while j < n && !ends_section(document, j)
        invariant
            i < j <= n,
            n == blocks.len(),
            blocks == document.blocks(),
            forall|k: int| i < k < j ==> !closes_section(#[trigger] blocks[k]),
        decreases n - j,
    {
        j += 1;
    }
    if j >= n {
        proof {
            assert forall|k: int| !section_closes_at(blocks, i as int, k) by {}
        }
        return SectionBounds::Last { start };
    }
    let next = document.at(j).start;
    proof {
        assert(section_closes_at(blocks, i as int, j as int));
        let c = choose|k: int| section_closes_at(blocks, i as int, k);
        assert(c == j) by {
            if c < j {
                assert(!closes_section(blocks[c]));
            } else if j < c {
                assert(!closes_section(blocks[j as int]));
            }
        }
    }
    SectionBounds::Inner { start, next }
}

/// Finds the place where the reply for `page_name` goes.
fn find_reply_anchor(document: &LogDocument, page_name: &str) -> (anchor: usize)
    ensures
        anchor == reply_anchor(document.blocks(), page_name@, document.length() as int),
{
    let ghost blocks = document.blocks();
    match document.unanswered_bounds(page_name).0 {
        None => {
            proof {
                assert forall|i: int| !earliest_unanswered(blocks, page_name@, i) by {}
            }
            document.text_len()
        },
        Some(first) => {
            let n = document.len();
            proof {
                let c = choose|i: int| earliest_unanswered(blocks, page_name@, i);
                lemma_earliest_unique(blocks, page_name@, first as int, c);
                assert(first + 1 < n);
            }
            document.at(first + 1).end
        },
    }
}

/// Whether the results section lies at places where a text of `bytes` can
/// be cut.
pub open spec fn section_fits(bytes: Seq<u8>, section: Section) -> bool {
    match section {
        Section::Absent => true,
        Section::Last { start } => can_cut(bytes, start),
        Section::Inner { start, next } => can_cut(bytes, start) && can_cut(bytes, next),
    }
}

/// A document that was read from a text can be cut where its blocks start
/// and end, and at its end.
pub proof fn lemma_document_fits(document: &LogDocument, text: Seq<char>, page: Seq<char>)
    requires
        document.describes(encode_utf8(text)),
    ensures
        can_cut(encode_utf8(text), reply_anchor(document.blocks(), page, document.length() as int)),
        section_fits(encode_utf8(text), results_section(document.blocks())),
{
    let blocks = document.blocks();
    let bytes = encode_utf8(text);
    encode_utf8_valid_utf8(text);
    is_char_boundary_start_end_of_seq(bytes);
    if exists|i: int| earliest_unanswered(blocks, page, i) {
        let i = choose|i: int| earliest_unanswered(blocks, page, i);
        assert(is_char_boundary(bytes, blocks[i + 1].end as int));
    }
    if exists|i: int| section_opens_at(blocks, i) {
        let i = choose|i: int| section_opens_at(blocks, i);
        assert(is_char_boundary(bytes, blocks[i].start as int));
        if exists|j: int| section_closes_at(blocks, i, j) {
            let j = choose|j: int| section_closes_at(blocks, i, j);
            assert(is_char_boundary(bytes, blocks[j].start as int));
        }
    }
}

/// Decides whether the section lies at places where `content` can be cut.
fn section_allowed(content: &str, section: &SectionBounds) -> (yes: bool)
    ensures
        yes == section_fits(content.spec_bytes(), section@),
{
    match section {
        SectionBounds::Absent => true,
        SectionBounds::Last { start } => cut_allowed(content, *start),
        SectionBounds::Inner { start, next } => cut_allowed(content, *start) && cut_allowed(
            content,
            *next,
        ),
    }
}

/// `content` with the results section at `section` replaced by `results`.
fn put_results(content: &str, section: SectionBounds, results: &str) -> (out: String)
    requires
        section_fits(content.spec_bytes(), section@),
    ensures
        encode_utf8(out@) == with_results(content.spec_bytes(), section@, results@),
{
    match section {
        SectionBounds::Absent => {
            let mut out = String::from_str(content);
            out.append("\n");
            out.append("## Test Results\n");
            out.append(results);
            out.append("\n");
            proof {
                lemma_encode_concat(content@, "\n"@ + marker_line() + results@ + "\n"@);
                assert(out@ =~= content@ + ("\n"@ + marker_line() + results@ + "\n"@));
            }
            out
        },
        SectionBounds::Last { start } => {
            let (head, _) = content.split_at(start);
            let mut out = String::from_str(head);
            out.append("## Test Results\n");
            out.append(results);
            out.append("\n");
            proof {
                lemma_encode_concat(head@, marker_line() + results@ + "\n"@);
                assert(out@ =~= head@ + (marker_line() + results@ + "\n"@));
            }
            out
        },
        SectionBounds::Inner { start, next } => {
            let (head, _) = content.split_at(start);
            let (_, tail) = content.split_at(next);
            let mut out = String::from_str(head);
            out.append("## Test Results\n");
            out.append(results);
            out.append("\n\n");
            out.append(tail);
            proof {
                let middle = marker_line() + results@ + "\n\n"@;
                lemma_encode_concat(head@ + middle, tail@);
                lemma_encode_concat(head@, middle);
                assert(out@ =~= head@ + middle + tail@);
            }
            out
        },
    }
}

/// The text of a log after the reply for `page_name` was put in: after the
/// code block of the page's first unanswered request, so that requests
/// added behind it stay behind the reply; at the end of the text where the
/// page has no unanswered request. `None` where the document is not one of
/// this text, so that the text cannot be cut at that place.
pub fn insert_reply(
    document: &LogDocument,
    content: &str,
    page_name: &str,
    result: &str,
    duration_ms: u64,
    now: u64,
) -> (out: Option<String>)
    ensures
        match out {
            Some(text) => {
                &&& can_cut(
                    content.spec_bytes(),
                    reply_anchor(document.blocks(), page_name@, document.length() as int),
                )
                &&& encode_utf8(text@) == spliced(
                    content.spec_bytes(),
                    reply_anchor(document.blocks(), page_name@, document.length() as int),
                    encode_utf8(reply_text(page_name@, clock_text(now), duration_ms, result@)),
                )
            },
            None => !can_cut(
                content.spec_bytes(),
                reply_anchor(document.blocks(), page_name@, document.length() as int),
            ),
        },
{
    let time = format_clock(now);
    let reply = format_reply(page_name, time.as_str(), duration_ms, result);
    let anchor = find_reply_anchor(document, page_name);
    splice(content, anchor, reply.as_str())
}

/// The text of a log after its results section was replaced by `results`:
/// the section runs from its heading to the next heading of rank 1 or 2, or
/// to the end of the text. A log without the section gets one at its end.
/// `None` where the document is not one of this text, so that the text
/// cannot be cut at the section's ends.
pub fn replace_results(document: &LogDocument, content: &str, results: &str) -> (out: Option<String>)
    ensures
        match out {
            Some(text) => {
                &&& section_fits(content.spec_bytes(), results_section(document.blocks()))
                &&& encode_utf8(text@) == with_results(
                    content.spec_bytes(),
                    results_section(document.blocks()),
                    results@,
                )
            },
            None => !section_fits(content.spec_bytes(), results_section(document.blocks())),
        },
{
    let section = find_results_section(document);
    if section_allowed(content, &section) {
        Some(put_results(content, section, results))
    } else {
        None
    }
}

/// The reply goes behind the request whose turn it is: the request that a
/// job is created for is the one that the job's reply is put under.
pub proof fn lemma_reply_follows_first_request(blocks: Seq<BlockView>, page: Seq<char>, length: int)
    requires
        first_request(blocks, page) is Some,
    ensures
        exists|i: int|
            #![trigger earliest_unanswered(blocks, page, i)]
            earliest_unanswered(blocks, page, i) && first_request(blocks, page) == Some(
                request_at(blocks, i),
            ) && reply_anchor(blocks, page, length) == blocks[i + 1].end,
{
    let i = choose|i: int| earliest_unanswered(blocks, page, i);
    assert(earliest_unanswered(blocks, page, i));
}

/// What a read of a page's log gave.
#[derive(Debug, Clone, PartialEq, Eq)]
pub enum LogRead {
    /// The text of the log.
    Text(String),
    /// There is no log yet: the page has an empty log.
    Missing,
    /// The log is there and could not be read.
    Failed,
}

/// The outcome of a read as a mathematical value.
pub enum LogReadView {
    Text(Seq<char>),
    Missing,
    Failed,
}

impl View for LogRead {
    type V = LogReadView;

    open spec fn view(&self) -> LogReadView {
        match self {
            LogRead::Text(text) => LogReadView::Text(text@),
            LogRead::Missing => LogReadView::Missing,
            LogRead::Failed => LogReadView::Failed,
        }
    }
}

/// Why a log was not written.
#[derive(Debug, Clone, PartialEq, Eq)]
pub enum WriteError {
    /// The log could not be read.
    Read,
    /// The log does not parse, so nothing can be placed in it.
    Parse(ParseError),
    /// The new text could not be stored.
    Store,
}

/// The reason of a failed write as a mathematical value.
pub enum WriteFault {
    Read,
    Parse(Rejection),
    Store,
}

impl View for WriteError {
    type V = WriteFault;

    open spec fn view(&self) -> WriteFault {
        match self {
            WriteError::Read => WriteFault::Read,
            WriteError::Parse(error) => WriteFault::Parse(error@),
            WriteError::Store => WriteFault::Store,
        }
    }
}

/// The text that a read gave: the text of the log, the empty text for a log
/// that does not exist yet, and none for a read that failed.
pub open spec fn content_of(read: LogReadView) -> Option<Seq<char>> {
    match read {
        LogReadView::Text(text) => Some(text),
        LogReadView::Missing => Some(Seq::empty()),
        LogReadView::Failed => None,
    }
}

/// The bytes of the log `content` after the reply for `page` was put in, or
/// why the log is no document.
pub open spec fn with_reply(
    content: Seq<char>,
    page: Seq<char>,
    time: Seq<char>,
    duration: u64,
    result: Seq<char>,
) -> Result<Seq<u8>, Rejection> {
    match document_of(content) {
        Ok(blocks) => Ok(
            spliced(
                encode_utf8(content),
                reply_anchor(blocks, page, encode_utf8(content).len() as int),
                encode_utf8(reply_text(page, time, duration, result)),
            ),
        ),
        Err(rejection) => Err(rejection),
    }
}

/// The bytes of the log `content` after its results section was replaced
/// by `results`, or why the log is no document.
pub open spec fn with_new_results(content: Seq<char>, results: Seq<char>) -> Result<Seq<u8>, Rejection> {
    match document_of(content) {
        Ok(blocks) => Ok(with_results(encode_utf8(content), results_section(blocks), results)),
        Err(rejection) => Err(rejection),
    }
}

/// What a writer owes for a read and for what the write of a text that was
/// read would give: the error `Read` where the read failed; else the new
/// text, or the parse error.
pub open spec fn owed(outcome: Result<String, WriteError>, read: LogReadView, written: spec_fn(Seq<char>) -> Result<
    Seq<u8>,
    Rejection,
>) -> bool {
    match content_of(read) {
        None => outcome matches Err(error) && error@ == WriteFault::Read,
        Some(content) => match outcome {
            Ok(out) => written(content) == Ok::<Seq<u8>, Rejection>(encode_utf8(out@)),
            Err(error) => written(content) matches Err(rejection) && error@ == WriteFault::Parse(rejection),
        },
    }
}

/// How often a read or a store is tried before its failure is reported:
/// once, and once more.
pub open spec fn attempts_allowed() -> nat {
    2
}

/// Decides whether a read or a store that has failed `failures` times is
/// tried again: after the first failure it is, after the second the failure
/// is reported.
pub fn should_retry(failures: u32) -> (again: bool)
    ensures
        again == (failures < attempts_allowed()),
{
    failures < 2
}

/// Writes into the logs under one root directory.
pub struct Writer {
    root: String,
}

impl Writer {
    /// The directory under which the pages' logs live.
    pub closed spec fn root(&self) -> Seq<char> {
        self.root@
    }

    /// A writer for the logs under `root`.
    pub fn new(root: &str) -> (writer: Writer)
        ensures
            writer.root() == root@,
    {
        Writer { root: String::from_str(root) }
    }

    /// The path of the log of `page_name`: `<root>/daebug/<page_name>.md`.
    pub fn log_path(&self, page_name: &str) -> (path: String)
        ensures
            path@ == self.root() + "/daebug/"@ + page_name@ + ".md"@,
    {
        let mut path = self.root.clone();
        path.append("/daebug/");
        path.append(page_name);
        path.append(".md");
        path
    }

    /// The text of the log of `page_name` after a reply with `result` was
    /// written at time `now` (seconds since the Unix epoch): `content` with
    /// the reply block put in after the page's first unanswered request, or
    /// at the end where there is none. A log that does not parse is left
    /// alone and the parse error returned.
    pub fn write_reply_at(
        &self,
        content: &str,
        page_name: &str,
        result: &str,
        duration_ms: u64,
        now: u64,
    ) -> (outcome: Result<String, ParseError>)
        ensures
            match outcome {
                Ok(out) => document_of(content@) matches Ok(blocks) && encode_utf8(out@) == spliced(
                    content.spec_bytes(),
                    reply_anchor(blocks, page_name@, content.spec_bytes().len() as int),
                    encode_utf8(reply_text(page_name@, clock_text(now), duration_ms, result@)),
                ),
                Err(error) => document_of(content@) == Err::<Seq<BlockView>, Rejection>(error@),
            },
    {
        match parse_file_ast(content) {
            Err(error) => Err(error),
            Ok(document) => {
                proof {
                    lemma_document_fits(&document, content@, page_name@);
                }
                // A document read from this very text can be cut where its
                // blocks end, so there is a text.
                let out = insert_reply(&document, content, page_name, result, duration_ms, now);
                Ok(out.unwrap())
            },
        }
    }

    /// The text of the log of `page_name` after a reply with `result` was
    /// written, stamped with the system clock's reading.
    pub fn write_reply(&self, content: &str, page_name: &str, result: &str, duration_ms: u64) -> (outcome:
        Result<String, ParseError>)
        ensures
            match outcome {
                Ok(out) => document_of(content@) matches Ok(blocks) && exists|now: u64|
                    encode_utf8(out@) == spliced(
                        content.spec_bytes(),
                        reply_anchor(blocks, page_name@, content.spec_bytes().len() as int),
                        encode_utf8(
                            reply_text(page_name@, #[trigger] clock_text(now), duration_ms, result@),
                        ),
                    ),
                Err(error) => document_of(content@) == Err::<Seq<BlockView>, Rejection>(error@),
            },
    {
        let now = seconds_of(now_millis());
        self.write_reply_at(content, page_name, result, duration_ms, now)
    }

    /// The text of a log after its results section was replaced by
    /// `results`, or added at the end where the log has none. A log that
    /// does not parse is left alone and the parse error returned.
    pub fn update_test_results(&self, content: &str, results: &str) -> (outcome: Result<String, ParseError>)
        ensures
            match outcome {
                Ok(out) => document_of(content@) matches Ok(blocks) && encode_utf8(out@) == with_results(
                    content.spec_bytes(),
                    results_section(blocks),
                    results@,
                ),
                Err(error) => document_of(content@) == Err::<Seq<BlockView>, Rejection>(error@),
            },
    {
        match parse_file_ast(content) {
            Err(error) => Err(error),
            Ok(document) => {
                proof {
                    lemma_document_fits(&document, content@, Seq::empty());
                }
                // A document read from this very text can be cut where its
                // blocks start, so there is a text.
                let out = replace_results(&document, content, results);
                Ok(out.unwrap())
            },
        }
    }

    /// The text of the log of `page_name` after a reply with `result` was
    /// written at time `now` (seconds since the Unix epoch), for what the
    /// read of the log gave. A log that does not exist yet counts as empty;
    /// a read that failed is reported as `WriteError::Read` and no text is
    /// made; a log that does not parse is reported with its parse error.
    pub fn reply_to_read_at(
        &self,
        read: &LogRead,
        page_name: &str,
        result: &str,
        duration_ms: u64,
        now: u64,
    ) -> (outcome: Result<String, WriteError>)
        ensures
            owed(
                outcome,
                read@,
                |content: Seq<char>| with_reply(content, page_name@, clock_text(now), duration_ms, result@),
            ),
    {
        let written = match read {
            LogRead::Failed => {
                return Err(WriteError::Read);
            },
            LogRead::Text(content) => self.write_reply_at(
                content.as_str(),
                page_name,
                result,
                duration_ms,
                now,
            ),
            LogRead::Missing => {
                let content = String::new();
                self.write_reply_at(content.as_str(), page_name, result, duration_ms, now)
            },
        };
        match written {
            Ok(out) => Ok(out),
            Err(error) => Err(WriteError::Parse(error)),
        }
    }

    /// The text of the log of `page_name` after a reply with `result` was
    /// written, for what the read of the log gave, stamped with the system
    /// clock's reading.
    pub fn reply_to_read(&self, read: &LogRead, page_name: &str, result: &str, duration_ms: u64) -> (outcome:
        Result<String, WriteError>)
        ensures
            exists|now: u64|
                owed(
                    outcome,
                    read@,
                    |content: Seq<char>|
                        with_reply(content, page_name@, #[trigger] clock_text(now), duration_ms, result@),
                ),
    {
        let now = seconds_of(now_millis());
        self.reply_to_read_at(read, page_name, result, duration_ms, now)
    }

    /// The text of a log after its results section was replaced by
    /// `results`, for what the read of the log gave. A log that does not
    /// exist yet counts as empty; a read that failed is reported as
    /// `WriteError::Read`; a log that does not parse is reported with its
    /// parse error.
    pub fn results_to_read(&self, read: &LogRead, results: &str) -> (outcome: Result<String, WriteError>)
        ensures
            owed(outcome, read@, |content: Seq<char>| with_new_results(content, results@)),
    {
        let written = match read {
            LogRead::Failed => {
                return Err(WriteError::Read);
            },
            LogRead::Text(content) => self.update_test_results(content.as_str(), results),
            LogRead::Missing => {
                let content = String::new();
                self.update_test_results(content.as_str(), results)
            },
        };
        match written {
            Ok(out) => Ok(out),
            Err(error) => Err(WriteError::Parse(error)),
        }
    }
}

} // verus!
