//! The log parser: from the text of a log to its document, and the request
//! in it that waits for an answer.

use crate::document::BlockView;
use crate::document::document_of;
use crate::document::heading_matches;
use crate::document::is_heading_of;
use crate::document::is_result_block;
use crate::document::is_script_block;
use crate::document::LogDocument;
use crate::document::ParseError;
use crate::document::Rejection;
use crate::document::result_block_matches;
use crate::document::script_block_matches;
use crate::grammar::is_reply_heading;
use crate::grammar::parse_request_heading;
use crate::grammar::reply_heading_matches;
use crate::grammar::request_heading;
use crate::outline::outline_of;
use crate::text::str_eq;
use vstd::prelude::*;
use vstd::string::*;

pub use crate::diff::diff_asts;
pub use crate::diff::AstChange;

verus! {

/// A request for a page to run code, as read from a log.
#[derive(Debug, Clone)]
pub struct Request {
    pub agent: String,
    pub target: String,
    pub time: String,
    pub code: String,
    /// Whether a reply already follows the request.
    pub has_footer: bool,
}

/// A request as a mathematical value.
pub struct RequestView {
    pub agent: Seq<char>,
    pub target: Seq<char>,
    pub time: Seq<char>,
    pub code: Seq<char>,
    pub has_footer: bool,
}

impl View for Request {
    type V = RequestView;

    open spec fn view(&self) -> RequestView {
        RequestView {
            agent: self.agent@,
            target: self.target@,
            time: self.time@,
            code: self.code@,
            has_footer: self.has_footer,
        }
    }
}

/// Whether block `i` is a request heading: a heading of rank 3 whose text
/// follows the request grammar.
pub open spec fn is_request_heading_at(blocks: Seq<BlockView>, i: int) -> bool {
    &&& 0 <= i < blocks.len()
    &&& is_heading_of(blocks[i].kind, 3)
    &&& request_heading(blocks[i].text) is Some
}

/// Whether a request block starts at block `i`: a request heading and,
/// right after it, a block of code to run.
pub open spec fn is_request_at(blocks: Seq<BlockView>, i: int) -> bool {
    &&& is_request_heading_at(blocks, i)
    &&& i + 1 < blocks.len()
    &&& is_script_block(blocks[i + 1].kind)
}

/// Whether a reply block starts at block `i`: a heading of rank 4 whose text
/// follows the reply grammar and, right after it, a block that holds a
/// result.
pub open spec fn is_reply_at(blocks: Seq<BlockView>, i: int) -> bool {
    &&& 0 <= i
    &&& i + 1 < blocks.len()
    &&& is_heading_of(blocks[i].kind, 4)
    &&& is_reply_heading(blocks[i].text)
    &&& is_result_block(blocks[i + 1].kind)
}

/// Whether, reading on from block `from`, a reply block comes before the
/// next request heading.
pub open spec fn reply_follows(blocks: Seq<BlockView>, from: int) -> bool
    decreases blocks.len() - from,
{
    if from < 0 || from >= blocks.len() {
        false
    } else if is_reply_at(blocks, from) {
        true
    } else if is_request_heading_at(blocks, from) {
        false
    } else {
        reply_follows(blocks, from + 1)
    }
}

/// Whether the request at block `i` is answered: a reply block follows it
/// before the next request heading.
pub open spec fn has_footer(blocks: Seq<BlockView>, i: int) -> bool {
    reply_follows(blocks, i + 1)
}

/// The request whose heading is block `i`.
pub open spec fn request_at(blocks: Seq<BlockView>, i: int) -> RequestView {
    let heading = request_heading(blocks[i].text).unwrap();
    RequestView {
        agent: heading.agent,
        target: heading.target,
        time: heading.time,
        code: blocks[i + 1].text,
        has_footer: has_footer(blocks, i),
    }
}

/// Whether a request for `page` starts at block `i` and is not answered.
pub open spec fn is_unanswered(blocks: Seq<BlockView>, page: Seq<char>, i: int) -> bool {
    &&& is_request_at(blocks, i)
    &&& request_at(blocks, i).target == page
    &&& !has_footer(blocks, i)
}

/// Whether the request at block `i` is the last unanswered request for
/// `page` in the document.
pub open spec fn latest_unanswered(blocks: Seq<BlockView>, page: Seq<char>, i: int) -> bool {
    &&& is_unanswered(blocks, page, i)
    &&& forall|j: int| i < j < blocks.len() ==> !is_unanswered(blocks, page, j)
}

/// Whether the request at block `i` is the first unanswered request for
/// `page` in the document.
pub open spec fn earliest_unanswered(blocks: Seq<BlockView>, page: Seq<char>, i: int) -> bool {
    &&& is_unanswered(blocks, page, i)
    &&& forall|j: int| 0 <= j < i ==> !is_unanswered(blocks, page, j)
}

/// Whether `page` has no unanswered request in the document.
pub open spec fn none_unanswered(blocks: Seq<BlockView>, page: Seq<char>) -> bool {
    forall|j: int| 0 <= j < blocks.len() ==> !is_unanswered(blocks, page, j)
}

impl LogDocument {
    /// Decides whether block `i` exists and holds code to run.
    fn script_at(&self, i: usize) -> (yes: bool)
        ensures
            yes == (i < self.blocks().len() && is_script_block(self.blocks()[i as int].kind)),
    {
        match self.block(i) {
            Some(block) => script_block_matches(&block.kind),
            None => false,
        }
    }

    /// Decides whether block `i` exists and holds a result.
    fn result_at(&self, i: usize) -> (yes: bool)
        ensures
            yes == (i < self.blocks().len() && is_result_block(self.blocks()[i as int].kind)),
    {
        match self.block(i) {
            Some(block) => result_block_matches(&block.kind),
            None => false,
        }
    }

    /// The first and the last unanswered request for `page`, by the place of
    /// their headings.
    pub fn unanswered_bounds(&self, page: &str) -> (bounds: (Option<usize>, Option<usize>))
        ensures
            match bounds.0 {
                Some(first) => earliest_unanswered(self.blocks(), page@, first as int),
                None => none_unanswered(self.blocks(), page@),
            },
            match bounds.1 {
                Some(last) => latest_unanswered(self.blocks(), page@, last as int),
                None => none_unanswered(self.blocks(), page@),
            },
    {
        let ghost blocks = self.blocks();
        let n = self.len();
        let mut first: Option<usize> = None;
        let mut last: Option<usize> = None;
        let mut footer: bool = false;
        let mut i: usize = n;
        while i > 0
            invariant
                0 <= i <= n,
                n == self.blocks().len(),
                blocks == self.blocks(),
                footer == reply_follows(blocks, i as int),
                match first {
                    Some(f) => i <= f < n && is_unanswered(blocks, page@, f as int) && forall|j: int|
                        i <= j < f ==> !is_unanswered(blocks, page@, j),
                    None => forall|j: int| i <= j < n ==> !is_unanswered(blocks, page@, j),
                },
                match last {
                    Some(l) => i <= l < n && latest_unanswered(blocks, page@, l as int),
                    None => forall|j: int| i <= j < n ==> !is_unanswered(blocks, page@, j),
                },
            decreases i,
        {
            let k = i - 1;
            let block = self.at(k);
            if heading_matches(&block.kind, 4) {
                if self.result_at(k + 1) && reply_heading_matches(block.text.as_str()) {
                    footer = true;
                }
            } else if heading_matches(&block.kind, 3) {
                match parse_request_heading(block.text.as_str()) {
                    Some(heading) => {
                        if !footer && str_eq(heading.target.as_str(), page) && self.script_at(k + 1) {
                            first = Some(k);
                            if last.is_none() {
                                last = Some(k);
                            }
                        }
                        footer = false;
                    },
                    None => {},
                }
            }
            i = k;
        }
        (first, last)
    }

    /// The request whose heading is block `i`.
    pub fn request(&self, i: usize) -> (request: Option<Request>)
        ensures
            match request {
                Some(r) => is_request_at(self.blocks(), i as int) && r@ == request_at(
                    self.blocks(),
                    i as int,
                ),
                None => !is_request_at(self.blocks(), i as int),
            },
    {
        let n = self.len();
        if i >= n || n - i < 2 {
            return None;
        }
        let block = self.at(i);
        let next = self.at(i + 1);
        if !heading_matches(&block.kind, 3) || !script_block_matches(&next.kind) {
            return None;
        }
        match parse_request_heading(block.text.as_str()) {
            None => None,
            Some(heading) => Some(
                Request {
                    agent: heading.agent,
                    target: heading.target,
                    time: heading.time,
                    code: next.text.clone(),
                    has_footer: self.reply_after(i + 1),
                },
            ),
        }
    }

    /// Decides whether, reading on from block `from`, a reply block comes
    /// before the next request heading.
    fn reply_after(&self, from: usize) -> (yes: bool)
        ensures
            yes == reply_follows(self.blocks(), from as int),
    {
        let ghost blocks = self.blocks();
        let n = self.len();
        let mut i: usize = from;
        while i < n
            invariant
                from <= i,
                n == self.blocks().len(),
                blocks == self.blocks(),
                reply_follows(blocks, from as int) == reply_follows(blocks, i as int),
            decreases n - i,
        {
            let block = self.at(i);
            if heading_matches(&block.kind, 4) {
                if self.result_at(i + 1) && reply_heading_matches(block.text.as_str()) {
                    return true;
                }
            } else if heading_matches(&block.kind, 3) {
                if parse_request_heading(block.text.as_str()).is_some() {
                    return false;
                }
            }
            i += 1;
        }
        false
    }
}

/// Parses the whole text of a log. A text that the markdown parser rejects,
/// and a text with a malformed block, yield an error and no document.
pub fn parse_file_ast(content: &str) -> (outcome: Result<LogDocument, ParseError>)
    ensures
        match outcome {
            Ok(document) => {
                &&& document_of(content@) == Ok::<Seq<BlockView>, Rejection>(document.blocks())
                &&& document.describes(content.spec_bytes())
            },
            Err(error) => document_of(content@) == Err::<Seq<BlockView>, Rejection>(error@),
        },
{
    match outline_of(content) {
        Err(reason) => Err(ParseError::Syntax { reason }),
        Ok(raw) => LogDocument::from_outline(&raw, content),
    }
}

/// The request that waits for an answer in a document with these blocks:
/// the last request block that targets `page` and has no reply after it.
pub open spec fn pending_request(blocks: Seq<BlockView>, page: Seq<char>) -> Option<RequestView> {
    if exists|i: int| latest_unanswered(blocks, page, i) {
        Some(request_at(blocks, choose|i: int| latest_unanswered(blocks, page, i)))
    } else {
        None
    }
}

/// The request of `page` whose turn it is: the first request block of the
/// document that targets the page and has no reply after it.
pub open spec fn first_request(blocks: Seq<BlockView>, page: Seq<char>) -> Option<RequestView> {
    if exists|i: int| earliest_unanswered(blocks, page, i) {
        Some(request_at(blocks, choose|i: int| earliest_unanswered(blocks, page, i)))
    } else {
        None
    }
}

/// A request as a mathematical value, if there is one.
pub open spec fn request_view(request: Option<Request>) -> Option<RequestView> {
    match request {
        Some(request) => Some(request@),
        None => None,
    }
}

/// The last unanswered request is one block, not several.
pub proof fn lemma_latest_unique(blocks: Seq<BlockView>, page: Seq<char>, i: int, j: int)
    requires
        latest_unanswered(blocks, page, i),
        latest_unanswered(blocks, page, j),
    ensures
        i == j,
{
}

/// The first unanswered request is one block, not several.
pub proof fn lemma_earliest_unique(blocks: Seq<BlockView>, page: Seq<char>, i: int, j: int)
    requires
        earliest_unanswered(blocks, page, i),
        earliest_unanswered(blocks, page, j),
    ensures
        i == j,
{
    if i < j {
        assert(!is_unanswered(blocks, page, i));
    } else if j < i {
        assert(!is_unanswered(blocks, page, j));
    }
}

/// The request of `page_name` whose turn it is: the first request block of
/// the document that targets the page and has no reply after it.
pub fn find_first_request(document: &LogDocument, page_name: &str) -> (found: Option<Request>)
    ensures
        request_view(found) == first_request(document.blocks(), page_name@),
        found matches Some(request) ==> request@.target == page_name@ && !request@.has_footer,
{
    let ghost blocks = document.blocks();
    match document.unanswered_bounds(page_name).0 {
        None => {
            proof {
                assert forall|i: int| !earliest_unanswered(blocks, page_name@, i) by {
                    if earliest_unanswered(blocks, page_name@, i) {
                        assert(is_unanswered(blocks, page_name@, i));
                    }
                }
            }
            None
        },
        Some(first) => {
            proof {
                let c = choose|i: int| earliest_unanswered(blocks, page_name@, i);
                lemma_earliest_unique(blocks, page_name@, first as int, c);
            }
            document.request(first)
        },
    }
}

/// The request for `page_name` that waits for an answer: the last request
/// block of the document that targets the page and has no reply after it.
pub fn find_request_in_ast(document: &LogDocument, page_name: &str) -> (found: Option<Request>)
    ensures
        request_view(found) == pending_request(document.blocks(), page_name@),
{
    let ghost blocks = document.blocks();
    match document.unanswered_bounds(page_name).1 {
        None => {
            proof {
                assert forall|i: int| !latest_unanswered(blocks, page_name@, i) by {
                    if latest_unanswered(blocks, page_name@, i) {
                        assert(is_unanswered(blocks, page_name@, i));
                    }
                }
            }
            None
        },
        Some(last) => {
            proof {
                let c = choose|i: int| latest_unanswered(blocks, page_name@, i);
                lemma_latest_unique(blocks, page_name@, last as int, c);
            }
            document.request(last)
        },
    }
}

/// Reads the request for `page_name` that waits for an answer from the text
/// of a log: the last request block that targets the page and has no reply
/// after it. A text that is no log document holds no request.
pub fn parse_request(text: &str, page_name: &str) -> (found: Option<Request>)
    ensures
        request_view(found) == match document_of(text@) {
            Ok(blocks) => pending_request(blocks, page_name@),
            Err(_) => None,
        },
{
    match parse_file_ast(text) {
        Err(_) => None,
        Ok(document) => find_request_in_ast(&document, page_name),
    }
}

} // verus!
