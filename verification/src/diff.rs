//! The difference between two documents, block by block, and what it means
//! for dispatch.

use crate::document::Block;
use crate::document::BlockView;
use crate::document::code_matches;
use crate::document::LogDocument;
use crate::outline::BlockKind;
use crate::parser::Request;
use crate::parser::find_first_request;
use crate::parser::first_request;
use crate::parser::request_view;
use crate::parser::RequestView;
use crate::text::str_eq;
use vstd::prelude::*;
use vstd::string::*;

verus! {

/// A kind of difference between two documents.
#[derive(Debug, Clone, Copy, PartialEq, Eq, Structural)]
pub enum AstChange {
    /// The new document has more blocks than the old one.
    ChildrenAdded,
    /// A heading was replaced by a different heading.
    HeadingChanged,
    /// The part that changed holds more code blocks than it did.
    CodeBlockAdded,
    /// A block was replaced by a different block, other than a heading by a
    /// heading; or blocks were taken away.
    ContentChanged,
}

/// Whether two blocks are the same but for their place in the text.
pub open spec fn same_block(a: BlockView, b: BlockView) -> bool {
    a.kind == b.kind && a.text == b.text
}

/// How many blocks, counted from block `i` on, the two documents have in
/// common at the same places.
pub open spec fn prefix_from(a: Seq<BlockView>, b: Seq<BlockView>, i: int) -> nat
    decreases a.len() - i,
{
    if 0 <= i < a.len() && i < b.len() && same_block(a[i], b[i]) {
        1 + prefix_from(a, b, i + 1)
    } else {
        0
    }
}

/// How many blocks the two documents have in common at their start.
pub open spec fn common_prefix(a: Seq<BlockView>, b: Seq<BlockView>) -> nat {
    prefix_from(a, b, 0)
}

/// How many blocks, counted back from the `k`-th last, the two documents
/// have in common at their end, outside their first `p` blocks.
pub open spec fn suffix_from(a: Seq<BlockView>, b: Seq<BlockView>, p: int, k: int) -> nat
    decreases a.len() - p - k,
{
    if 0 <= k && p + k < a.len() && p + k < b.len() && same_block(
        a[a.len() - 1 - k],
        b[b.len() - 1 - k],
    ) {
        1 + suffix_from(a, b, p, k + 1)
    } else {
        0
    }
}

/// How many blocks the two documents have in common at their end, outside
/// their common start.
pub open spec fn common_suffix(a: Seq<BlockView>, b: Seq<BlockView>) -> nat {
    suffix_from(a, b, common_prefix(a, b) as int, 0)
}

/// How many of the blocks `from` to `to` are code blocks.
pub open spec fn code_count(blocks: Seq<BlockView>, from: int, to: int) -> nat
    decreases to - from,
{
    if 0 <= from < to <= blocks.len() {
        code_count(blocks, from, to - 1) + if blocks[to - 1].kind is Code {
            1nat
        } else {
            0nat
        }
    } else {
        0
    }
}

/// Whether both blocks are headings.
pub open spec fn both_headings(a: BlockView, b: BlockView) -> bool {
    a.kind is Heading && b.kind is Heading
}

/// The two documents side by side: what they share at the start and at the
/// end, and the part in between that changed.
pub struct Comparison {
    pub old: Seq<BlockView>,
    pub new: Seq<BlockView>,
}

impl Comparison {
    /// Where the changed part starts, in both documents.
    pub open spec fn start(self) -> int {
        common_prefix(self.old, self.new) as int
    }

    /// Where the changed part ends in the old document.
    pub open spec fn old_end(self) -> int {
        self.old.len() - common_suffix(self.old, self.new)
    }

    /// Where the changed part ends in the new document.
    pub open spec fn new_end(self) -> int {
        self.new.len() - common_suffix(self.old, self.new)
    }

    /// How many blocks of the changed part have a counterpart at the same
    /// place in the other document.
    pub open spec fn paired(self) -> int {
        if self.old_end() <= self.new_end() {
            self.old_end() - self.start()
        } else {
            self.new_end() - self.start()
        }
    }

    /// Whether the new document has more blocks.
    pub open spec fn children_added(self) -> bool {
        self.new.len() > self.old.len()
    }

    /// Whether the changed part replaces a heading by a different heading.
    pub open spec fn heading_changed(self) -> bool {
        exists|i: int|
            self.start() <= i < self.start() + self.paired() && both_headings(
                #[trigger] self.old[i],
                self.new[i],
            ) && !same_block(self.old[i], self.new[i])
    }

    /// Whether the changed part holds more code blocks in the new document.
    pub open spec fn code_block_added(self) -> bool {
        code_count(self.new, self.start(), self.new_end()) > code_count(
            self.old,
            self.start(),
            self.old_end(),
        )
    }

    /// Whether the changed part replaces a block by a different one, other
    /// than a heading by a heading, or is shorter in the new document.
    pub open spec fn content_changed(self) -> bool {
        ||| self.new.len() < self.old.len()
        ||| exists|i: int|
            self.start() <= i < self.start() + self.paired() && !both_headings(
                #[trigger] self.old[i],
                self.new[i],
            ) && !same_block(self.old[i], self.new[i])
    }

    /// The kinds of change, each at most once, in a fixed order.
    pub open spec fn changes(self) -> Seq<AstChange> {
        (if self.children_added() {
            seq![AstChange::ChildrenAdded]
        } else {
            seq![]
        }) + (if self.heading_changed() {
            seq![AstChange::HeadingChanged]
        } else {
            seq![]
        }) + (if self.code_block_added() {
            seq![AstChange::CodeBlockAdded]
        } else {
            seq![]
        }) + (if self.content_changed() {
            seq![AstChange::ContentChanged]
        } else {
            seq![]
        })
    }
}

/// Decides whether two optional tags are the same text.
fn same_tag(a: &Option<String>, b: &Option<String>) -> (same: bool)
    ensures
        same == (match (a, b) {
            (Some(x), Some(y)) => x@ == y@,
            (None, None) => true,
            _ => false,
        }),
{
    match (a, b) {
        (Some(x), Some(y)) => str_eq(x.as_str(), y.as_str()),
        (None, None) => true,
        _ => false,
    }
}

/// Decides whether two blocks are the same but for their place in the text.
fn blocks_match(a: &Block, b: &Block) -> (same: bool)
    ensures
        same == same_block(a@, b@),
{
    let kinds = match (&a.kind, &b.kind) {
        (BlockKind::Heading { depth: x }, BlockKind::Heading { depth: y }) => *x == *y,
        (BlockKind::Code { lang: x }, BlockKind::Code { lang: y }) => same_tag(x, y),
        (BlockKind::Other, BlockKind::Other) => true,
        _ => false,
    };
    kinds && str_eq(a.text.as_str(), b.text.as_str())
}

/// Decides whether a block is a heading.
fn is_heading(block: &Block) -> (yes: bool)
    ensures
        yes == (block@.kind is Heading),
{
    match block.kind {
        BlockKind::Heading { .. } => true,
        _ => false,
    }
}

impl LogDocument {
    /// How many of the blocks `from` to `to` are code blocks.
    fn count_code(&self, from: usize, to: usize) -> (count: usize)
        requires
            from <= to <= self.blocks().len(),
        ensures
            count == code_count(self.blocks(), from as int, to as int),
            count <= to - from,
    {
        let ghost blocks = self.blocks();
        let mut count: usize = 0;
        let mut i: usize = from;
        while i < to
            invariant
                from <= i <= to <= self.blocks().len(),
                blocks == self.blocks(),
                count == code_count(blocks, from as int, i as int),
                count <= i - from,
            decreases to - i,
        {
            let block = self.at(i);
            assert(blocks[i as int] == block@);
            if code_matches(&block.kind) {
                count += 1;
            }
            i += 1;
        }
        count
    }
}

/// The place where the changed part of two documents starts, and how many
/// blocks after it they share at their end.
fn common_ends(old: &LogDocument, new: &LogDocument) -> (ends: (usize, usize))
    ensures
        ends.0 == common_prefix(old.blocks(), new.blocks()),
        ends.1 == common_suffix(old.blocks(), new.blocks()),
        ends.0 + ends.1 <= old.blocks().len(),
        ends.0 + ends.1 <= new.blocks().len(),
{
    let ghost a = old.blocks();
    let ghost b = new.blocks();
    let n = old.len();
    let m = new.len();
    let mut p: usize = 0;
    while p < n && p < m && blocks_match(old.at(p), new.at(p))
        invariant
            0 <= p <= n,
            p <= m,
            n == old.blocks().len(),
            m == new.blocks().len(),
            a == old.blocks(),
            b == new.blocks(),
            prefix_from(a, b, 0) == p + prefix_from(a, b, p as int),
        decreases n - p,
    {
        assert(a[p as int] == old.blocks()[p as int]);
        assert(b[p as int] == new.blocks()[p as int]);
        p += 1;
    }
    proof {
        if p < n && p < m {
            assert(a[p as int] == old.blocks()[p as int]);
            assert(b[p as int] == new.blocks()[p as int]);
        }
    }
    let mut k: usize = 0;
    while p + k < n && p + k < m && blocks_match(old.at(n - 1 - k), new.at(m - 1 - k))
        invariant
            0 <= k,
            p + k <= n,
            p + k <= m,
            n == old.blocks().len(),
            m == new.blocks().len(),
            a == old.blocks(),
            b == new.blocks(),
            suffix_from(a, b, p as int, 0) == k + suffix_from(a, b, p as int, k as int),
        decreases n - p - k,
    {
        assert(a[n - 1 - k] == old.blocks()[n - 1 - k]);
        assert(b[m - 1 - k] == new.blocks()[m - 1 - k]);
        k += 1;
    }
    proof {
        if p + k < n && p + k < m {
            assert(a[n - 1 - k] == old.blocks()[n - 1 - k]);
            assert(b[m - 1 - k] == new.blocks()[m - 1 - k]);
        }
    }
    (p, k)
}

/// Compares two documents block by block, leaving aside what they share at
/// their start and at their end, and names the kinds of change in the part
/// between. Blocks are compared by kind and text, not by their place.
pub fn diff_asts(old: &LogDocument, new: &LogDocument) -> (changes: Vec<AstChange>)
    ensures
        changes@ == (Comparison { old: old.blocks(), new: new.blocks() }).changes(),
{
    let ghost a = old.blocks();
    let ghost b = new.blocks();
    let ghost both = Comparison { old: a, new: b };
    let n = old.len();
    let m = new.len();
    let (p, s) = common_ends(old, new);
    let old_end = n - s;
    let new_end = m - s;
    let paired = if old_end <= new_end {
        old_end - p
    } else {
        new_end - p
    };
    let mut heading_changed = false;
    let mut content_changed = m < n;
    let mut i: usize = p;
    while i < p + paired
        invariant
            p <= i <= p + paired,
            p + paired <= n,
            p + paired <= m,
            n == old.blocks().len(),
            m == new.blocks().len(),
            a == old.blocks(),
            b == new.blocks(),
            heading_changed == exists|j: int|
                p <= j < i && both_headings(#[trigger] a[j], b[j]) && !same_block(a[j], b[j]),
            content_changed == (m < n || exists|j: int|
                p <= j < i && !both_headings(#[trigger] a[j], b[j]) && !same_block(a[j], b[j])),
        decreases p + paired - i,
    {
        let x = old.at(i);
        let y = new.at(i);
        assert(a[i as int] == x@);
        assert(b[i as int] == y@);
        if !blocks_match(x, y) {
            if is_heading(x) && is_heading(y) {
                heading_changed = true;
            } else {
                content_changed = true;
            }
        }
        i += 1;
    }
    let code_added = new.count_code(p, new_end) > old.count_code(p, old_end);
    let mut changes: Vec<AstChange> = Vec::new();
    if m > n {
        changes.push(AstChange::ChildrenAdded);
    }
    if heading_changed {
        changes.push(AstChange::HeadingChanged);
    }
    if code_added {
        changes.push(AstChange::CodeBlockAdded);
    }
    if content_changed {
        changes.push(AstChange::ContentChanged);
    }
    proof {
        assert(both.start() == p);
        assert(both.paired() == paired);
        assert(both.heading_changed() == heading_changed);
        assert(both.content_changed() == content_changed);
        assert(both.code_block_added() == code_added);
        assert(changes@ =~= both.changes());
    }
    changes
}

impl Comparison {
    /// The request to dispatch for `page` after the old document gave way to
    /// the new one: the request whose turn it is in the new document, where
    /// blocks or code were added and that request is not the one whose turn
    /// it was before. A page's requests are so dispatched one by one, in the
    /// order of the log: the next one when the one before it got its reply.
    pub open spec fn request_to_dispatch(self, page: Seq<char>) -> Option<RequestView> {
        if (self.children_added() || self.code_block_added()) && first_request(self.new, page)
            != first_request(self.old, page) {
            first_request(self.new, page)
        } else {
            None
        }
    }
}

/// A kind of change is listed exactly when it holds of the two documents.
pub proof fn lemma_changes_listed(both: Comparison)
    ensures
        both.changes().contains(AstChange::ChildrenAdded) == both.children_added(),
        both.changes().contains(AstChange::HeadingChanged) == both.heading_changed(),
        both.changes().contains(AstChange::CodeBlockAdded) == both.code_block_added(),
        both.changes().contains(AstChange::ContentChanged) == both.content_changed(),
{
    let one = if both.children_added() {
        seq![AstChange::ChildrenAdded]
    } else {
        seq![]
    };
    let two = if both.heading_changed() {
        seq![AstChange::HeadingChanged]
    } else {
        seq![]
    };
    let three = if both.code_block_added() {
        seq![AstChange::CodeBlockAdded]
    } else {
        seq![]
    };
    let four = if both.content_changed() {
        seq![AstChange::ContentChanged]
    } else {
        seq![]
    };
    let all = both.changes();
    assert(all == one + two + three + four);
    assert forall|change: AstChange| #[trigger] all.contains(change) implies one.contains(change)
        || two.contains(change) || three.contains(change) || four.contains(change) by {
        let i = choose|i: int| 0 <= i < all.len() && all[i] == change;
        if i < one.len() {
            assert(one[i] == change);
        } else if i < one.len() + two.len() {
            assert(two[i - one.len()] == change);
        } else if i < one.len() + two.len() + three.len() {
            assert(three[i - one.len() - two.len()] == change);
        } else {
            assert(four[i - one.len() - two.len() - three.len()] == change);
        }
    }
    if both.children_added() {
        assert(all[0] == AstChange::ChildrenAdded);
    }
    if both.heading_changed() {
        assert(all[one.len() as int] == AstChange::HeadingChanged);
    }
    if both.code_block_added() {
        assert(all[(one.len() + two.len()) as int] == AstChange::CodeBlockAdded);
    }
    if both.content_changed() {
        assert(all[(one.len() + two.len() + three.len()) as int] == AstChange::ContentChanged);
    }
}

/// A document does not differ from itself, nor from a document with the
/// same blocks at other places of the text.
pub proof fn lemma_no_change(old: Seq<BlockView>, new: Seq<BlockView>)
    requires
        old.len() == new.len(),
        forall|i: int| 0 <= i < old.len() ==> same_block(#[trigger] old[i], new[i]),
    ensures
        (Comparison { old: old, new: new }).changes() == Seq::<AstChange>::empty(),
{
    let both = Comparison { old: old, new: new };
    lemma_prefix_whole(old, new, 0);
    assert(both.start() == old.len());
    assert(suffix_from(old, new, old.len() as int, 0) == 0);
    assert(both.paired() == 0);
    assert(code_count(new, both.start(), both.new_end()) == 0);
    assert(code_count(old, both.start(), both.old_end()) == 0);
    assert(both.changes() =~= Seq::<AstChange>::empty());
}

/// An edit that leaves the blocks as they are dispatches nothing, for any
/// page.
pub proof fn lemma_no_change_no_dispatch(old: Seq<BlockView>, new: Seq<BlockView>, page: Seq<char>)
    requires
        old.len() == new.len(),
        forall|i: int| 0 <= i < old.len() ==> same_block(#[trigger] old[i], new[i]),
    ensures
        (Comparison { old: old, new: new }).request_to_dispatch(page) is None,
{
    let both = Comparison { old: old, new: new };
    lemma_no_change(old, new);
    lemma_changes_listed(both);
    assert(!both.changes().contains(AstChange::ChildrenAdded));
    assert(!both.changes().contains(AstChange::CodeBlockAdded));
}

/// Two documents with the same blocks share all of them from any place on.
proof fn lemma_prefix_whole(a: Seq<BlockView>, b: Seq<BlockView>, i: int)
    requires
        a.len() == b.len(),
        0 <= i <= a.len(),
        forall|k: int| 0 <= k < a.len() ==> same_block(#[trigger] a[k], b[k]),
    ensures
        prefix_from(a, b, i) == a.len() - i,
    decreases a.len() - i,
{
    if i < a.len() {
        lemma_prefix_whole(a, b, i + 1);
    }
}

/// Decides whether `change` is among `changes`.
pub fn has_change(changes: &Vec<AstChange>, change: AstChange) -> (yes: bool)
    ensures
        yes == changes@.contains(change),
{
    let mut i: usize = 0;
    while i < changes.len()
        invariant
            0 <= i <= changes@.len(),
            forall|k: int| 0 <= k < i ==> changes@[k] != change,
        decreases changes@.len() - i,
    {
        if changes[i] == change {
            return true;
        }
        i += 1;
    }
    false
}

/// Decides whether two requests are the same in every part.
fn requests_match(a: &Request, b: &Request) -> (same: bool)
    ensures
        same == (a@ == b@),
{
    str_eq(a.agent.as_str(), b.agent.as_str()) && str_eq(a.target.as_str(), b.target.as_str())
        && str_eq(a.time.as_str(), b.time.as_str()) && str_eq(a.code.as_str(), b.code.as_str())
        && a.has_footer == b.has_footer
}

/// The request to dispatch after a page's log changed from `old` to `new`:
/// the request whose turn it is in the new document, if blocks or code were
/// added and it is another request than the one whose turn it was. An edit
/// that adds nothing dispatches nothing, and so does an addition while the
/// page's current request still waits for its reply.
pub fn new_request(old: &LogDocument, new: &LogDocument, page_name: &str) -> (found: Option<Request>)
    ensures
        request_view(found) == (Comparison { old: old.blocks(), new: new.blocks() }).request_to_dispatch(
            page_name@,
        ),
{
    let ghost both = Comparison { old: old.blocks(), new: new.blocks() };
    let changes = diff_asts(old, new);
    proof {
        lemma_changes_listed(both);
    }
    if !has_change(&changes, AstChange::ChildrenAdded) && !has_change(
        &changes,
        AstChange::CodeBlockAdded,
    ) {
        return None;
    }
    let now = find_first_request(new, page_name);
    let before = find_first_request(old, page_name);
    match (now, before) {
        (None, _) => None,
        (Some(request), None) => Some(request),
        (Some(request), Some(earlier)) => {
            if requests_match(&request, &earlier) {
                None
            } else {
                Some(request)
            }
        },
    }
}

} // verus!
