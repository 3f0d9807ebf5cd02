//! The document model: the top-level blocks of a page's log, and the checks
//! that make a document of what the markdown parser found.

use crate::fence::fence_closed;
use crate::fence::fence_closes;
use crate::fence::fence_opens;
use crate::fence::opens_fence;
use crate::grammar::emoji_leads;
use crate::grammar::is_reply_heading;
use crate::grammar::is_result_tag;
use crate::grammar::is_script_tag;
use crate::grammar::leads_with_emoji;
use crate::grammar::parse_request_heading;
use crate::grammar::reply_heading_matches;
use crate::grammar::request_heading;
use crate::grammar::result_tag_matches;
use crate::grammar::script_tag_matches;
use crate::outline::BlockKind;
use crate::outline::BlockKindView;
use crate::outline::markdown_outline;
use crate::outline::raw_view;
use crate::outline::RawBlock;
use crate::outline::RawBlockView;
use vstd::prelude::*;
use vstd::string::*;
use vstd::utf8::*;

verus! {

/// What is wrong with a block of a malformed document.
#[derive(Debug, Clone, Copy, PartialEq, Eq, Structural)]
pub enum Fault {
    /// The block has no place in the text: its offsets are missing, fall
    /// outside the text or inside a character, or run into the block before.
    Span,
    /// The block opens a code fence that is never closed.
    Fence,
    /// The heading opens with an emoji and stands where a request or a
    /// reply heading belongs, and is neither.
    Heading,
}

/// Why a text is not a log document.
#[derive(Debug, Clone, PartialEq, Eq)]
pub enum ParseError {
    /// The markdown parser rejected the text.
    Syntax { reason: String },
    /// The block at `block` is malformed; the blocks before it are not.
    Malformed { block: usize, fault: Fault },
}

/// Why a text is not a log document, as a mathematical value: what the
/// markdown parser said in its own words is left out.
pub enum Rejection {
    Syntax,
    Malformed { block: int, fault: Fault },
}

impl View for ParseError {
    type V = Rejection;

    open spec fn view(&self) -> Rejection {
        match self {
            ParseError::Syntax { .. } => Rejection::Syntax,
            ParseError::Malformed { block, fault } => Rejection::Malformed {
                block: *block as int,
                fault: *fault,
            },
        }
    }
}

/// A top-level block of a document: its kind, its text content, and the
/// bytes of the source that it covers, `start` to `end`.
#[derive(Debug, Clone)]
pub struct Block {
    pub kind: BlockKind,
    pub text: String,
    pub start: usize,
    pub end: usize,
}

/// A block as a mathematical value.
pub struct BlockView {
    pub kind: BlockKindView,
    pub text: Seq<char>,
    pub start: usize,
    pub end: usize,
}

impl View for Block {
    type V = BlockView;

    open spec fn view(&self) -> BlockView {
        BlockView { kind: self.kind@, text: self.text@, start: self.start, end: self.end }
    }
}

/// The blocks of a list as mathematical values.
pub open spec fn blocks_view(blocks: Seq<Block>) -> Seq<BlockView> {
    Seq::new(blocks.len(), |i: int| blocks[i]@)
}

/// Whether a block of this kind holds code to run.
pub open spec fn is_script_block(kind: BlockKindView) -> bool {
    match kind {
        BlockKindView::Code { lang: Some(tag) } => is_script_tag(tag),
        _ => false,
    }
}

/// Whether a block of this kind holds a result.
pub open spec fn is_result_block(kind: BlockKindView) -> bool {
    match kind {
        BlockKindView::Code { lang: Some(tag) } => is_result_tag(tag),
        _ => false,
    }
}

/// Whether the block is a heading of rank `depth`.
pub open spec fn is_heading_of(kind: BlockKindView, depth: u8) -> bool {
    kind == (BlockKindView::Heading { depth: depth })
}

/// Whether the text fits the place of a parsed block: inside a text of
/// `bytes`, on character boundaries, and not before `floor`, the end of the
/// block before it.
pub open spec fn span_fits(bytes: Seq<u8>, floor: int, span: Option<(usize, usize)>) -> bool {
    match span {
        Some((start, end)) => {
            &&& floor <= start <= end <= bytes.len()
            &&& is_char_boundary(bytes, start as int)
            &&& is_char_boundary(bytes, end as int)
        },
        None => false,
    }
}

/// The end of the block before `i`, or 0 for the first block.
pub open spec fn floor_of(raw: Seq<RawBlockView>, i: int) -> int {
    if i <= 0 {
        0
    } else {
        match raw[i - 1].span {
            Some((_, end)) => end as int,
            None => 0,
        }
    }
}

/// Whether block `i` opens a code fence and leaves it open.
pub open spec fn fence_fault(raw: Seq<RawBlockView>, bytes: Seq<u8>, i: int) -> bool {
    match (raw[i].kind, raw[i].span) {
        (BlockKindView::Code { .. }, Some((start, end))) => opens_fence(bytes, start as int, end as int)
            && !fence_closed(bytes, start as int, end as int),
        _ => false,
    }
}

/// Whether block `i` is a heading that opens with an emoji and stands in
/// the place of a request heading (rank 3, before a block of code to run) or
/// of a reply heading (rank 4, before a result), and whose text does not
/// follow the heading's grammar. Headings that open with anything else are
/// ordinary headings, wherever they stand.
pub open spec fn heading_fault(raw: Seq<RawBlockView>, i: int) -> bool {
    &&& i + 1 < raw.len()
    &&& leads_with_emoji(raw[i].text)
    &&& {
        ||| (is_heading_of(raw[i].kind, 3) && is_script_block(raw[i + 1].kind) && request_heading(
            raw[i].text,
        ) is None)
        ||| (is_heading_of(raw[i].kind, 4) && is_result_block(raw[i + 1].kind) && !is_reply_heading(
            raw[i].text,
        ))
    }
}

/// What is wrong with block `i`, if anything.
pub open spec fn block_fault(raw: Seq<RawBlockView>, bytes: Seq<u8>, i: int) -> Option<Fault> {
    if !span_fits(bytes, floor_of(raw, i), raw[i].span) {
        Some(Fault::Span)
    } else if fence_fault(raw, bytes, i) {
        Some(Fault::Fence)
    } else if heading_fault(raw, i) {
        Some(Fault::Heading)
    } else {
        None
    }
}

/// Whether none of the blocks before `n` is malformed.
pub open spec fn sound_before(raw: Seq<RawBlockView>, bytes: Seq<u8>, n: int) -> bool {
    forall|i: int| 0 <= i < n ==> (#[trigger] block_fault(raw, bytes, i)) is None
}

/// The block that a parsed node with a place becomes.
pub open spec fn settled(raw: RawBlockView) -> BlockView {
    BlockView { kind: raw.kind, text: raw.text, start: raw.span.unwrap().0, end: raw.span.unwrap().1 }
}

/// The blocks that a list of parsed nodes becomes.
pub open spec fn settled_all(raw: Seq<RawBlockView>) -> Seq<BlockView> {
    Seq::new(raw.len(), |i: int| settled(raw[i]))
}

/// Whether block `i` is the first malformed block.
pub open spec fn is_first_fault(raw: Seq<RawBlockView>, bytes: Seq<u8>, i: int) -> bool {
    &&& 0 <= i < raw.len()
    &&& block_fault(raw, bytes, i) is Some
    &&& sound_before(raw, bytes, i)
}

/// What the check of the nodes found in a text of `bytes` gives: the first
/// malformed block and what is wrong with it, or the blocks that the nodes
/// become.
pub open spec fn checked(raw: Seq<RawBlockView>, bytes: Seq<u8>) -> Result<Seq<BlockView>, Rejection> {
    if exists|i: int| is_first_fault(raw, bytes, i) {
        let first = choose|i: int| is_first_fault(raw, bytes, i);
        Err(Rejection::Malformed { block: first, fault: block_fault(raw, bytes, first).unwrap() })
    } else {
        Ok(settled_all(raw))
    }
}

/// The first malformed block is one block, and where no block is the first
/// malformed one, none is malformed.
pub proof fn lemma_first_fault(raw: Seq<RawBlockView>, bytes: Seq<u8>, i: int)
    requires
        is_first_fault(raw, bytes, i),
    ensures
        checked(raw, bytes) == Err::<Seq<BlockView>, Rejection>(
            Rejection::Malformed { block: i, fault: block_fault(raw, bytes, i).unwrap() },
        ),
{
    let first = choose|k: int| is_first_fault(raw, bytes, k);
    if first < i {
        assert(block_fault(raw, bytes, first) is None);
    } else if i < first {
        assert(block_fault(raw, bytes, i) is None);
    }
}

/// Whether the blocks lie one after another inside a text of `length`
/// bytes.
pub open spec fn in_order(blocks: Seq<BlockView>, length: int) -> bool {
    &&& forall|i: int| 0 <= i < blocks.len() ==> (#[trigger] blocks[i]).start <= blocks[i].end <= length
    &&& forall|i: int, j: int|
        0 <= i < j < blocks.len() ==> (#[trigger] blocks[i]).end <= (#[trigger] blocks[j]).start
}

/// Whether every block starts and ends on a character boundary of `bytes`.
pub open spec fn on_boundaries(blocks: Seq<BlockView>, bytes: Seq<u8>) -> bool {
    forall|i: int|
        0 <= i < blocks.len() ==> is_char_boundary(bytes, (#[trigger] blocks[i]).start as int)
            && is_char_boundary(bytes, blocks[i].end as int)
}

/// The parsed form of a page's log: its top-level blocks in order, and the
/// length of the text they were read from.
#[derive(Debug)]
pub struct LogDocument {
    blocks: Vec<Block>,
    length: usize,
}

/// A copy of a block's kind.
pub(crate) fn copy_kind(kind: &BlockKind) -> (copy: BlockKind)
    ensures
        copy@ == kind@,
{
    match kind {
        BlockKind::Heading { depth } => BlockKind::Heading { depth: *depth },
        BlockKind::Code { lang } => BlockKind::Code {
            lang: match lang {
                Some(tag) => Some(tag.clone()),
                None => None,
            },
        },
        BlockKind::Other => BlockKind::Other,
    }
}

/// Decides whether a block of this kind holds code to run.
pub(crate) fn script_block_matches(kind: &BlockKind) -> (yes: bool)
    ensures
        yes == is_script_block(kind@),
{
    match kind {
        BlockKind::Code { lang: Some(tag) } => script_tag_matches(tag.as_str()),
        _ => false,
    }
}

/// Decides whether a block of this kind holds a result.
pub(crate) fn result_block_matches(kind: &BlockKind) -> (yes: bool)
    ensures
        yes == is_result_block(kind@),
{
    match kind {
        BlockKind::Code { lang: Some(tag) } => result_tag_matches(tag.as_str()),
        _ => false,
    }
}

/// Decides whether a block of this kind is a heading of rank `depth`.
pub(crate) fn heading_matches(kind: &BlockKind, depth: u8) -> (yes: bool)
    ensures
        yes == is_heading_of(kind@, depth),
{
    match kind {
        BlockKind::Heading { depth: rank } => *rank == depth,
        _ => false,
    }
}

/// Decides whether a block of this kind is a code block.
pub(crate) fn code_matches(kind: &BlockKind) -> (yes: bool)
    ensures
        yes == (kind@ is Code),
{
    match kind {
        BlockKind::Code { .. } => true,
        _ => false,
    }
}

/// Looks for what is wrong with block `i`.
fn find_fault(raw: &Vec<RawBlock>, source: &str, i: usize, floor: usize) -> (fault: Option<Fault>)
    requires
        i < raw@.len(),
        floor == floor_of(raw_view(raw@), i as int),
    ensures
        fault == block_fault(raw_view(raw@), source.spec_bytes(), i as int),
{
    let bytes = source.as_bytes();
    let block = &raw[i];
    assert(raw_view(raw@)[i as int] == block@);
    match block.span {
        None => {
            return Some(Fault::Span);
        },
        Some((start, end)) => {
            if !(floor <= start && start <= end && end <= bytes.len() && source.is_char_boundary(start)
                && source.is_char_boundary(end)) {
                return Some(Fault::Span);
            }
            if code_matches(&block.kind) && fence_opens(bytes, start, end) && !fence_closes(
                bytes,
                start,
                end,
            ) {
                return Some(Fault::Fence);
            }
        },
    }
    let n = raw.len();
    if i + 1 < n && emoji_leads(block.text.as_str()) {
        let next = &raw[i + 1];
        assert(raw_view(raw@)[i + 1] == next@);
        if heading_matches(&block.kind, 3) && script_block_matches(&next.kind) {
            if parse_request_heading(block.text.as_str()).is_none() {
                return Some(Fault::Heading);
            }
        }
        if heading_matches(&block.kind, 4) && result_block_matches(&next.kind) {
            if !reply_heading_matches(block.text.as_str()) {
                return Some(Fault::Heading);
            }
        }
    }
    None
}

impl LogDocument {
    /// The blocks of the document, in the order of the text.
    pub closed spec fn blocks(&self) -> Seq<BlockView> {
        blocks_view(self.blocks@)
    }

    /// The length in bytes of the text that the document was read from.
    pub closed spec fn length(&self) -> usize {
        self.length
    }

    /// What every document satisfies: its blocks lie one after another
    /// inside the text.
    #[verifier::type_invariant]
    pub open spec fn wf(&self) -> bool {
        in_order(self.blocks(), self.length() as int)
    }

    /// Whether the document was read from the text `bytes`.
    pub open spec fn describes(&self, bytes: Seq<u8>) -> bool {
        &&& self.length() == bytes.len()
        &&& in_order(self.blocks(), self.length() as int)
        &&& on_boundaries(self.blocks(), bytes)
    }

    /// The document without blocks of a text of no bytes.
    pub fn empty() -> (document: LogDocument)
        ensures
            document.blocks() == Seq::<BlockView>::empty(),
            document.length() == 0,
    {
        let document = LogDocument { blocks: Vec::new(), length: 0 };
        assert(document.blocks() =~= Seq::<BlockView>::empty());
        document
    }

    /// How many blocks the document has.
    pub fn len(&self) -> (n: usize)
        ensures
            n == self.blocks().len(),
    {
        self.blocks.len()
    }

    /// The length in bytes of the text that the document was read from.
    pub fn text_len(&self) -> (n: usize)
        ensures
            n == self.length(),
    {
        self.length
    }

    /// The block at `i`.
    pub(crate) fn at(&self, i: usize) -> (block: &Block)
        requires
            i < self.blocks().len(),
        ensures
            block@ == self.blocks()[i as int],
    {
        &self.blocks[i]
    }

    /// The block at `i`, if the document has that many.
    pub fn block(&self, i: usize) -> (block: Option<&Block>)
        ensures
            match block {
                Some(b) => i < self.blocks().len() && b@ == self.blocks()[i as int],
                None => i >= self.blocks().len(),
            },
    {
        if i < self.blocks.len() {
            Some(&self.blocks[i])
        } else {
            None
        }
    }

    /// Checks the nodes that the markdown parser found in `source` and makes
    /// a document of them. The first malformed block is reported: one
    /// without a place in `source`, one that leaves a code fence open, or a
    /// heading with an emoji in the place of a request or reply heading that
    /// is neither.
    pub fn from_outline(raw: &Vec<RawBlock>, source: &str) -> (outcome: Result<LogDocument, ParseError>)
        ensures
            match outcome {
                Ok(document) => {
                    &&& checked(raw_view(raw@), source.spec_bytes()) == Ok::<Seq<BlockView>, Rejection>(
                        document.blocks(),
                    )
                    &&& document.describes(source.spec_bytes())
                },
                Err(error) => checked(raw_view(raw@), source.spec_bytes()) == Err::<
                    Seq<BlockView>,
                    Rejection,
                >(error@),
            },
    {
        let ghost views = raw_view(raw@);
        let ghost bytes = source.spec_bytes();
        let length = source.as_bytes().len();
        let mut blocks: Vec<Block> = Vec::new();
        let mut floor: usize = 0;
        let mut i: usize = 0;
        while i < raw.len()
            invariant
                0 <= i <= raw@.len(),
                views == raw_view(raw@),
                bytes == source.spec_bytes(),
                length == bytes.len(),
                floor == floor_of(views, i as int),
                sound_before(views, bytes, i as int),
                blocks@.len() == i,
                forall|k: int| 0 <= k < i ==> (#[trigger] blocks@[k])@ == settled(views[k]),
                forall|k: int| 0 <= k < i ==> (#[trigger] blocks@[k]).end <= floor,
                in_order(blocks_view(blocks@), bytes.len() as int),
                on_boundaries(blocks_view(blocks@), bytes),
            decreases raw@.len() - i,
        {
            match find_fault(raw, source, i, floor) {
                Some(fault) => {
                    proof {
                        lemma_first_fault(views, bytes, i as int);
                    }
                    return Err(ParseError::Malformed { block: i, fault });
                },
                None => {},
            }
            let node = &raw[i];
            assert(views[i as int] == node@);
            match node.span {
                Some((start, end)) => {
                    let ghost before = blocks_view(blocks@);
                    blocks.push(
                        Block { kind: copy_kind(&node.kind), text: node.text.clone(), start, end },
                    );
                    proof {
                        let after = blocks_view(blocks@);
                        assert forall|k: int| 0 <= k < i implies #[trigger] after[k] == before[k] by {}
                        assert(after[i as int] == settled(views[i as int]));
                    }
                    floor = end;
                },
                None => {},
            }
            i += 1;
        }
        proof {
            assert(blocks_view(blocks@) =~= settled_all(views));
            assert forall|k: int| !is_first_fault(views, bytes, k) by {
                if 0 <= k < views.len() {
                    assert(block_fault(views, bytes, k) is None);
                }
            }
        }
        Ok(LogDocument { blocks, length })
    }
}

/// What a text is as a log document: an error where the markdown parser
/// rejects it, else what the check of its nodes gives.
pub open spec fn document_of(text: Seq<char>) -> Result<Seq<BlockView>, Rejection> {
    match markdown_outline(text) {
        None => Err(Rejection::Syntax),
        Some(raw) => checked(raw, encode_utf8(text)),
    }
}

} // verus!
