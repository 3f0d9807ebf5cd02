//! The block structure of a markdown text, as the markdown parser sees it.
//!
//! The parser itself is not verified. It is called in one place, and what it
//! returns is copied into plain values that the rest of the library reads.

use markdown::mdast::Node;
use markdown::message::Message;
use vstd::prelude::*;

verus! {

/// `markdown::message::Message`, the parser's error; opaque here.
#[verifier::external_type_specification]
#[verifier::external_body]
pub struct ExMessage(Message);

/// What kind of block a top-level node is.
#[derive(Debug, Clone)]
pub enum BlockKind {
    /// A heading of rank `depth` (1 to 6).
    Heading { depth: u8 },
    /// A code block, with the tag that follows its opening fence.
    Code { lang: Option<String> },
    /// Any other block: a paragraph, a list, a quote, a rule.
    Other,
}

/// A block's kind as a mathematical value.
pub enum BlockKindView {
    Heading { depth: u8 },
    Code { lang: Option<Seq<char>> },
    Other,
}

impl View for BlockKind {
    type V = BlockKindView;

    open spec fn view(&self) -> BlockKindView {
        match self {
            BlockKind::Heading { depth } => BlockKindView::Heading { depth: *depth },
            BlockKind::Code { lang } => BlockKindView::Code {
                lang: match lang {
                    Some(tag) => Some(tag@),
                    None => None,
                },
            },
            BlockKind::Other => BlockKindView::Other,
        }
    }
}

/// A top-level node as the markdown parser reports it: its kind, its text
/// content, and the byte offsets of its first byte and of the byte after
/// its last, where the parser gives them.
#[derive(Debug, Clone)]
pub struct RawBlock {
    pub kind: BlockKind,
    pub text: String,
    pub span: Option<(usize, usize)>,
}

/// A reported node as a mathematical value.
pub struct RawBlockView {
    pub kind: BlockKindView,
    pub text: Seq<char>,
    pub span: Option<(usize, usize)>,
}

impl View for RawBlock {
    type V = RawBlockView;

    open spec fn view(&self) -> RawBlockView {
        RawBlockView { kind: self.kind@, text: self.text@, span: self.span }
    }
}

/// The reported nodes of a list as mathematical values.
pub open spec fn raw_view(blocks: Seq<RawBlock>) -> Seq<RawBlockView> {
    Seq::new(blocks.len(), |i: int| blocks[i]@)
}

/// The top-level nodes that `markdown::to_mdast`, with its default options,
/// finds in `text`; `None` where it reports an error.
pub uninterp spec fn markdown_outline(text: Seq<char>) -> Option<Seq<RawBlockView>>;

/// Calls `markdown::to_mdast` with the default options and copies the
/// root's children: for each its variant (heading with its depth, code with
/// its language tag, anything else), the text that `Node::to_string` gives,
/// and the offsets of `Node::position`. The contract only names that result;
/// it claims nothing about what the parser finds.
#[verifier::external_body]
pub(crate) fn mdast_outline(text: &str) -> (outcome: Result<Vec<RawBlock>, Message>)
    ensures
        match outcome {
            Ok(blocks) => markdown_outline(text@) == Some(raw_view(blocks@)),
            Err(_) => markdown_outline(text@) is None,
        },
{
    let root = markdown::to_mdast(text, &markdown::ParseOptions::default())?;
    let mut blocks = Vec::new();
    for node in root.children().into_iter().flatten() {
        let kind = match node {
            Node::Heading(heading) => BlockKind::Heading { depth: heading.depth },
            Node::Code(code) => BlockKind::Code { lang: code.lang.clone() },
            _ => BlockKind::Other,
        };
        let span = node.position().map(|p| (p.start.offset, p.end.offset));
        blocks.push(RawBlock { kind, text: node.to_string(), span });
    }
    Ok(blocks)
}

/// The text of the parser's error, as `Message`'s `Display` writes it.
#[verifier::external_body]
pub(crate) fn message_text(message: &Message) -> (text: String) {
    message.to_string()
}

/// The top-level nodes of `text`, or the parser's complaint.
pub fn outline_of(text: &str) -> (outcome: Result<Vec<RawBlock>, String>)
    ensures
        match outcome {
            Ok(blocks) => markdown_outline(text@) == Some(raw_view(blocks@)),
            Err(_) => markdown_outline(text@) is None,
        },
{
    match mdast_outline(text) {
        Ok(blocks) => Ok(blocks),
        Err(message) => Err(message_text(&message)),
    }
}

} // verus!
