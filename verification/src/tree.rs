//! The document tree of one section, as the walk over it: an event on
//! entering a node and one on leaving it, in document order.

use vstd::prelude::*;
use comrak::arena_tree::NodeEdge;
use comrak::nodes::NodeValue;

verus! {

/// What the converter reads of a node of the document tree.
#[derive(Debug, Clone, PartialEq, Eq)]
pub enum NodeKind {
    /// A list, ordered or not.
    List,
    /// A heading.
    Heading,
    /// A block of code with its info string and its literal content.
    CodeBlock { info: String, literal: String },
    /// An item of a list.
    Item,
    /// A span of inline code with its literal content.
    Code(String),
    /// Inline text.
    Text(String),
    /// Any other node.
    Other,
}

/// One step of the walk over a document tree.
#[derive(Debug, Clone, PartialEq, Eq)]
pub enum TreeEvent {
    /// The walk enters a node, before its children.
    Enter(NodeKind),
    /// The walk leaves a node, after its children.
    Exit(NodeKind),
}

/// The model of a [`NodeKind`].
pub enum Kind {
    List,
    Heading,
    CodeBlock { info: Seq<char>, literal: Seq<char> },
    Item,
    Code(Seq<char>),
    Text(Seq<char>),
    Other,
}

/// The model of a [`TreeEvent`].
pub enum Event {
    Enter(Kind),
    Exit(Kind),
}

impl DeepView for NodeKind {
    type V = Kind;

    open spec fn deep_view(&self) -> Kind {
        match self {
            NodeKind::List => Kind::List,
            NodeKind::Heading => Kind::Heading,
            NodeKind::CodeBlock { info, literal } => Kind::CodeBlock {
                info: info@,
                literal: literal@,
            },
            NodeKind::Item => Kind::Item,
            NodeKind::Code(literal) => Kind::Code(literal@),
            NodeKind::Text(text) => Kind::Text(text@),
            NodeKind::Other => Kind::Other,
        }
    }
}

impl DeepView for TreeEvent {
    type V = Event;

    open spec fn deep_view(&self) -> Event {
        match self {
            TreeEvent::Enter(kind) => Event::Enter(kind.deep_view()),
            TreeEvent::Exit(kind) => Event::Exit(kind.deep_view()),
        }
    }
}

/// The value of a node of comrak's document tree.
#[verifier::external_type_specification]
#[verifier::external_body]
pub struct ExNodeValue(comrak::nodes::NodeValue);

/// The model of a document tree: a node and its children, in their order.
pub struct Tree {
    pub kind: Kind,
    pub children: Seq<Tree>,
}

/// The walk over `tree`: into the node, over each of its children in turn,
/// and out of the node.
pub open spec fn walk(tree: Tree) -> Seq<Event>
    decreases tree,
{
    seq![Event::Enter(tree.kind)] + walk_all(tree.children) + seq![Event::Exit(tree.kind)]
}

/// The walks over `trees`, one after the other.
pub open spec fn walk_all(trees: Seq<Tree>) -> Seq<Event>
    decreases trees,
{
    if trees.len() == 0 {
        Seq::empty()
    } else {
        walk_all(trees.drop_last()) + walk(trees.last())
    }
}

/// The tree that comrak parses `text` into with its default options, each
/// node as the converter reads it.
pub uninterp spec fn markdown_tree(text: Seq<char>) -> Tree;

/// Tells the variants of comrak's `NodeValue` apart and copies the strings
/// that a code block, a code span and a text node hold. Nothing is claimed of
/// the result.
#[verifier::external_body]
fn kind_of(value: &NodeValue) -> NodeKind {
    match value {
        NodeValue::List(_) => NodeKind::List,
        NodeValue::Heading(_) => NodeKind::Heading,
        NodeValue::CodeBlock(block) => NodeKind::CodeBlock {
            info: block.info.clone(),
            literal: block.literal.clone(),
        },
        NodeValue::Item(_) => NodeKind::Item,
        NodeValue::Code(code) => NodeKind::Code(code.literal.clone()),
        NodeValue::Text(text) => NodeKind::Text(text.clone()),
        _ => NodeKind::Other,
    }
}

/// The event for one edge of the walk: entering or leaving a node with `value`.
pub(crate) fn event_of(entering: bool, value: &NodeValue) -> (event: TreeEvent)
    ensures
        entering <==> event is Enter,
{
    let kind = kind_of(value);
    if entering {
        TreeEvent::Enter(kind)
    } else {
        TreeEvent::Exit(kind)
    }
}

/// Parses `text` with comrak's `parse_document` under `ComrakOptions::default()`
/// and walks the tree with `traverse`, from the root. The parser reads nothing
/// but its arguments, so the tree is a function of the text; of the tree
/// itself nothing is claimed. `traverse` yields the start of a node, then the
/// edges of each child in turn, then the end of the node.
#[verifier::external_body]
pub(crate) fn parse_events(text: &str) -> (events: Vec<TreeEvent>)
    ensures
        events.deep_view() == walk(markdown_tree(text@)),
{
    let arena = comrak::Arena::new();
    let root = comrak::parse_document(&arena, text, &comrak::ComrakOptions::default());
    root.traverse().map(|edge| match edge {
        NodeEdge::Start(node) => event_of(true, &node.data.borrow().value),
        NodeEdge::End(node) => event_of(false, &node.data.borrow().value),
    }).collect()
}

} // verus!
