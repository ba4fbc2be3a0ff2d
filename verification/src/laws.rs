//! What holds of the converter whatever the tree: how it takes a walk in
//! parts, what it makes of a tree without content, of inline code and text,
//! and of code blocks.

use vstd::prelude::*;
use crate::blocks::Block;
use crate::convert::{
    after_inline, blocks_of, code_block, code_span, after_events, run_from, start, step, Conversion, QR_TAG,
};
use crate::text::{strip, CharClass};
use crate::tree::{walk, walk_all, Event, Kind, Tree};

verus! {

/// The converter takes one walk after the other.
pub proof fn lemma_run_in_two(c: Conversion, first: Seq<Event>, second: Seq<Event>)
    ensures
        run_from(c, first + second) == run_from(run_from(c, first), second),
    decreases second.len(),
{
    if second.len() > 0 {
        assert((first + second).drop_last() =~= first + second.drop_last());
        lemma_run_in_two(c, first, second.drop_last());
    }
}

/// The converter after the walk over a node: after the step into it, the
/// walks over its children and the step out of it.
pub proof fn lemma_run_over_node(c: Conversion, tree: Tree)
    ensures
        run_from(c, walk(tree)) == step(
            run_from(step(c, Event::Enter(tree.kind)), walk_all(tree.children)),
            Event::Exit(tree.kind),
        ),
{
    let enter = seq![Event::Enter(tree.kind)];
    let inner = walk_all(tree.children);
    let exit = seq![Event::Exit(tree.kind)];
    lemma_run_in_two(c, enter + inner, exit);
    lemma_run_in_two(c, enter, inner);
    lemma_run_one(c, Event::Enter(tree.kind));
    lemma_run_one(run_from(c, enter + inner), Event::Exit(tree.kind));
}

/// The converter after one event.
pub proof fn lemma_run_one(c: Conversion, event: Event)
    ensures
        run_from(c, seq![event]) == step(c, event),
{
    reveal_with_fuel(run_from, 2);
}

/// The converter after the walks over some trees and one more.
pub proof fn lemma_run_over_last(c: Conversion, trees: Seq<Tree>)
    requires
        trees.len() > 0,
    ensures
        run_from(c, walk_all(trees)) == run_from(
            run_from(c, walk_all(trees.drop_last())),
            walk(trees.last()),
        ),
{
    lemma_run_in_two(c, walk_all(trees.drop_last()), walk(trees.last()));
}

/// Whether `tree` holds nothing that the converter reads: no list, no list
/// item, no heading, no code and no text.
pub open spec fn bare(tree: Tree) -> bool
    decreases tree,
{
    &&& tree.kind is Other
    &&& forall|i: int| 0 <= i < tree.children.len() ==> bare(#[trigger] tree.children[i])
}

/// The walk over a bare tree leaves the blocks as they are.
pub proof fn lemma_bare_tree_keeps_blocks(c: Conversion, tree: Tree)
    requires
        bare(tree),
    ensures
        run_from(c, walk(tree)).blocks == c.blocks,
    decreases tree,
{
    lemma_run_over_node(c, tree);
    lemma_bare_trees_keep_blocks(step(c, Event::Enter(tree.kind)), tree.children);
}

/// The walks over bare trees leave the blocks as they are.
pub proof fn lemma_bare_trees_keep_blocks(c: Conversion, trees: Seq<Tree>)
    requires
        forall|i: int| 0 <= i < trees.len() ==> bare(#[trigger] trees[i]),
    ensures
        run_from(c, walk_all(trees)).blocks == c.blocks,
    decreases trees,
{
    if trees.len() > 0 {
        let before = trees.drop_last();
        lemma_bare_trees_keep_blocks(c, before);
        lemma_run_over_last(c, trees);
        lemma_bare_tree_keeps_blocks(run_from(c, walk_all(before)), trees.last());
    }
}

/// A section without content has no blocks: a tree that holds nothing but
/// nodes that the converter does not read, such as the tree of an empty
/// section, which is its root alone.
pub proof fn lemma_no_content_no_blocks(tree: Tree)
    requires
        bare(tree),
    ensures
        blocks_of(walk(tree)) == Seq::<Block>::empty(),
{
    lemma_bare_tree_keeps_blocks(start(), tree);
}

/// The text that inline content is written into: that of the last block if
/// it is a heading or a paragraph, the last item if it is a list with items.
pub open spec fn open_text(blocks: Seq<Block>) -> Option<Seq<char>> {
    if blocks.len() == 0 {
        None
    } else {
        match blocks.last() {
            Block::Heading(text) => Some(text),
            Block::Paragraph(text) => Some(text),
            Block::Bullets(items) => if items.len() > 0 {
                Some(items.last())
            } else {
                None
            },
            _ => None,
        }
    }
}

/// The text that the next inline content is written after: nothing in a fresh
/// converter, which opens a paragraph for it, and else the open text.
pub open spec fn text_so_far(c: Conversion) -> Option<Seq<char>> {
    if c.fresh {
        Some(Seq::empty())
    } else {
        open_text(c.blocks)
    }
}

/// Inline code goes into the open text between one backtick and one
/// backtick, whatever the converter held before.
pub proof fn lemma_inline_code_is_backticked(c: Conversion, literal: Seq<char>)
    ensures
        open_text(step(c, Event::Enter(Kind::Code(literal))).blocks) == match text_so_far(c) {
            Some(text) => Some(text + seq!['`'] + literal + seq!['`']),
            None => None,
        },
{
}

/// Inline text goes into the open text as it is.
pub proof fn lemma_inline_text_is_plain(c: Conversion, text: Seq<char>)
    ensures
        open_text(step(c, Event::Enter(Kind::Text(text))).blocks) == match text_so_far(c) {
            Some(before) => Some(before + text),
            None => None,
        },
{
}

/// The blocks among `blocks` that hold code or the data of a QR symbol, in
/// their order.
pub open spec fn literal_blocks(blocks: Seq<Block>) -> Seq<Block>
    decreases blocks.len(),
{
    if blocks.len() == 0 {
        Seq::empty()
    } else if blocks.last() is Code || blocks.last() is QR {
        literal_blocks(blocks.drop_last()).push(blocks.last())
    } else {
        literal_blocks(blocks.drop_last())
    }
}

/// The info string and the literal of each code block that the walk `events`
/// enters, in their order.
pub open spec fn code_nodes(events: Seq<Event>) -> Seq<(Seq<char>, Seq<char>)>
    decreases events.len(),
{
    if events.len() == 0 {
        Seq::empty()
    } else {
        match events.last() {
            Event::Enter(Kind::CodeBlock { info, literal }) => code_nodes(events.drop_last()).push(
                (info, literal),
            ),
            _ => code_nodes(events.drop_last()),
        }
    }
}

/// A step changes the code and QR blocks only by the block of a code block
/// that is entered.
proof fn lemma_step_keeps_literal_blocks(c: Conversion, event: Event)
    ensures
        literal_blocks(step(c, event).blocks) == match event {
            Event::Enter(Kind::CodeBlock { info, literal }) => literal_blocks(c.blocks).push(
                code_block(info, literal),
            ),
            _ => literal_blocks(c.blocks),
        },
{
    let after = step(c, event).blocks;
    match event {
        Event::Enter(Kind::List) => {
            assert(after.drop_last() =~= c.blocks);
        },
        Event::Enter(Kind::Heading) => {
            assert(after.drop_last() =~= c.blocks);
        },
        Event::Enter(Kind::CodeBlock { info, literal }) => {
            assert(after.drop_last() =~= c.blocks);
        },
        Event::Enter(Kind::Item) => {
            if c.blocks.len() > 0 {
                assert(after.drop_last() =~= c.blocks.drop_last());
            }
        },
        Event::Enter(Kind::Code(literal)) => {
            lemma_inline_keeps_literal_blocks(c, code_span(literal));
        },
        Event::Enter(Kind::Text(text)) => {
            lemma_inline_keeps_literal_blocks(c, text);
        },
        _ => {},
    }
}

/// Inline content changes no code block and no QR block.
proof fn lemma_inline_keeps_literal_blocks(c: Conversion, piece: Seq<char>)
    ensures
        literal_blocks(after_inline(c, piece).blocks) == literal_blocks(c.blocks),
{
    let after = after_inline(c, piece).blocks;
    if c.fresh {
        assert(after.drop_last() =~= c.blocks);
    } else if c.blocks.len() > 0 {
        assert(after.drop_last() =~= c.blocks.drop_last());
    }
}

/// Each code block of the tree becomes one block, in the order of the tree:
/// the data of a QR symbol, trimmed, if its info string is the QR tag, and
/// code with the literal as it stands if it is anything else. No other code
/// block and no other QR block is made.
pub proof fn lemma_code_blocks_keep_their_kind(events: Seq<Event>)
    ensures
        literal_blocks(blocks_of(events)).len() == code_nodes(events).len(),
        forall|i: int|
            0 <= i < code_nodes(events).len() ==> #[trigger] literal_blocks(blocks_of(events))[i]
                == if code_nodes(events)[i].0 == QR_TAG@ {
                Block::QR(strip(code_nodes(events)[i].1, CharClass::Whitespace))
            } else {
                Block::Code(code_nodes(events)[i].1)
            },
    decreases events.len(),
{
    if events.len() > 0 {
        lemma_code_blocks_keep_their_kind(events.drop_last());
        lemma_step_keeps_literal_blocks(after_events(events.drop_last()), events.last());
    }
}

} // verus!
