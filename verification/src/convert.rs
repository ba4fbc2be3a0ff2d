//! From the walk over a section's document tree to the section's display
//! blocks.
//!
//! The converter reads the events in order and keeps two things: the blocks
//! made so far, and whether it is `fresh`, that is whether inline content
//! that comes next has to open a paragraph of its own.

use vstd::prelude::*;
use vstd::string::*;
use crate::blocks::{Block, SlideItem};
use crate::text::{strip, trim, CharClass};
use crate::tree::{markdown_tree, parse_events, walk, Event, Kind, NodeKind, TreeEvent};

verus! {

/// The info string that marks a code block as the data of a QR symbol.
pub const QR_TAG: &'static str = "qrcode";

/// What the converter holds between two events.
pub struct Conversion {
    /// The blocks made so far, in the order in which they were opened.
    pub blocks: Seq<Block>,
    /// Whether inline content has to open a new paragraph.
    pub fresh: bool,
}

/// The converter that holds `blocks` and is `fresh` or not.
pub open spec fn holding(blocks: Seq<Block>, fresh: bool) -> Conversion {
    Conversion { blocks, fresh }
}

/// The converter before the first event.
pub open spec fn start() -> Conversion {
    Conversion { blocks: Seq::empty(), fresh: true }
}

/// The block that a code block with `info` and `literal` becomes.
pub open spec fn code_block(info: Seq<char>, literal: Seq<char>) -> Block {
    if info == QR_TAG@ {
        Block::QR(strip(literal, CharClass::Whitespace))
    } else {
        Block::Code(literal)
    }
}

/// Inline code as it is written into a text: between two backticks.
pub open spec fn code_span(literal: Seq<char>) -> Seq<char> {
    seq!['`'] + literal + seq!['`']
}

/// `blocks` with a new empty item in its last block, if that is a list.
pub open spec fn with_item(blocks: Seq<Block>) -> Seq<Block> {
    if blocks.len() > 0 && blocks.last() is Bullets {
        blocks.update(
            blocks.len() - 1,
            Block::Bullets(blocks.last()->Bullets_0.push(Seq::empty())),
        )
    } else {
        blocks
    }
}

/// `block` with `piece` at the end of the text that it is collecting: the
/// text of a heading or a paragraph, the last item of a list. Other blocks
/// collect nothing.
pub open spec fn extended(block: Block, piece: Seq<char>) -> Block {
    match block {
        Block::Heading(text) => Block::Heading(text + piece),
        Block::Paragraph(text) => Block::Paragraph(text + piece),
        Block::Bullets(items) => if items.len() > 0 {
            Block::Bullets(items.update(items.len() - 1, items.last() + piece))
        } else {
            block
        },
        _ => block,
    }
}

/// `blocks` with `piece` written into its last block.
pub open spec fn with_inline(blocks: Seq<Block>, piece: Seq<char>) -> Seq<Block> {
    if blocks.len() > 0 {
        blocks.update(blocks.len() - 1, extended(blocks.last(), piece))
    } else {
        blocks
    }
}

/// The converter after inline content `piece`: a fresh converter first opens
/// an empty paragraph.
pub open spec fn after_inline(c: Conversion, piece: Seq<char>) -> Conversion {
    let blocks = if c.fresh {
        c.blocks.push(Block::Paragraph(Seq::empty()))
    } else {
        c.blocks
    };
    Conversion { blocks: with_inline(blocks, piece), fresh: false }
}

/// The converter after one more event.
///
/// A list, a heading and a code block open a block of their own. A list item
/// opens an item in the last block, if that is a list. Inline code and inline
/// text are content: they are written into the last block, after a fresh
/// converter has opened a paragraph for them, and leaving them changes
/// nothing, so that the pieces of one paragraph meet in one block. Leaving any
/// other node makes the converter fresh.
pub open spec fn step(c: Conversion, event: Event) -> Conversion {
    match event {
        Event::Enter(Kind::List) => Conversion {
            blocks: c.blocks.push(Block::Bullets(Seq::empty())),
            fresh: false,
        },
        Event::Enter(Kind::Heading) => Conversion {
            blocks: c.blocks.push(Block::Heading(Seq::empty())),
            fresh: false,
        },
        Event::Enter(Kind::CodeBlock { info, literal }) => Conversion {
            blocks: c.blocks.push(code_block(info, literal)),
            fresh: false,
        },
        Event::Enter(Kind::Item) => Conversion { blocks: with_item(c.blocks), fresh: false },
        Event::Enter(Kind::Code(literal)) => after_inline(c, code_span(literal)),
        Event::Enter(Kind::Text(text)) => after_inline(c, text),
        Event::Enter(Kind::Other) => c,
        Event::Exit(Kind::Code(_)) => c,
        Event::Exit(Kind::Text(_)) => c,
        Event::Exit(_) => Conversion { blocks: c.blocks, fresh: true },
    }
}

/// The converter that held `c` after `events`, taken from the first to the
/// last.
pub open spec fn run_from(c: Conversion, events: Seq<Event>) -> Conversion
    decreases events.len(),
{
    if events.len() == 0 {
        c
    } else {
        step(run_from(c, events.drop_last()), events.last())
    }
}

/// The converter after the walk `events`.
pub open spec fn after_events(events: Seq<Event>) -> Conversion {
    run_from(start(), events)
}

/// The display blocks of a walk.
pub open spec fn blocks_of(events: Seq<Event>) -> Seq<Block> {
    after_events(events).blocks
}

/// Opens `item` as the last block.
fn open_block(items: &mut Vec<SlideItem>, item: SlideItem)
    ensures
        final(items).deep_view() == old(items).deep_view().push(item.deep_view()),
{
    items.push(item);
}

/// Takes the last block off, to put it back changed.
fn close_block(items: &mut Vec<SlideItem>) -> (last: SlideItem)
    requires
        old(items).len() > 0,
    ensures
        old(items).deep_view() == final(items).deep_view().push(last.deep_view()),
        last.deep_view() == old(items).deep_view().last(),
        final(items).deep_view() == old(items).deep_view().drop_last(),
{
    let ghost before = items@;
    let last = items.pop().unwrap();
    assert(before =~= items@.push(last));
    last
}

/// Starts a new empty item in the last block, if that is a list.
fn add_item(items: &mut Vec<SlideItem>)
    ensures
        final(items).deep_view() == with_item(old(items).deep_view()),
{
    if items.len() == 0 {
        return ;
    }
    let last = close_block(items);
    match last {
        SlideItem::Bullets(mut entries) => {
            let ghost entries_before = entries.deep_view();
            entries.push(String::new());
            assert(entries.deep_view() =~= entries_before.push(Seq::empty()));
            open_block(items, SlideItem::Bullets(entries));
        },
        other => {
            open_block(items, other);
        },
    }
}

/// Writes `piece` into the last block.
fn add_inline(items: &mut Vec<SlideItem>, piece: &str)
    ensures
        final(items).deep_view() == with_inline(old(items).deep_view(), piece@),
{
    if items.len() == 0 {
        return ;
    }
    let last = close_block(items);
    let changed = match last {
        SlideItem::Heading(mut text) => {
            text.append(piece);
            SlideItem::Heading(text)
        },
        SlideItem::Paragraph(mut text) => {
            text.append(piece);
            SlideItem::Paragraph(text)
        },
        SlideItem::Bullets(mut entries) => {
            let ghost entries_before = entries.deep_view();
            match entries.pop() {
                Some(mut entry) => {
                    entry.append(piece);
                    entries.push(entry);
                    assert(entries.deep_view() =~= entries_before.update(
                        entries_before.len() - 1,
                        entries_before.last() + piece@,
                    ));
                },
                None => {},
            }
            SlideItem::Bullets(entries)
        },
        other => other,
    };
    open_block(items, changed);
}

/// Writes inline content `piece`, in a new paragraph if the converter is fresh.
fn take_inline(items: &mut Vec<SlideItem>, fresh: bool, piece: &str)
    ensures
        final(items).deep_view() == after_inline(
            holding(old(items).deep_view(), fresh),
            piece@,
        ).blocks,
{
    if fresh {
        open_block(items, SlideItem::Paragraph(String::new()));
    }
    add_inline(items, piece);
}

/// The block for a code block with `info` and `literal`: the data of a QR
/// symbol, trimmed, if `info` is the QR tag, and else the code as it stands.
pub fn block_for_code(info: &String, literal: &String) -> (item: SlideItem)
    ensures
        item.deep_view() == code_block(info@, literal@),
{
    let tag = QR_TAG.to_owned();
    if *info == tag {
        SlideItem::QR(trim(literal.as_str()))
    } else {
        SlideItem::Code(literal.clone())
    }
}

/// `literal` between two backticks.
pub fn backticked(literal: &str) -> (span: String)
    ensures
        span@ == code_span(literal@),
{
    proof {
        reveal_strlit("`");
    }
    let mut span = "`".to_owned();
    span.append(literal);
    span.append("`");
    span
}

/// Takes one event: changes `items` and returns whether the converter is
/// fresh after it.
pub fn advance(items: &mut Vec<SlideItem>, fresh: bool, event: &TreeEvent) -> (fresh_after: bool)
    ensures
        holding(final(items).deep_view(), fresh_after) == step(
            holding(old(items).deep_view(), fresh),
            event.deep_view(),
        ),
{
    match event {
        TreeEvent::Enter(NodeKind::List) => {
            let entries: Vec<String> = Vec::new();
            assert(entries.deep_view() =~= Seq::empty());
            open_block(items, SlideItem::Bullets(entries));
            false
        },
        TreeEvent::Enter(NodeKind::Heading) => {
            open_block(items, SlideItem::Heading(String::new()));
            false
        },
        TreeEvent::Enter(NodeKind::CodeBlock { info, literal }) => {
            open_block(items, block_for_code(info, literal));
            false
        },
        TreeEvent::Enter(NodeKind::Item) => {
            add_item(items);
            false
        },
        TreeEvent::Enter(NodeKind::Code(literal)) => {
            let span = backticked(literal.as_str());
            take_inline(items, fresh, span.as_str());
            false
        },
        TreeEvent::Enter(NodeKind::Text(text)) => {
            take_inline(items, fresh, text.as_str());
            false
        },
        TreeEvent::Enter(NodeKind::Other) => fresh,
        TreeEvent::Exit(NodeKind::Code(_)) => fresh,
        TreeEvent::Exit(NodeKind::Text(_)) => fresh,
        TreeEvent::Exit(_) => true,
    }
}

/// The display blocks of the walk `events`.
pub fn blocks_from_events(events: &Vec<TreeEvent>) -> (items: Vec<SlideItem>)
    ensures
        items.deep_view() == blocks_of(events.deep_view()),
{
    let mut items: Vec<SlideItem> = Vec::new();
    let mut fresh = true;
    let ghost all = events.deep_view();
    assert(items.deep_view() =~= Seq::empty());
    for i in 0..events.len()
        invariant
            all == events.deep_view(),
            holding(items.deep_view(), fresh) == after_events(all.take(i as int)),
    {
        proof {
            assert(all.take(i + 1).drop_last() =~= all.take(i as int));
        }
        fresh = advance(&mut items, fresh, &events[i]);
    }
    assert(all.take(events.len() as int) =~= all);
    items
}

/// The walk over the document tree of a section.
pub fn section_walk(section: &str) -> (events: Vec<TreeEvent>)
    ensures
        events.deep_view() == walk(markdown_tree(section@)),
{
    parse_events(section)
}

/// The display blocks of a section: the section is parsed, and the walk over
/// its tree is converted.
pub fn section_blocks(section: &str) -> (items: Vec<SlideItem>)
    ensures
        items.deep_view() == blocks_of(walk(markdown_tree(section@))),
{
    let events = section_walk(section);
    blocks_from_events(&events)
}

} // verus!
