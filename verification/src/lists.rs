//! Lists of the document tree and the list blocks made of them.
//!
//! The converter opens a list block for each list of the tree, and a list
//! item becomes an item of the last block if that block is a list block. So
//! the items of a list reach its block until another block opens, and
//! nested lists take the items that follow them. This module says in which
//! trees the list blocks are the lists of the tree, proves that they are,
//! and proves that in no other tree of a document they are.

use vstd::prelude::*;
use crate::blocks::Block;
use crate::convert::{
    after_inline, blocks_of, code_span, after_events, run_from, start, step, with_item, Conversion,
};
use crate::laws::{lemma_run_over_last, lemma_run_over_node};
use crate::tree::{walk, walk_all, Event, Kind, Tree};

verus! {

/// The number of items of each list block among `blocks`, in their order.
pub open spec fn bullet_sizes(blocks: Seq<Block>) -> Seq<nat>
    decreases blocks.len(),
{
    if blocks.len() == 0 {
        Seq::empty()
    } else {
        match blocks.last() {
            Block::Bullets(items) => bullet_sizes(blocks.drop_last()).push(items.len()),
            _ => bullet_sizes(blocks.drop_last()),
        }
    }
}

/// The number of list items among `trees`.
pub open spec fn items_among(trees: Seq<Tree>) -> nat
    decreases trees.len(),
{
    if trees.len() == 0 {
        0
    } else if trees.last().kind is Item {
        items_among(trees.drop_last()) + 1
    } else {
        items_among(trees.drop_last())
    }
}

/// The number of items of each list of `tree` that lies in no other list, in
/// the order of the document.
pub open spec fn top_lists(tree: Tree) -> Seq<nat>
    decreases tree,
{
    if tree.kind is List {
        seq![items_among(tree.children)]
    } else {
        top_lists_all(tree.children)
    }
}

/// The lists of `trees` that lie in no other list, tree after tree.
pub open spec fn top_lists_all(trees: Seq<Tree>) -> Seq<nat>
    decreases trees,
{
    if trees.len() == 0 {
        Seq::empty()
    } else {
        top_lists_all(trees.drop_last()) + top_lists(trees.last())
    }
}

/// The number of lists in `tree`, those inside other lists too.
pub open spec fn lists_in(tree: Tree) -> nat
    decreases tree,
{
    if tree.kind is List {
        1 + lists_in_all(tree.children)
    } else {
        lists_in_all(tree.children)
    }
}

/// The number of lists in `trees`.
pub open spec fn lists_in_all(trees: Seq<Tree>) -> nat
    decreases trees,
{
    if trees.len() == 0 {
        0
    } else {
        lists_in_all(trees.drop_last()) + lists_in(trees.last())
    }
}

/// Whether the walk over `tree` opens a block, when the converter that
/// enters it is `fresh` or not: a list, a heading and a code block do, and
/// so does inline content that meets a fresh converter.
pub open spec fn opens_block(tree: Tree, fresh: bool) -> bool
    decreases tree,
{
    match tree.kind {
        Kind::List => true,
        Kind::Heading => true,
        Kind::CodeBlock { .. } => true,
        Kind::Code(_) => fresh || any_opens_block(tree.children, false),
        Kind::Text(_) => fresh || any_opens_block(tree.children, false),
        Kind::Item => any_opens_block(tree.children, false),
        Kind::Other => any_opens_block(tree.children, fresh),
    }
}

/// Whether the converter is fresh after the walk over `tree`: it is after
/// every node but inline content, which leaves it as its children left it.
pub open spec fn fresh_after(tree: Tree, fresh: bool) -> bool
    decreases tree,
{
    match tree.kind {
        Kind::Code(_) => fresh_after_all(tree.children, false),
        Kind::Text(_) => fresh_after_all(tree.children, false),
        _ => true,
    }
}

/// Whether the walk over one of `trees` opens a block.
pub open spec fn any_opens_block(trees: Seq<Tree>, fresh: bool) -> bool
    decreases trees,
{
    if trees.len() == 0 {
        false
    } else {
        any_opens_block(trees.drop_last(), fresh) || opens_block(
            trees.last(),
            fresh_after_all(trees.drop_last(), fresh),
        )
    }
}

/// Whether the converter is fresh after the walks over `trees`.
pub open spec fn fresh_after_all(trees: Seq<Tree>, fresh: bool) -> bool
    decreases trees,
{
    if trees.len() == 0 {
        fresh
    } else {
        fresh_after(trees.last(), fresh_after_all(trees.drop_last(), fresh))
    }
}

/// Whether `tree` holds no list and no list item.
pub open spec fn list_free(tree: Tree) -> bool
    decreases tree,
{
    &&& !(tree.kind is List)
    &&& !(tree.kind is Item)
    &&& forall|i: int| 0 <= i < tree.children.len() ==> list_free(#[trigger] tree.children[i])
}

/// Whether the list `tree` is plain: its children are list items, and no
/// item holds a list or an item.
pub open spec fn plain_list(tree: Tree) -> bool {
    &&& forall|i: int|
        0 <= i < tree.children.len() ==> (#[trigger] tree.children[i]).kind is Item
    &&& forall|i: int, j: int|
        0 <= i < tree.children.len() && 0 <= j < tree.children[i].children.len() ==> list_free(
            #[trigger] tree.children[i].children[j],
        )
}

/// Whether the list `tree` is flat: it is plain, and no block opens in an
/// item but the last.
pub open spec fn flat_list(tree: Tree) -> bool {
    &&& plain_list(tree)
    &&& forall|i: int|
        0 <= i < tree.children.len() - 1 ==> !opens_block(#[trigger] tree.children[i], false)
}

/// Whether the lists of `tree` are plain and its list items are the
/// children of its lists.
pub open spec fn plain(tree: Tree) -> bool
    decreases tree,
{
    if tree.kind is List {
        plain_list(tree)
    } else {
        &&& !(tree.kind is Item)
        &&& forall|i: int| 0 <= i < tree.children.len() ==> plain(#[trigger] tree.children[i])
    }
}

/// Whether the lists of `tree` are flat and its list items are the children
/// of its lists.
pub open spec fn flat(tree: Tree) -> bool
    decreases tree,
{
    if tree.kind is List {
        flat_list(tree)
    } else {
        &&& !(tree.kind is Item)
        &&& forall|i: int| 0 <= i < tree.children.len() ==> flat(#[trigger] tree.children[i])
    }
}

/// Whether `tree` has the shape of the tree of a document: the children of a
/// list are list items, and no other node has a list item as a child.
pub open spec fn well_formed(tree: Tree) -> bool
    decreases tree,
{
    &&& forall|i: int|
        0 <= i < tree.children.len() ==> ((#[trigger] tree.children[i]).kind is Item
            <==> tree.kind is List)
    &&& forall|i: int|
        0 <= i < tree.children.len() ==> well_formed(#[trigger] tree.children[i])
}

/// Whether a block opens in one of the first `n` of `items`.
pub open spec fn blocked(items: Seq<Tree>, n: nat) -> bool
    decreases n,
{
    n > 0 && (blocked(items, (n - 1) as nat) || opens_block(items[n - 1], false))
}

/// How many of the first `n` of `items` come before a block has opened in
/// one of them, that one counted: the items that reach the block of their
/// list.
pub open spec fn reaching(items: Seq<Tree>, n: nat) -> nat
    decreases n,
{
    if n == 0 {
        0
    } else if blocked(items, (n - 1) as nat) {
        reaching(items, (n - 1) as nat)
    } else {
        reaching(items, (n - 1) as nat) + 1
    }
}

/// The number of items that the block of each list of `tree` gets, if the
/// lists of `tree` are plain.
pub open spec fn made_lists(tree: Tree) -> Seq<nat>
    decreases tree,
{
    if tree.kind is List {
        seq![reaching(tree.children, tree.children.len())]
    } else {
        made_lists_all(tree.children)
    }
}

/// The number of items that the block of each list of `trees` gets.
pub open spec fn made_lists_all(trees: Seq<Tree>) -> Seq<nat>
    decreases trees,
{
    if trees.len() == 0 {
        Seq::empty()
    } else {
        made_lists_all(trees.drop_last()) + made_lists(trees.last())
    }
}

/// The number of items of the last block, if that is a list.
pub open spec fn open_list_size(blocks: Seq<Block>) -> Option<nat> {
    if blocks.len() > 0 && blocks.last() is Bullets {
        Some(blocks.last()->Bullets_0.len())
    } else {
        None
    }
}

/// The number of lists that the walk `events` enters.
pub open spec fn lists_entered(events: Seq<Event>) -> nat
    decreases events.len(),
{
    if events.len() == 0 {
        0
    } else if events.last() == Event::Enter(Kind::List) {
        lists_entered(events.drop_last()) + 1
    } else {
        lists_entered(events.drop_last())
    }
}

/// Inline content changes neither the number of list blocks nor the number
/// of items of any. Written into the last block, it leaves that block the
/// last one; in a paragraph of its own, it leaves a paragraph the last one.
proof fn lemma_inline_keeps_lists(c: Conversion, piece: Seq<char>)
    ensures
        bullet_sizes(after_inline(c, piece).blocks) == bullet_sizes(c.blocks),
        !c.fresh ==> open_list_size(after_inline(c, piece).blocks) == open_list_size(c.blocks),
        c.fresh ==> open_list_size(after_inline(c, piece).blocks) is None,
{
    let after = after_inline(c, piece).blocks;
    if c.fresh {
        assert(after.drop_last() =~= c.blocks);
    } else if c.blocks.len() > 0 {
        assert(after.drop_last() =~= c.blocks.drop_last());
    }
}

/// No event but the step into a list or into a list item changes the number
/// of list blocks or the number of items of any.
proof fn lemma_step_keeps_lists(c: Conversion, event: Event)
    requires
        event != Event::Enter(Kind::List),
        event != Event::Enter(Kind::Item),
    ensures
        bullet_sizes(step(c, event).blocks) == bullet_sizes(c.blocks),
{
    let after = step(c, event).blocks;
    match event {
        Event::Enter(Kind::Heading) => {
            assert(after.drop_last() =~= c.blocks);
        },
        Event::Enter(Kind::CodeBlock { info, literal }) => {
            assert(after.drop_last() =~= c.blocks);
        },
        Event::Enter(Kind::Code(literal)) => {
            lemma_inline_keeps_lists(c, code_span(literal));
        },
        Event::Enter(Kind::Text(text)) => {
            lemma_inline_keeps_lists(c, text);
        },
        _ => {},
    }
}

/// The step into a list item changes the items of the last block, if that
/// is a list, and nothing else.
proof fn lemma_item_step(blocks: Seq<Block>)
    ensures
        bullet_sizes(with_item(blocks)).len() == bullet_sizes(blocks).len(),
        open_list_size(blocks) is None ==> with_item(blocks) == blocks,
        open_list_size(blocks) is Some ==> open_list_size(with_item(blocks)) == Some(
            open_list_size(blocks)->Some_0 + 1,
        ) && bullet_sizes(with_item(blocks)) == bullet_sizes(blocks).drop_last().push(
            open_list_size(blocks)->Some_0 + 1,
        ) && bullet_sizes(blocks).len() > 0 && bullet_sizes(blocks).last() == open_list_size(
            blocks,
        )->Some_0,
{
    if open_list_size(blocks) is Some {
        assert(with_item(blocks).drop_last() =~= blocks.drop_last());
    }
}

/// The walk over a tree without lists and list items changes neither the
/// number of list blocks nor the number of items of any. Where no block
/// opens in it, the last block stays the last; where one opens, the last
/// block is no list block afterwards.
proof fn lemma_list_free_keeps_lists(c: Conversion, tree: Tree)
    requires
        list_free(tree),
    ensures
        bullet_sizes(run_from(c, walk(tree)).blocks) == bullet_sizes(c.blocks),
        run_from(c, walk(tree)).fresh == fresh_after(tree, c.fresh),
        !opens_block(tree, c.fresh) ==> open_list_size(run_from(c, walk(tree)).blocks)
            == open_list_size(c.blocks),
        opens_block(tree, c.fresh) ==> open_list_size(run_from(c, walk(tree)).blocks) is None,
    decreases tree,
{
    lemma_run_over_node(c, tree);
    lemma_step_keeps_lists(c, Event::Enter(tree.kind));
    lemma_all_list_free_keep_lists(step(c, Event::Enter(tree.kind)), tree.children);
}

/// The walks over trees without lists and list items change neither the
/// number of list blocks nor the number of items of any.
proof fn lemma_all_list_free_keep_lists(c: Conversion, trees: Seq<Tree>)
    requires
        forall|i: int| 0 <= i < trees.len() ==> list_free(#[trigger] trees[i]),
    ensures
        bullet_sizes(run_from(c, walk_all(trees)).blocks) == bullet_sizes(c.blocks),
        run_from(c, walk_all(trees)).fresh == fresh_after_all(trees, c.fresh),
        !any_opens_block(trees, c.fresh) ==> open_list_size(run_from(c, walk_all(trees)).blocks)
            == open_list_size(c.blocks),
        any_opens_block(trees, c.fresh) ==> open_list_size(run_from(c, walk_all(trees)).blocks)
            is None,
    decreases trees,
{
    if trees.len() > 0 {
        let before = trees.drop_last();
        lemma_all_list_free_keep_lists(c, before);
        lemma_run_over_last(c, trees);
        lemma_list_free_keeps_lists(run_from(c, walk_all(before)), trees.last());
    }
}

/// The converter in a plain list, after its first `n` items: the block of
/// the list has the items that reached it, and it is still the last block
/// if no block has opened in those items.
proof fn lemma_plain_list_items(c: Conversion, tree: Tree, n: nat)
    requires
        tree.kind is List,
        plain_list(tree),
        n <= tree.children.len(),
    ensures
        bullet_sizes(
            run_from(
                step(c, Event::Enter(Kind::List)),
                walk_all(tree.children.take(n as int)),
            ).blocks,
        ) == bullet_sizes(c.blocks).push(reaching(tree.children, n)),
        open_list_size(
            run_from(
                step(c, Event::Enter(Kind::List)),
                walk_all(tree.children.take(n as int)),
            ).blocks,
        ) == if blocked(tree.children, n) {
            None
        } else {
            Some(n)
        },
        !blocked(tree.children, n) ==> reaching(tree.children, n) == n,
    decreases n,
{
    let entered = step(c, Event::Enter(Kind::List));
    let taken = tree.children.take(n as int);
    if n == 0 {
        assert(entered.blocks.drop_last() =~= c.blocks);
    } else {
        let before = tree.children.take(n - 1);
        let item = tree.children[n - 1];
        assert(taken.drop_last() =~= before);
        lemma_plain_list_items(c, tree, (n - 1) as nat);
        let met = run_from(entered, walk_all(before));
        lemma_run_over_last(entered, taken);
        lemma_run_over_node(met, item);
        lemma_item_step(met.blocks);
        lemma_all_list_free_keep_lists(step(met, Event::Enter(Kind::Item)), item.children);
    }
}

/// The walk over a plain list adds one list block, with the items that
/// reach it.
proof fn lemma_plain_list_is_one_block(c: Conversion, tree: Tree)
    requires
        tree.kind is List,
        plain_list(tree),
    ensures
        bullet_sizes(run_from(c, walk(tree)).blocks) == bullet_sizes(c.blocks) + made_lists(tree),
{
    let n = tree.children.len();
    lemma_run_over_node(c, tree);
    lemma_plain_list_items(c, tree, n);
    assert(tree.children.take(n as int) =~= tree.children);
}

/// The walk over a tree with plain lists adds one list block for each list,
/// with the items that reach it.
proof fn lemma_plain_tree_adds_its_lists(c: Conversion, tree: Tree)
    requires
        plain(tree),
    ensures
        bullet_sizes(run_from(c, walk(tree)).blocks) == bullet_sizes(c.blocks) + made_lists(tree),
    decreases tree,
{
    if tree.kind is List {
        lemma_plain_list_is_one_block(c, tree);
    } else {
        lemma_run_over_node(c, tree);
        lemma_step_keeps_lists(c, Event::Enter(tree.kind));
        lemma_plain_trees_add_their_lists(step(c, Event::Enter(tree.kind)), tree.children);
    }
}

/// The walks over trees with plain lists add one list block for each list.
proof fn lemma_plain_trees_add_their_lists(c: Conversion, trees: Seq<Tree>)
    requires
        forall|i: int| 0 <= i < trees.len() ==> plain(#[trigger] trees[i]),
    ensures
        bullet_sizes(run_from(c, walk_all(trees)).blocks) == bullet_sizes(c.blocks)
            + made_lists_all(trees),
    decreases trees,
{
    if trees.len() > 0 {
        let before = trees.drop_last();
        lemma_plain_trees_add_their_lists(c, before);
        lemma_run_over_last(c, trees);
        lemma_plain_tree_adds_its_lists(run_from(c, walk_all(before)), trees.last());
    }
}

/// Every item reaches the block of its list if and only if no block opens in
/// an item but the last.
proof fn lemma_all_reach(items: Seq<Tree>, n: nat)
    requires
        n <= items.len(),
    ensures
        reaching(items, n) <= n,
        !blocked(items, n) <==> forall|i: int|
            0 <= i < n ==> !opens_block(#[trigger] items[i], false),
        reaching(items, n) == n <==> n == 0 || !blocked(items, (n - 1) as nat),
    decreases n,
{
    if n > 0 {
        lemma_all_reach(items, (n - 1) as nat);
    }
}

/// As many of `items` as there are, so many list items are among them, if
/// they all are list items.
proof fn lemma_items_counted(items: Seq<Tree>)
    requires
        forall|i: int| 0 <= i < items.len() ==> (#[trigger] items[i]).kind is Item,
    ensures
        items_among(items) == items.len(),
    decreases items.len(),
{
    if items.len() > 0 {
        lemma_items_counted(items.drop_last());
    }
}

/// In a tree with plain lists, each list has one entry among the lists made
/// and one among the lists of the tree; the entries agree if and only if the
/// lists are flat.
proof fn lemma_made_is_all_iff_flat(tree: Tree)
    requires
        plain(tree),
    ensures
        made_lists(tree).len() == top_lists(tree).len(),
        made_lists(tree) == top_lists(tree) <==> flat(tree),
    decreases tree,
{
    if tree.kind is List {
        let n = tree.children.len();
        lemma_items_counted(tree.children);
        if n > 0 {
            lemma_all_reach(tree.children, (n - 1) as nat);
        }
        assert(top_lists(tree)[0] == n);
    } else {
        lemma_made_are_all_iff_flat(tree.children);
    }
}

/// In trees with plain lists, the lists made are the lists of the trees if
/// and only if the lists of each tree are flat.
proof fn lemma_made_are_all_iff_flat(trees: Seq<Tree>)
    requires
        forall|i: int| 0 <= i < trees.len() ==> plain(#[trigger] trees[i]),
    ensures
        made_lists_all(trees).len() == top_lists_all(trees).len(),
        made_lists_all(trees) == top_lists_all(trees) <==> forall|i: int|
            0 <= i < trees.len() ==> flat(#[trigger] trees[i]),
    decreases trees,
{
    if trees.len() > 0 {
        let before = trees.drop_last();
        let last = trees.last();
        lemma_made_are_all_iff_flat(before);
        lemma_made_is_all_iff_flat(last);
        let made = made_lists_all(before);
        let all = top_lists_all(before);
        if made_lists_all(trees) == top_lists_all(trees) {
            assert(made =~= (made + made_lists(last)).take(made.len() as int));
            assert(all =~= (all + top_lists(last)).take(all.len() as int));
            assert(made_lists(last) =~= (made + made_lists(last)).skip(made.len() as int));
            assert(top_lists(last) =~= (all + top_lists(last)).skip(all.len() as int));
            assert forall|i: int| 0 <= i < trees.len() implies flat(#[trigger] trees[i]) by {
                if i < before.len() {
                    assert(trees[i] == before[i]);
                }
            }
        }
    }
}

/// A tree whose lists are flat has plain lists.
proof fn lemma_flat_is_plain(tree: Tree)
    requires
        flat(tree),
    ensures
        plain(tree),
    decreases tree,
{
    if !(tree.kind is List) {
        assert forall|i: int| 0 <= i < tree.children.len() implies plain(
            #[trigger] tree.children[i],
        ) by {
            lemma_flat_is_plain(tree.children[i]);
        }
    }
}

/// The walk over any tree adds one list block for each list of the tree.
pub proof fn lemma_tree_adds_a_block_for_each_list(c: Conversion, tree: Tree)
    ensures
        bullet_sizes(run_from(c, walk(tree)).blocks).len() == bullet_sizes(c.blocks).len()
            + lists_in(tree),
    decreases tree,
{
    let entered = step(c, Event::Enter(tree.kind));
    lemma_run_over_node(c, tree);
    lemma_trees_add_a_block_for_each_list(entered, tree.children);
    if tree.kind is List {
        assert(entered.blocks.drop_last() =~= c.blocks);
    } else if tree.kind is Item {
        lemma_item_step(c.blocks);
    } else {
        lemma_step_keeps_lists(c, Event::Enter(tree.kind));
    }
}

/// The walks over any trees add one list block for each list of the trees.
pub proof fn lemma_trees_add_a_block_for_each_list(c: Conversion, trees: Seq<Tree>)
    ensures
        bullet_sizes(run_from(c, walk_all(trees)).blocks).len() == bullet_sizes(c.blocks).len()
            + lists_in_all(trees),
    decreases trees,
{
    if trees.len() > 0 {
        lemma_trees_add_a_block_for_each_list(c, trees.drop_last());
        lemma_run_over_last(c, trees);
        lemma_tree_adds_a_block_for_each_list(
            run_from(c, walk_all(trees.drop_last())),
            trees.last(),
        );
    }
}

/// A tree has no more lists outside other lists than it has lists. Where it
/// has as many, and has the shape of the tree of a document, its lists are
/// plain.
proof fn lemma_unnested_is_plain(tree: Tree)
    requires
        well_formed(tree),
        !(tree.kind is Item),
    ensures
        top_lists(tree).len() <= lists_in(tree),
        top_lists(tree).len() == lists_in(tree) ==> plain(tree),
    decreases tree,
{
    lemma_unnested_are_plain(tree.children);
    if tree.kind is List {
        if lists_in_all(tree.children) == 0 {
            assert forall|i: int, j: int|
                0 <= i < tree.children.len() && 0 <= j < tree.children[i].children.len()
                implies list_free(#[trigger] tree.children[i].children[j]) by {
                let item = tree.children[i];
                lemma_no_lists_in_any(tree.children, i);
                assert(well_formed(item));
                lemma_no_lists_in_any(item.children, j);
                lemma_listless_is_list_free(item.children[j]);
            }
        }
    } else {
        lemma_top_lists_bounded(tree.children);
        if top_lists(tree).len() == lists_in(tree) {
            assert forall|i: int| 0 <= i < tree.children.len() implies plain(
                #[trigger] tree.children[i],
            ) by {
                lemma_unnested_each(tree.children, i);
            }
        }
    }
}

/// Trees have no more lists outside other lists than they have lists.
proof fn lemma_unnested_are_plain(trees: Seq<Tree>)
    requires
        forall|i: int| 0 <= i < trees.len() ==> well_formed(#[trigger] trees[i]),
    ensures
        forall|i: int|
            0 <= i < trees.len() && !((#[trigger] trees[i]).kind is Item) ==> top_lists(
                trees[i],
            ).len() <= lists_in(trees[i]),
        forall|i: int|
            0 <= i < trees.len() && !((#[trigger] trees[i]).kind is Item) && top_lists(
                trees[i],
            ).len() == lists_in(trees[i]) ==> plain(trees[i]),
    decreases trees,
{
    assert forall|i: int| 0 <= i < trees.len() && !((#[trigger] trees[i]).kind is Item) implies {
        &&& top_lists(trees[i]).len() <= lists_in(trees[i])
        &&& top_lists(trees[i]).len() == lists_in(trees[i]) ==> plain(trees[i])
    } by {
        lemma_unnested_is_plain(trees[i]);
    }
}

/// Where trees that are no list items have as many lists outside other
/// lists as they have lists, each of them has.
proof fn lemma_unnested_each(trees: Seq<Tree>, i: int)
    requires
        0 <= i < trees.len(),
        forall|j: int|
            0 <= j < trees.len() ==> top_lists(#[trigger] trees[j]).len() <= lists_in(trees[j]),
        top_lists_all(trees).len() == lists_in_all(trees),
    ensures
        top_lists(trees[i]).len() == lists_in(trees[i]),
    decreases trees.len(),
{
    let before = trees.drop_last();
    lemma_top_lists_bounded(before);
    if i < before.len() {
        lemma_unnested_each(before, i);
    }
}

/// Trees of which each has no more lists outside other lists than it has
/// lists have no more together.
proof fn lemma_top_lists_bounded(trees: Seq<Tree>)
    requires
        forall|j: int|
            0 <= j < trees.len() ==> top_lists(#[trigger] trees[j]).len() <= lists_in(trees[j]),
    ensures
        top_lists_all(trees).len() <= lists_in_all(trees),
    decreases trees.len(),
{
    if trees.len() > 0 {
        let before = trees.drop_last();
        lemma_top_lists_bounded(before);
    }
}

/// Where trees hold no list, none of them does.
proof fn lemma_no_lists_in_any(trees: Seq<Tree>, i: int)
    requires
        0 <= i < trees.len(),
        lists_in_all(trees) == 0,
    ensures
        lists_in(trees[i]) == 0,
    decreases trees.len(),
{
    if i < trees.len() - 1 {
        lemma_no_lists_in_any(trees.drop_last(), i);
    }
}

/// A tree of the shape of a document's that holds no list and is no list
/// item holds no list item either.
proof fn lemma_listless_is_list_free(tree: Tree)
    requires
        well_formed(tree),
        lists_in(tree) == 0,
        !(tree.kind is Item),
    ensures
        list_free(tree),
    decreases tree,
{
    assert forall|i: int| 0 <= i < tree.children.len() implies list_free(
        #[trigger] tree.children[i],
    ) by {
        lemma_no_lists_in_any(tree.children, i);
        lemma_listless_is_list_free(tree.children[i]);
    }
}

/// In a tree whose lists are flat, the list blocks are the lists of the tree:
/// there is one list block for each list, in the order of the document, and
/// it has as many items as its list.
pub proof fn lemma_list_blocks_are_the_lists(tree: Tree)
    requires
        flat(tree),
    ensures
        bullet_sizes(blocks_of(walk(tree))) == top_lists(tree),
{
    lemma_flat_is_plain(tree);
    lemma_plain_tree_adds_its_lists(start(), tree);
    lemma_made_is_all_iff_flat(tree);
}

/// Among the trees of documents, only those whose lists are flat have list
/// blocks that are their lists: in the others a list lies in a list, or a
/// block opens in a list item that is not the last of its list.
pub proof fn lemma_only_flat_lists_are_kept(tree: Tree)
    requires
        well_formed(tree),
        !(tree.kind is Item),
        bullet_sizes(blocks_of(walk(tree))) == top_lists(tree),
    ensures
        flat(tree),
{
    lemma_tree_adds_a_block_for_each_list(start(), tree);
    lemma_unnested_is_plain(tree);
    lemma_plain_tree_adds_its_lists(start(), tree);
    lemma_made_is_all_iff_flat(tree);
}

/// Whatever the tree, there are as many list blocks as the tree has lists,
/// those inside other lists too: flat or not, each list has a block of its
/// own.
pub proof fn lemma_as_many_list_blocks_as_lists(tree: Tree)
    ensures
        bullet_sizes(blocks_of(walk(tree))).len() == lists_in(tree),
{
    lemma_tree_adds_a_block_for_each_list(start(), tree);
}

/// Whatever the walk, there is one list block for each list that it enters,
/// nested or not.
pub proof fn lemma_one_list_block_for_each_list(events: Seq<Event>)
    ensures
        bullet_sizes(blocks_of(events)).len() == lists_entered(events),
    decreases events.len(),
{
    if events.len() > 0 {
        let before = after_events(events.drop_last());
        lemma_one_list_block_for_each_list(events.drop_last());
        if events.last() == Event::Enter(Kind::List) {
            assert(step(before, events.last()).blocks.drop_last() =~= before.blocks);
        } else if events.last() == Event::Enter(Kind::Item) {
            lemma_item_step(before.blocks);
        } else {
            lemma_step_keeps_lists(before, events.last());
        }
    }
}

} // verus!
