//! Putting numbered blocks of data in order.

use vstd::prelude::*;

verus! {

/// A block with its number.
pub type Block = (u32, Seq<u8>);

/// What numbered blocks say.
pub open spec fn blocks_view(blocks: Seq<(u32, Vec<u8>)>) -> Seq<Block> {
    blocks.map_values(|block: (u32, Vec<u8>)| (block.0, block.1@))
}

/// A block put behind all blocks whose number is not greater.
pub open spec fn inserted(sorted: Seq<Block>, block: Block) -> Seq<Block>
    decreases sorted.len(),
{
    if sorted.len() == 0 || sorted.last().0 <= block.0 {
        sorted.push(block)
    } else {
        inserted(sorted.drop_last(), block).push(sorted.last())
    }
}

/// Blocks in the order of their numbers; blocks with the same number stay in the order
/// in which they came.
pub open spec fn in_order(blocks: Seq<Block>) -> Seq<Block>
    decreases blocks.len(),
{
    if blocks.len() == 0 {
        seq![]
    } else {
        inserted(in_order(blocks.drop_last()), blocks.last())
    }
}

/// The data of blocks, one after the other.
pub open spec fn data_of(blocks: Seq<Block>) -> Seq<u8>
    decreases blocks.len(),
{
    if blocks.len() == 0 {
        seq![]
    } else {
        data_of(blocks.drop_last()) + blocks.last().1
    }
}

/// Whether numbers do not decrease.
pub open spec fn is_ordered(blocks: Seq<Block>) -> bool {
    forall|i: int, j: int|
        0 <= i <= j < blocks.len() ==> (#[trigger] blocks[i]).0 <= (#[trigger] blocks[j]).0
}

proof fn lemma_inserted_at(sorted: Seq<Block>, block: Block, at: int)
    requires
        0 <= at <= sorted.len(),
        at > 0 ==> sorted[at - 1].0 <= block.0,
        forall|i: int| at <= i < sorted.len() ==> (#[trigger] sorted[i]).0 > block.0,
    ensures
        inserted(sorted, block) == sorted.insert(at, block),
    decreases sorted.len(),
{
    if at == sorted.len() {
        assert(sorted.insert(at, block) =~= sorted.push(block));
    } else {
        assert(sorted[sorted.len() - 1].0 > block.0);
        lemma_inserted_at(sorted.drop_last(), block, at);
        assert(sorted.insert(at, block) =~= sorted.drop_last().insert(at, block).push(
            sorted.last(),
        ));
    }
}

/// Put blocks in the order of their numbers.
pub fn sort_blocks(blocks: Vec<(u32, Vec<u8>)>) -> (sorted: Vec<(u32, Vec<u8>)>)
    ensures
        blocks_view(sorted@) == in_order(blocks_view(blocks@)),
{
    let ghost all = blocks_view(blocks@);
    let ghost taken = blocks@;
    let mut rest = blocks;
    let mut sorted: Vec<(u32, Vec<u8>)> = Vec::new();
    let ghost mut n: int = 0;
    assert(all.take(0) =~= seq![]);
    assert(blocks_view(sorted@) =~= seq![]);
    while rest.len() > 0
        invariant
            0 <= n <= taken.len(),
            all == blocks_view(taken),
            rest@ == taken.skip(n),
            blocks_view(sorted@) == in_order(all.take(n)),
        decreases rest.len(),
    {
        let block = rest.remove(0);
        let ghost view = (block.0, block.1@);
        let ghost before = blocks_view(sorted@);
        let mut at: usize = sorted.len();
        while at > 0 && sorted[at - 1].0 > block.0
            invariant
                at <= sorted.len(),
                before == blocks_view(sorted@),
                view == (block.0, block.1@),
                forall|i: int| at <= i < sorted.len() ==> (#[trigger] before[i]).0 > view.0,
            decreases at,
        {
            assert(before[at - 1].0 == sorted@[at - 1].0);
            at = at - 1;
        }
        proof {
            assert(at > 0 ==> before[at - 1].0 == sorted@[at - 1].0);
            lemma_inserted_at(before, view, at as int);
            assert(all[n] == view);
            assert(all.take(n + 1).drop_last() =~= all.take(n));
            assert(all.take(n + 1).last() == view);
            assert(taken.skip(n).remove(0) =~= taken.skip(n + 1));
            n = n + 1;
        }
        sorted.insert(at, block);
        assert(blocks_view(sorted@) =~= before.insert(at as int, view));
    }
    assert(all.take(n) =~= all);
    sorted
}

/// The data of blocks in the order of their numbers.
pub fn collate(blocks: Vec<(u32, Vec<u8>)>) -> (data: Vec<u8>)
    ensures
        data@ == data_of(in_order(blocks_view(blocks@))),
{
    let sorted = sort_blocks(blocks);
    let ghost views = blocks_view(sorted@);
    let mut data: Vec<u8> = Vec::new();
    let mut i: usize = 0;
    assert(data@ =~= data_of(views.take(0)));
    while i < sorted.len()
        invariant
            0 <= i <= sorted.len(),
            views == blocks_view(sorted@),
            data@ == data_of(views.take(i as int)),
        decreases sorted.len() - i,
    {
        data.extend_from_slice(sorted[i].1.as_slice());
        assert(views.take(i + 1).drop_last() =~= views.take(i as int));
        assert(views.take(i + 1).last() == views[i as int]);
        i = i + 1;
    }
    assert(views.take(i as int) =~= views);
    data
}

proof fn lemma_inserted(sorted: Seq<Block>, block: Block)
    requires
        is_ordered(sorted),
    ensures
        is_ordered(inserted(sorted, block)),
        inserted(sorted, block).to_multiset() == sorted.to_multiset().insert(block),
        inserted(sorted, block).len() == sorted.len() + 1,
        inserted(sorted, block).last().0 == if sorted.len() > 0 && sorted.last().0 > block.0 {
            sorted.last().0
        } else {
            block.0
        },
    decreases sorted.len(),
{
    broadcast use vstd::seq_lib::group_to_multiset_ensures;

    let all = inserted(sorted, block);
    if sorted.len() == 0 || sorted.last().0 <= block.0 {
        assert forall|i: int, j: int| 0 <= i <= j < all.len() implies (#[trigger] all[i]).0 <= (
        #[trigger] all[j]).0 by {
            if j == sorted.len() && i < j {
                assert(sorted[i].0 <= sorted[sorted.len() - 1].0);
            }
        }
    } else {
        let head = sorted.drop_last();
        assert(is_ordered(head));
        lemma_inserted(head, block);
        let rest = inserted(head, block);
        assert forall|i: int, j: int| 0 <= i <= j < all.len() implies (#[trigger] all[i]).0 <= (
        #[trigger] all[j]).0 by {
            if j == rest.len() && i < j {
                assert(rest[i].0 <= rest[rest.len() - 1].0);
                if head.len() > 0 {
                    assert(sorted[head.len() - 1].0 <= sorted[sorted.len() - 1].0);
                }
            }
        }
        assert(sorted =~= head.push(sorted.last()));
        assert(all.to_multiset() =~= sorted.to_multiset().insert(block));
    }
}

/// Putting blocks in order gives the same blocks, in the order of their numbers.
pub proof fn in_order_is_ordered(blocks: Seq<Block>)
    ensures
        is_ordered(in_order(blocks)),
        in_order(blocks).to_multiset() == blocks.to_multiset(),
        in_order(blocks).len() == blocks.len(),
    decreases blocks.len(),
{
    broadcast use vstd::seq_lib::group_to_multiset_ensures;

    if blocks.len() == 0 {
        assert(blocks =~= seq![]);
    } else {
        in_order_is_ordered(blocks.drop_last());
        lemma_inserted(in_order(blocks.drop_last()), blocks.last());
        assert(blocks =~= blocks.drop_last().push(blocks.last()));
    }
}

/// Blocks with a number, in the order in which they come.
pub open spec fn with_number(blocks: Seq<Block>, number: u32) -> Seq<Block>
    decreases blocks.len(),
{
    if blocks.len() == 0 {
        seq![]
    } else if blocks.last().0 == number {
        with_number(blocks.drop_last(), number).push(blocks.last())
    } else {
        with_number(blocks.drop_last(), number)
    }
}

proof fn lemma_inserted_number(sorted: Seq<Block>, block: Block, number: u32)
    ensures
        with_number(inserted(sorted, block), number) == if block.0 == number {
            with_number(sorted, number).push(block)
        } else {
            with_number(sorted, number)
        },
    decreases sorted.len(),
{
    let all = inserted(sorted, block);
    assert(all.drop_last() =~= if sorted.len() == 0 || sorted.last().0 <= block.0 {
        sorted
    } else {
        inserted(sorted.drop_last(), block)
    });
    if !(sorted.len() == 0 || sorted.last().0 <= block.0) {
        lemma_inserted_number(sorted.drop_last(), block, number);
    }
}

/// Blocks with the same number stay in the order in which they came.
pub proof fn in_order_is_stable(blocks: Seq<Block>, number: u32)
    ensures
        with_number(in_order(blocks), number) == with_number(blocks, number),
    decreases blocks.len(),
{
    if blocks.len() > 0 {
        in_order_is_stable(blocks.drop_last(), number);
        lemma_inserted_number(in_order(blocks.drop_last()), blocks.last(), number);
    }
}

/// Whether numbers increase.
pub open spec fn is_increasing(blocks: Seq<Block>) -> bool {
    forall|i: int, j: int|
        0 <= i < j < blocks.len() ==> (#[trigger] blocks[i]).0 < (#[trigger] blocks[j]).0
}

proof fn lemma_same_order(a: Seq<Block>, b: Seq<Block>)
    requires
        is_ordered(a),
        is_increasing(b),
        a.to_multiset() == b.to_multiset(),
    ensures
        a == b,
    decreases b.len(),
{
    broadcast use vstd::seq_lib::group_to_multiset_ensures;

    a.to_multiset_ensures();
    b.to_multiset_ensures();
    assert(a.len() == b.len());
    if b.len() == 0 {
        assert(a =~= b);
    } else {
        let x = a.last();
        let y = b.last();
        assert(a[a.len() - 1] == x && b[b.len() - 1] == y);
        assert(a.to_multiset().count(x) > 0);
        assert(b.to_multiset().count(y) > 0);
        assert(b.contains(x));
        assert(a.contains(y));
        let i = choose|i: int| 0 <= i < b.len() && b[i] == x;
        let j = choose|j: int| 0 <= j < a.len() && a[j] == y;
        assert(a[j].0 <= a[a.len() - 1].0);
        assert(i < b.len() - 1 ==> b[i].0 < b[b.len() - 1].0);
        assert(x == y);
        assert(a =~= a.drop_last().push(x));
        assert(b =~= b.drop_last().push(x));
        assert(a.drop_last().to_multiset() =~= a.to_multiset().remove(x));
        assert(b.drop_last().to_multiset() =~= b.to_multiset().remove(x));
        lemma_same_order(a.drop_last(), b.drop_last());
    }
}

/// Blocks with increasing numbers come back in their order however they are shuffled.
pub proof fn shuffled_blocks_collate(blocks: Seq<Block>, ordered: Seq<Block>)
    requires
        is_increasing(ordered),
        blocks.to_multiset() == ordered.to_multiset(),
    ensures
        in_order(blocks) == ordered,
        data_of(in_order(blocks)) == data_of(ordered),
{
    in_order_is_ordered(blocks);
    lemma_same_order(in_order(blocks), ordered);
}

} // verus!
