//! From the linear buffer of a function to its control-flow graph: the
//! buffer is cut into blocks, the function is checked to return on every
//! path, and blocks that nothing leads to are dropped.

use crate::ast::Span;
use crate::ir::builder::error::{plain_error, ErrorKind, SyntaxError, SyntaxErrorView};
use crate::ir::builder::function::{BuilderState, FunctionBuilder, Item, ItemView};
use crate::ir::{
    models, BasicBlock, BasicBlockId, BasicBlockView, Declaration, DeclarationView, Statement,
    StatementView, Terminator, TerminatorView,
};
use std::collections::{HashMap, HashSet};
use vstd::prelude::*;

verus! {

/// A block as the buffer gives it. The last block of a buffer has no
/// terminator: control that reaches its end falls off the function.
pub struct RawBlock {
    pub id: nat,
    pub stmts: Seq<StatementView>,
    pub terminator: Option<TerminatorView>,
}

/// The blocks of the buffer from position `from` on, where the block `id` is
/// open and holds `stmts` so far. A boundary closes the open block, with a
/// jump to the label that follows where it names no terminator, and opens
/// the block of its label. The block left open at the end has no terminator.
pub open spec fn split_from(items: Seq<ItemView>, from: int, id: nat, stmts: Seq<StatementView>) -> Seq<
    RawBlock,
>
    decreases items.len() - from,
{
    if 0 <= from < items.len() {
        match items[from] {
            ItemView::Statement(stmt) => split_from(items, from + 1, id, stmts.push(stmt)),
            ItemView::TerminatorAndLabel(terminator, label) => seq![
                RawBlock {
                    id,
                    stmts,
                    terminator: Some(
                        match terminator {
                            Some(t) => t,
                            None => TerminatorView::Br(label),
                        },
                    ),
                },
            ] + split_from(items, from + 1, label, Seq::empty()),
        }
    } else {
        seq![RawBlock { id, stmts, terminator: None }]
    }
}

/// The blocks of a buffer. The first has the label `0`: it is the entry of
/// the function.
pub open spec fn split(items: Seq<ItemView>) -> Seq<RawBlock> {
    split_from(items, 0, 0, Seq::empty())
}

impl RawBlock {
    /// Whether this block is labelled `from` and ends in a terminator that
    /// names `to`.
    pub open spec fn leads(self, from: nat, to: nat) -> bool {
        &&& self.id == from
        &&& self.terminator matches Some(t) && t.targets(to)
    }
}

/// Whether control can pass from the end of a block labelled `from` to the
/// block labelled `to`.
pub open spec fn edge(blocks: Seq<RawBlock>, from: nat, to: nat) -> bool {
    exists|k: int| 0 <= k < blocks.len() && (#[trigger] blocks[k]).leads(from, to)
}

/// Whether some block ends in a terminator that names `label`.
pub open spec fn has_predecessor(blocks: Seq<RawBlock>, label: nat) -> bool {
    exists|from: nat| edge(blocks, from, label)
}

/// Whether `path` is a walk through the graph: each label is followed by one
/// that control can pass to from it.
pub open spec fn is_path(blocks: Seq<RawBlock>, path: Seq<nat>) -> bool {
    &&& path.len() > 0
    &&& forall|i: int| 0 <= i < path.len() - 1 ==> edge(blocks, #[trigger] path[i], path[i + 1])
}

/// Whether control can get from the block labelled `from` to the block
/// labelled `to`, in any number of steps.
pub open spec fn reaches(blocks: Seq<RawBlock>, from: nat, to: nat) -> bool {
    exists|path: Seq<nat>| is_path(blocks, path) && path[0] == from && path.last() == to
}

/// The label of the block that is open at the end of the buffer.
pub open spec fn sentinel(blocks: Seq<RawBlock>) -> nat {
    blocks.last().id
}

/// Whether control that enters the function can fall off its end.
pub open spec fn falls_off(blocks: Seq<RawBlock>) -> bool {
    reaches(blocks, 0, sentinel(blocks))
}

/// Whether a block stays in the function: the entry does, and every block
/// that some terminator names.
pub open spec fn is_kept(blocks: Seq<RawBlock>, block: RawBlock) -> bool {
    block.id == 0 || has_predecessor(blocks, block.id)
}

/// A block of the buffer as a block of the function.
pub open spec fn finished(block: RawBlock) -> BasicBlockView {
    BasicBlockView { id: block.id, stmts: block.stmts, terminator: block.terminator->Some_0 }
}

/// The kept ones among the first `upto` blocks, in order.
pub open spec fn kept_blocks(blocks: Seq<RawBlock>, upto: int) -> Seq<BasicBlockView>
    decreases upto,
{
    if upto <= 0 {
        Seq::empty()
    } else if is_kept(blocks, blocks[upto - 1]) {
        kept_blocks(blocks, upto - 1).push(finished(blocks[upto - 1]))
    } else {
        kept_blocks(blocks, upto - 1)
    }
}

/// The blocks of the function that a buffer stands for: all but the one
/// left open at the end, less those that nothing leads to.
pub open spec fn basic_blocks(items: Seq<ItemView>) -> Seq<BasicBlockView> {
    kept_blocks(split(items), split(items).len() - 1)
}

/// Whether every label of the buffer is below `bound`, and `0` opens no
/// block but the first.
pub open spec fn labels_below(items: Seq<ItemView>, bound: nat) -> bool {
    &&& bound >= 1
    &&& forall|i: int| 0 <= i < items.len() ==> (#[trigger] items[i]).labels_below(bound)
}

/// Whether a block names only labels below `bound`.
pub open spec fn block_below(block: RawBlock, bound: nat) -> bool {
    &&& block.id < bound
    &&& block.terminator matches Some(t) ==> t.targets_below(bound)
}

/// The blocks of a buffer name only labels that the buffer names.
pub proof fn lemma_split_below(items: Seq<ItemView>, from: int, id: nat, stmts: Seq<StatementView>, bound: nat)
    requires
        labels_below(items, bound),
        id < bound,
        0 <= from <= items.len(),
    ensures
        split_from(items, from, id, stmts).len() >= 1,
        split_from(items, from, id, stmts).last().terminator is None,
        forall|k: int|
            0 <= k < split_from(items, from, id, stmts).len() ==> block_below(
                #[trigger] split_from(items, from, id, stmts)[k],
                bound,
            ),
        forall|k: int|
            0 <= k < split_from(items, from, id, stmts).len() - 1 ==> (#[trigger] split_from(
                items,
                from,
                id,
                stmts,
            )[k]).terminator is Some,
        forall|k: int|
            1 <= k < split_from(items, from, id, stmts).len() ==> (#[trigger] split_from(
                items,
                from,
                id,
                stmts,
            )[k]).id >= 1,
        split_from(items, from, id, stmts)[0].id == id,
    decreases items.len() - from,
{
    if from < items.len() {
        match items[from] {
            ItemView::Statement(stmt) => {
                lemma_split_below(items, from + 1, id, stmts.push(stmt), bound);
            },
            ItemView::TerminatorAndLabel(terminator, label) => {
                assert(items[from].labels_below(bound));
                lemma_split_below(items, from + 1, label, Seq::empty(), bound);
            },
        }
    }
}

/// Whether every block names only labels below `bound`.
pub open spec fn blocks_below(blocks: Seq<RawBlock>, bound: nat) -> bool {
    forall|k: int| 0 <= k < blocks.len() ==> block_below(#[trigger] blocks[k], bound)
}

/// The function that a finished lowering stands for: its name, its type,
/// its stack slots and its blocks. It is rejected where control that enters
/// it can fall off its end.
pub open spec fn function_of(s: BuilderState, span: Span) -> Result<DeclarationView, SyntaxErrorView> {
    if falls_off(split(s.items)) {
        Err(plain_error(ErrorKind::MissingReturn, "Not all paths return.", span))
    } else {
        Ok(
            DeclarationView::Function {
                name: s.name,
                ty: s.ty,
                locals: s.locals,
                bbs: basic_blocks(s.items),
            },
        )
    }
}

/// Whether `r` is the executable form of the outcome `expected`.
pub open spec fn declaration_is(
    r: Result<Declaration, SyntaxError>,
    expected: Result<DeclarationView, SyntaxErrorView>,
) -> bool {
    match r {
        Ok(decl) => expected == Ok::<DeclarationView, SyntaxErrorView>(decl@),
        Err(e) => expected == Err::<DeclarationView, SyntaxErrorView>(e@),
    }
}

/// A block while the graph is assembled.
struct TempBasicBlock {
    id: BasicBlockId,
    stmts: Vec<Statement>,
    terminator: Option<Terminator>,
}

impl View for TempBasicBlock {
    type V = RawBlock;

    closed spec fn view(&self) -> RawBlock {
        RawBlock {
            id: self.id@,
            stmts: models(self.stmts@),
            terminator: match self.terminator {
                Some(t) => Some(t@),
                None => None,
            },
        }
    }
}

/// Cuts the buffer into blocks.
fn split_items(items: Vec<Item>) -> (blocks: Vec<TempBasicBlock>)
    ensures
        models(blocks@) == split(models(items@)),
{
    let mut basic_blocks: Vec<TempBasicBlock> = Vec::new();
    let mut current_id = BasicBlockId(0);
    let mut current_stmts: Vec<Statement> = Vec::new();
    let ghost all = models(items@);
    assert(models(basic_blocks@) =~= Seq::empty());
    assert(models(current_stmts@) =~= Seq::empty());
    assert(Seq::<RawBlock>::empty() + split(all) =~= split(all));
    for item in it: items
        invariant
            it.seq() == items@,
            all == models(items@),
            split(all) == models(basic_blocks@) + split_from(
                all,
                it.index() as int,
                current_id@,
                models(current_stmts@),
            ),
    {
        let ghost done = models(basic_blocks@);
        let ghost stmts = models(current_stmts@);
        let ghost at = it.index() as int;
        assert(all[at] == item@);
        match item {
            Item::Statement(s) => {
                current_stmts.push(s);
                assert(models(current_stmts@) =~= stmts.push(s@));
            },
            Item::TerminatorAndLabel(terminator, label) => {
                let terminator = match terminator {
                    Some(real_ter) => real_ter,
                    None => Terminator::Br(label),
                };
                let ghost closed = RawBlock {
                    id: current_id@,
                    stmts,
                    terminator: Some(terminator@),
                };
                basic_blocks.push(
                    TempBasicBlock {
                        id: current_id,
                        stmts: current_stmts,
                        terminator: Some(terminator),
                    },
                );
                current_id = label;
                current_stmts = Vec::new();
                assert(models(basic_blocks@) =~= done.push(closed));
                assert(models(current_stmts@) =~= Seq::empty());
                assert(done + (seq![closed] + split_from(all, at + 1, label@, Seq::empty()))
                    =~= done.push(closed) + split_from(all, at + 1, label@, Seq::empty()));
            },
        }
    }
    let ghost done = models(basic_blocks@);
    let ghost last = RawBlock { id: current_id@, stmts: models(current_stmts@), terminator: None };
    basic_blocks.push(TempBasicBlock { id: current_id, stmts: current_stmts, terminator: None });
    assert(models(basic_blocks@) =~= done.push(last));
    assert(done + seq![last] =~= done.push(last));
    basic_blocks
}

/// Whether control can pass from a block labelled `from`, among the first
/// `upto` blocks, to the block labelled `to`.
spec fn edge_before(blocks: Seq<RawBlock>, upto: int, from: nat, to: nat) -> bool {
    exists|k: int| 0 <= k < upto && k < blocks.len() && (#[trigger] blocks[k]).leads(from, to)
}

/// Whether the map lists `from` among the predecessors of `label`.
spec fn listed(preds: Map<usize, Vec<usize>>, label: usize, from: usize) -> bool {
    preds.contains_key(label) && preds[label]@.contains(from)
}

/// Whether `preds` lists, for each label, the labels of those among the
/// first `upto` blocks that control can pass from to it.
spec fn lists_predecessors(preds: Map<usize, Vec<usize>>, blocks: Seq<RawBlock>, upto: int) -> bool {
    forall|label: usize, from: usize| #[trigger]
        listed(preds, label, from) <==> edge_before(blocks, upto, from as nat, label as nat)
}

/// Whether every label that the blocks name is a machine word.
spec fn words(blocks: Seq<RawBlock>) -> bool {
    blocks_below(blocks, usize::MAX as nat + 1)
}

/// The blocks that are assembled name machine words.
proof fn lemma_words(blocks: Seq<TempBasicBlock>)
    ensures
        words(models(blocks)),
{
    assert forall|k: int| 0 <= k < models(blocks).len() implies block_below(
        #[trigger] models(blocks)[k],
        usize::MAX as nat + 1,
    ) by {
        let block = blocks[k];
        assert(models(blocks)[k] == block@);
        match block.terminator {
            Some(Terminator::Br(_)) => {},
            Some(Terminator::BrCond(_, _, _)) => {},
            _ => {},
        }
    }
}

/// Records that control can pass from the block `from` to the block `label`.
fn add_predecessor(preds: &mut HashMap<usize, Vec<usize>>, label: usize, from: usize)
    ensures
        forall|l: usize, p: usize| #[trigger]
            listed(final(preds)@, l, p) <==> listed(old(preds)@, l, p) || (l == label && p == from),
{
    let mut list = match preds.remove(&label) {
        Some(list) => list,
        None => Vec::new(),
    };
    let ghost before = list@;
    assert(forall|p: usize| listed(old(preds)@, label, p) <==> before.contains(p));
    list.push(from);
    let ghost after = list@;
    preds.insert(label, list);
    assert forall|l: usize, p: usize| #[trigger]
        listed(preds@, l, p) <==> listed(old(preds)@, l, p) || (l == label && p == from) by {
        if l == label {
            assert(preds@[l]@ == after);
            if before.contains(p) {
                let i = choose|i: int| 0 <= i < before.len() && before[i] == p;
                assert(after[i] == p);
            }
            if p == from {
                assert(after[before.len() as int] == p);
            }
            if after.contains(p) && p != from {
                let i = choose|i: int| 0 <= i < after.len() && after[i] == p;
                assert(before[i] == p);
            }
        }
    }
}

/// For each label, the labels of the blocks that control can pass from to
/// it.
fn predecessors(blocks: &Vec<TempBasicBlock>) -> (preds: HashMap<usize, Vec<usize>>)
    ensures
        lists_predecessors(preds@, models(blocks@), blocks.len() as int),
{
    let ghost all = models(blocks@);
    let mut preds: HashMap<usize, Vec<usize>> = HashMap::new();
    let mut k: usize = 0;
    while k < blocks.len()
        invariant
            k <= blocks.len(),
            all == models(blocks@),
            lists_predecessors(preds@, all, k as int),
        decreases blocks.len() - k,
    {
        let ghost before = preds@;
        let bb = &blocks[k];
        assert(all[k as int] == bb@);
        match &bb.terminator {
            Some(Terminator::Br(id)) => {
                add_predecessor(&mut preds, id.0, bb.id.0);
            },
            Some(Terminator::BrCond(_, id1, id2)) => {
                add_predecessor(&mut preds, id1.0, bb.id.0);
                add_predecessor(&mut preds, id2.0, bb.id.0);
            },
            _ => {},
        }
        assert forall|label: usize, from: usize| #[trigger]
            listed(preds@, label, from) <==> edge_before(all, k + 1, from as nat, label as nat) by {
            assert(listed(before, label, from) <==> edge_before(
                all,
                k as int,
                from as nat,
                label as nat,
            ));
            assert(listed(preds@, label, from) <==> listed(before, label, from) || all[k as int].leads(
                from as nat,
                label as nat,
            ));
            if edge_before(all, k + 1, from as nat, label as nat) {
                let w = choose|w: int|
                    0 <= w < k + 1 && w < all.len() && (#[trigger] all[w]).leads(
                        from as nat,
                        label as nat,
                    );
                if w < k {
                    assert(edge_before(all, k as int, from as nat, label as nat));
                }
            }
        }
        k += 1;
    }
    preds
}

/// How many blocks have a label that is not marked.
spec fn unmarked(blocks: Seq<RawBlock>, marks: Set<usize>) -> nat
    decreases blocks.len(),
{
    if blocks.len() == 0 {
        0
    } else {
        unmarked(blocks.drop_last(), marks) + if marks.contains(blocks.last().id as usize) {
            0nat
        } else {
            1nat
        }
    }
}

/// One more mark leaves no more blocks unmarked.
proof fn lemma_mark_more(blocks: Seq<RawBlock>, marks: Set<usize>, label: usize)
    ensures
        unmarked(blocks, marks.insert(label)) <= unmarked(blocks, marks),
    decreases blocks.len(),
{
    if blocks.len() > 0 {
        lemma_mark_more(blocks.drop_last(), marks, label);
    }
}

/// Marking the label of a block that was not marked leaves fewer blocks
/// unmarked.
proof fn lemma_mark(blocks: Seq<RawBlock>, marks: Set<usize>, label: usize, k: int)
    requires
        0 <= k < blocks.len(),
        blocks[k].id == label as nat,
        !marks.contains(label),
    ensures
        unmarked(blocks, marks.insert(label)) < unmarked(blocks, marks),
    decreases blocks.len(),
{
    if k == blocks.len() - 1 {
        lemma_mark_more(blocks.drop_last(), marks, label);
    } else {
        lemma_mark(blocks.drop_last(), marks, label, k);
    }
}

/// A step in front of a walk gives a walk.
proof fn lemma_reaches_step(blocks: Seq<RawBlock>, from: nat, via: nat, to: nat)
    requires
        edge(blocks, from, via),
        reaches(blocks, via, to),
    ensures
        reaches(blocks, from, to),
{
    let path = choose|path: Seq<nat>| is_path(blocks, path) && path[0] == via && path.last() == to;
    let longer = seq![from] + path;
    assert forall|i: int| 0 <= i < longer.len() - 1 implies edge(
        blocks,
        #[trigger] longer[i],
        longer[i + 1],
    ) by {
        if i > 0 {
            assert(longer[i] == path[i - 1]);
            assert(longer[i + 1] == path[i - 1 + 1]);
        }
    }
    assert(is_path(blocks, longer) && longer[0] == from && longer.last() == to);
}

/// Every label reaches itself.
proof fn lemma_reaches_self(blocks: Seq<RawBlock>, label: nat)
    ensures
        reaches(blocks, label, label),
{
    let path = seq![label];
    assert(is_path(blocks, path) && path[0] == label && path.last() == label);
}

/// Whether a label is a machine word that is marked.
spec fn marked(marks: Set<usize>, label: nat) -> bool {
    label <= usize::MAX && marks.contains(label as usize)
}

/// Whether the marks hold `to` and, with each marked label, every label
/// that control can pass from to it.
spec fn closed_marks(blocks: Seq<RawBlock>, marks: Set<usize>, to: nat) -> bool {
    &&& marked(marks, to)
    &&& forall|from: nat, via: nat|
        marked(marks, via) && #[trigger] edge(blocks, from, via) ==> marked(marks, from)
}

/// Marks that are closed against the edges hold every label on a walk to
/// `to`.
proof fn lemma_walk_marked(blocks: Seq<RawBlock>, marks: Set<usize>, to: nat, path: Seq<nat>, i: int)
    requires
        closed_marks(blocks, marks, to),
        is_path(blocks, path),
        path.last() == to,
        0 <= i < path.len(),
    ensures
        marked(marks, path[i]),
    decreases path.len() - i,
{
    if i < path.len() - 1 {
        lemma_walk_marked(blocks, marks, to, path, i + 1);
        assert(edge(blocks, path[i], path[i + 1]));
    }
}

/// Marks that are closed against the edges hold every label that reaches
/// `to`.
proof fn lemma_closed_complete(blocks: Seq<RawBlock>, marks: Set<usize>, to: nat, from: nat)
    requires
        closed_marks(blocks, marks, to),
        reaches(blocks, from, to),
    ensures
        marked(marks, from),
{
    let path = choose|path: Seq<nat>| is_path(blocks, path) && path[0] == from && path.last() == to;
    lemma_walk_marked(blocks, marks, to, path, 0);
}

/// Whether a marked label has all its predecessors marked, or still waits
/// in `stack` for them to be.
spec fn marks_settled(
    preds: Map<usize, Vec<usize>>,
    marks: Set<usize>,
    stack: Seq<usize>,
    label: usize,
) -> bool {
    marks.contains(label) ==> stack.contains(label) || forall|from: usize| #[trigger]
        listed(preds, label, from) ==> marks.contains(from)
}

/// Whether some block has the label `label`.
spec fn is_block(blocks: Seq<RawBlock>, label: usize) -> bool {
    exists|k: int| 0 <= k < blocks.len() && (#[trigger] blocks[k]).id == label as nat
}

/// The labels from which control can get to the block `target`.
#[verifier::loop_isolation(false)]
fn reaching(
    preds: &HashMap<usize, Vec<usize>>,
    target: usize,
    Ghost(blocks): Ghost<Seq<RawBlock>>,
) -> (marks: HashSet<usize>)
    requires
        is_block(blocks, target),
        words(blocks),
        lists_predecessors(preds@, blocks, blocks.len() as int),
    ensures
        forall|from: nat| #[trigger] reaches(blocks, from, target as nat) <==> marked(marks@, from),
{
    let mut marks: HashSet<usize> = HashSet::new();
    marks.insert(target);
    let mut opened: Vec<usize> = Vec::new();
    opened.push(target);
    proof {
        lemma_reaches_self(blocks, target as nat);
        assert(opened@[0] == target);
    }
    while opened.len() != 0
        invariant
            marks@.contains(target),
            forall|label: usize| #[trigger]
                marks@.contains(label) ==> reaches(blocks, label as nat, target as nat)
                    && is_block(blocks, label),
            forall|label: usize| #[trigger] marks_settled(preds@, marks@, opened@, label),
            forall|i: int| 0 <= i < opened.len() ==> marks@.contains(#[trigger] opened[i]),
        decreases unmarked(blocks, marks@), opened.len(),
    {
        let ghost marks_before = marks@;
        let ghost opened_before = opened@;
        let id = opened.pop().unwrap();
        assert forall|label: usize| label != id implies #[trigger] marks_settled(
            preds@,
            marks@,
            opened@,
            label,
        ) by {
            assert(marks_settled(preds@, marks@, opened_before, label));
            if opened_before.contains(label) {
                let w = choose|w: int| 0 <= w < opened_before.len() && opened_before[w] == label;
                assert(opened@[w] == label);
            }
        }
        match preds.get(&id) {
            None => {
                assert(forall|from: usize| !listed(preds@, id, from));
            },
            Some(list) => {
                let mut j: usize = 0;
                while j < list.len()
                    invariant
                        j <= list.len(),
                        preds@.contains_key(id),
                        *list == preds@[id],
                        marks@.contains(target),
                        marks@.contains(id),
                        forall|label: usize| #[trigger]
                            marks@.contains(label) ==> reaches(
                                blocks,
                                label as nat,
                                target as nat,
                            ) && is_block(blocks, label),
                        forall|label: usize|
                            label != id ==> #[trigger] marks_settled(
                                preds@,
                                marks@,
                                opened@,
                                label,
                            ),
                        forall|i: int|
                            0 <= i < opened.len() ==> marks@.contains(#[trigger] opened[i]),
                        forall|i: int| 0 <= i < j ==> marks@.contains(#[trigger] list[i]),
                        forall|label: usize| marks_before.contains(label) ==> marks@.contains(label),
                        opened.len() + 1 >= opened_before.len(),
                        unmarked(blocks, marks@) + opened.len() + 1 <= unmarked(
                            blocks,
                            marks_before,
                        ) + opened_before.len(),
                    decreases list.len() - j,
                {
                    let pred = list[j];
                    proof {
                        assert(list@.contains(pred));
                        assert(listed(preds@, id, pred));
                        assert(edge_before(blocks, blocks.len() as int, pred as nat, id as nat));
                        let w = choose|w: int|
                            0 <= w < blocks.len() && (#[trigger] blocks[w]).leads(
                                pred as nat,
                                id as nat,
                            );
                        assert(edge(blocks, pred as nat, id as nat));
                        assert(is_block(blocks, pred));
                    }
                    if !marks.contains(&pred) {
                        let ghost marks_mid = marks@;
                        let ghost opened_mid = opened@;
                        proof {
                            let w = choose|w: int|
                                0 <= w < blocks.len() && (#[trigger] blocks[w]).id == pred as nat;
                            lemma_mark(blocks, marks@, pred, w);
                            lemma_reaches_step(blocks, pred as nat, id as nat, target as nat);
                        }
                        marks.insert(pred);
                        opened.push(pred);
                        assert(opened@[opened.len() - 1] == pred);
                        assert forall|label: usize| label != id implies #[trigger] marks_settled(
                            preds@,
                            marks@,
                            opened@,
                            label,
                        ) by {
                            if label != pred && marks@.contains(label) {
                                assert(marks_settled(preds@, marks_mid, opened_mid, label));
                                if opened_mid.contains(label) {
                                    let w = choose|w: int|
                                        0 <= w < opened_mid.len() && opened_mid[w] == label;
                                    assert(opened@[w] == label);
                                }
                            }
                        }
                    }
                    j += 1;
                }
                assert forall|from: usize| #[trigger] listed(preds@, id, from) implies marks@.contains(
                    from,
                ) by {
                    let at = choose|at: int| 0 <= at < list@.len() && list@[at] == from;
                    assert(marks@.contains(list[at]));
                }
            },
        }
        assert(marks_settled(preds@, marks@, opened@, id));
    }
    proof {
        assert forall|from: nat, via: nat|
            marked(marks@, via) && #[trigger] edge(blocks, from, via) implies marked(
            marks@,
            from,
        ) by {
            let w = choose|w: int| 0 <= w < blocks.len() && (#[trigger] blocks[w]).leads(from, via);
            assert(block_below(blocks[w], usize::MAX as nat + 1));
            assert(edge_before(blocks, blocks.len() as int, from as usize as nat, via as usize as nat));
            assert(listed(preds@, via as usize, from as usize));
            assert(marks_settled(preds@, marks@, opened@, via as usize));
            assert(!opened@.contains(via as usize));
        }
        assert(closed_marks(blocks, marks@, target as nat));
        assert forall|from: nat| #[trigger]
            reaches(blocks, from, target as nat) <==> marked(marks@, from) by {
            if reaches(blocks, from, target as nat) {
                lemma_closed_complete(blocks, marks@, target as nat, from);
            }
        }
    }
    marks
}

/// The blocks of a buffer end in the block left open, which alone has no
/// terminator.
proof fn lemma_split_shape(items: Seq<ItemView>, from: int, id: nat, stmts: Seq<StatementView>)
    requires
        0 <= from <= items.len(),
    ensures
        split_from(items, from, id, stmts).len() >= 1,
        split_from(items, from, id, stmts).last().terminator is None,
        forall|k: int|
            0 <= k < split_from(items, from, id, stmts).len() - 1 ==> (#[trigger] split_from(
                items,
                from,
                id,
                stmts,
            )[k]).terminator is Some,
    decreases items.len() - from,
{
    if from < items.len() {
        match items[from] {
            ItemView::Statement(stmt) => {
                lemma_split_shape(items, from + 1, id, stmts.push(stmt));
            },
            ItemView::TerminatorAndLabel(terminator, label) => {
                lemma_split_shape(items, from + 1, label, Seq::empty());
            },
        }
    }
}

/// The blocks of the function that a buffer stands for, or `None` where
/// control that enters the function can fall off its end. Any buffer is
/// folded, whatever labels it names.
pub fn assemble(items: Vec<Item>) -> (r: Option<Vec<BasicBlock>>)
    ensures
        match r {
            Some(bbs) => !falls_off(split(models(items@))) && models(bbs@) == basic_blocks(
                models(items@),
            ),
            None => falls_off(split(models(items@))),
        },
{
    let ghost all = split(models(items@));
    let mut basic_blocks = split_items(items);
    proof {
        lemma_split_shape(models(items@), 0, 0, Seq::empty());
        lemma_words(basic_blocks@);
    }
    let preds = predecessors(&basic_blocks);
    let last = basic_blocks[basic_blocks.len() - 1].id;
    assert(all[all.len() - 1].id == last@);
    let falls_from = reaching(&preds, last.0, Ghost(all));
    let entry: usize = 0;
    if falls_from.contains(&entry) {
        return None;
    }
    basic_blocks.pop();

    let mut kept: Vec<BasicBlock> = Vec::new();
    assert(models(kept@) =~= kept_blocks(all, 0));
    for bb in it: basic_blocks
        invariant
            it.seq() == basic_blocks@,
            basic_blocks@.len() == all.len() - 1,
            forall|k: int| 0 <= k < basic_blocks@.len() ==> (#[trigger] basic_blocks@[k])@ == all[k],
            forall|k: int| 0 <= k < all.len() - 1 ==> (#[trigger] all[k]).terminator is Some,
            words(all),
            lists_predecessors(preds@, all, all.len() as int),
            models(kept@) == kept_blocks(all, it.index() as int),
    {
        let ghost at = it.index() as int;
        let ghost done = models(kept@);
        assert(bb@ == all[at]);
        let named = match preds.get(&bb.id.0) {
            Some(list) => list.len() != 0,
            None => false,
        };
        let keep = bb.id.0 == 0 || named;
        proof {
            if named {
                let list = preds@[bb.id.0]@;
                assert(list.contains(list[0]));
                assert(listed(preds@, bb.id.0, list[0]));
                let w = choose|w: int|
                    0 <= w < all.len() && (#[trigger] all[w]).leads(list[0] as nat, bb.id@);
                assert(edge(all, list[0] as nat, bb.id@));
            }
            if has_predecessor(all, bb.id@) {
                let from = choose|from: nat| edge(all, from, bb.id@);
                let w = choose|w: int| 0 <= w < all.len() && (#[trigger] all[w]).leads(from, bb.id@);
                assert(block_below(all[w], usize::MAX as nat + 1));
                assert(edge_before(all, all.len() as int, from as usize as nat, bb.id@));
                assert(listed(preds@, bb.id.0, from as usize));
            }
            assert(keep == is_kept(all, all[at]));
        }
        if keep {
            match bb.terminator {
                Some(term) => {
                    let ghost block = BasicBlockView {
                        id: bb.id@,
                        stmts: models(bb.stmts@),
                        terminator: term@,
                    };
                    kept.push(BasicBlock { id: bb.id, stmts: bb.stmts, terminator: term });
                    assert(models(kept@) =~= done.push(block));
                },
                None => {
                    // only the block left open has no terminator, and it is gone
                    assert(false);
                },
            }
        }
    }
    Some(kept)
}

impl FunctionBuilder {
    /// Ends the lowering of the function: folds the buffer into the blocks
    /// of the function, or rejects the function at `span` where not every
    /// path through it returns.
    pub fn to_function(self, span: Span) -> (r: Result<Declaration, SyntaxError>)
        ensures
            declaration_is(r, function_of(self@, span)),
    {
        let FunctionBuilder { name, ty, locals, items, .. } = self;
        match assemble(items) {
            None => Err(
                SyntaxError::plain(ErrorKind::MissingReturn, "Not all paths return.", span),
            ),
            Some(bbs) => Ok(Declaration::Function { name, ty, locals, bbs }),
        }
    }
}

} // verus!
