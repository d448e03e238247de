//! Constant propagation: a read of an identifier that a move set to a literal
//! becomes a read of the literal.
//!
//! The pass has two phases, and the second starts only when the first is
//! through with the whole graph: a literal may be moved in a block that comes
//! after the block that reads it.
use std::collections::HashMap;
use vstd::prelude::*;

use crate::ir::lir::{views, BlockView, CfgView, FunctionCfg, Op, OpKind, OpView, Source};
use crate::ir::SSAVariable;
use crate::parser::AtomicLiteral;

verus! {

/// Whether `op` moves a literal: it is a move with one read, which is a
/// literal in place, and one write.
pub open spec fn is_constant_move(op: OpView) -> bool {
    &&& op.kind is Move
    &&& op.reads.len() == 1
    &&& op.reads[0] is Constant
    &&& op.writes.len() == 1
}

/// The literals known after the first `n` of `ops`, starting from `table`:
/// each move of a literal sets the literal of the identifier it writes.
pub open spec fn constants_of_ops(
    ops: Seq<OpView>,
    n: nat,
    table: Map<SSAVariable, AtomicLiteral>,
) -> Map<SSAVariable, AtomicLiteral>
    decreases n,
{
    if n == 0 || n > ops.len() {
        table
    } else {
        let before = constants_of_ops(ops, (n - 1) as nat, table);
        if is_constant_move(ops[n - 1]) {
            before.insert(ops[n - 1].writes[0], ops[n - 1].reads[0]->Constant_0)
        } else {
            before
        }
    }
}

/// The literals known after the first `n` of `blocks`.
pub open spec fn constants_of_blocks(
    blocks: Seq<BlockView>,
    n: nat,
) -> Map<SSAVariable, AtomicLiteral>
    decreases n,
{
    if n == 0 || n > blocks.len() {
        Map::empty()
    } else {
        constants_of_ops(
            blocks[n - 1].ops,
            blocks[n - 1].ops.len(),
            constants_of_blocks(blocks, (n - 1) as nat),
        )
    }
}

/// The first `n` of `ops` without the moves of literals.
pub open spec fn kept_ops(ops: Seq<OpView>, n: nat) -> Seq<OpView>
    decreases n,
{
    if n == 0 || n > ops.len() {
        Seq::empty()
    } else if is_constant_move(ops[n - 1]) {
        kept_ops(ops, (n - 1) as nat)
    } else {
        kept_ops(ops, (n - 1) as nat).push(ops[n - 1])
    }
}

/// A read after propagation: a read of an identifier with a known literal
/// becomes a read of that literal.
pub open spec fn substituted(read: Source, table: Map<SSAVariable, AtomicLiteral>) -> Source {
    match read {
        Source::Variable(ssa) => if table.contains_key(ssa) {
            Source::Constant(table[ssa])
        } else {
            read
        },
        Source::Constant(_) => read,
    }
}

/// An operation after propagation: each of its reads is substituted.
pub open spec fn substituted_op(op: OpView, table: Map<SSAVariable, AtomicLiteral>) -> OpView {
    OpView { reads: Seq::new(op.reads.len(), |i: int| substituted(op.reads[i], table)), ..op }
}

/// Operations after propagation, each substituted.
pub open spec fn substituted_ops(
    ops: Seq<OpView>,
    table: Map<SSAVariable, AtomicLiteral>,
) -> Seq<OpView> {
    Seq::new(ops.len(), |i: int| substituted_op(ops[i], table))
}

impl BlockView {
    /// The block without its moves of literals.
    pub open spec fn without_constant_moves(self) -> BlockView {
        BlockView { ops: kept_ops(self.ops, self.ops.len()), ..self }
    }

    /// The block with the reads of its operations substituted.
    pub open spec fn substituted(self, table: Map<SSAVariable, AtomicLiteral>) -> BlockView {
        BlockView { ops: substituted_ops(self.ops, table), ..self }
    }
}

impl CfgView {
    /// The literals that the moves of the graph set. Where two moves write
    /// one identifier, the later one counts.
    pub open spec fn constants(self) -> Map<SSAVariable, AtomicLiteral> {
        constants_of_blocks(self.blocks, self.blocks.len())
    }

    /// The graph after constant propagation: the moves of literals are gone,
    /// and every read of an identifier that such a move wrote reads the
    /// literal. Phi nodes and jumps are as they were.
    pub open spec fn propagated(self) -> CfgView {
        CfgView {
            blocks: Seq::new(
                self.blocks.len(),
                |b: int| self.blocks[b].without_constant_moves().substituted(self.constants()),
            ),
            ..self
        }
    }
}

/// The table that a map by identifier number stands for.
spec fn table_of(numbers: Map<u32, AtomicLiteral>) -> Map<SSAVariable, AtomicLiteral> {
    Map::new(|ssa: SSAVariable| numbers.contains_key(ssa.0), |ssa: SSAVariable| numbers[ssa.0])
}

/// Whether the operation moves a literal.
fn moves_constant(op: &Op) -> (r: bool)
    ensures
        r == is_constant_move(op@),
{
    match &op.kind {
        OpKind::Move => op.reads.len() == 1 && op.writes.len() == 1
            && match &op.reads[0] {
            Source::Constant(_) => true,
            Source::Variable(_) => false,
        },
        _ => false,
    }
}

/// The first phase on one block: takes the moves of literals out of `ops`
/// and enters them into `constants`.
fn take_constant_moves(ops: &mut Vec<Op>, constants: &mut HashMap<u32, AtomicLiteral>)
    ensures
        views(final(ops)@) == kept_ops(views(old(ops)@), old(ops)@.len()),
        table_of(final(constants)@) == constants_of_ops(
            views(old(ops)@),
            old(ops)@.len(),
            table_of(old(constants)@),
        ),
{
    broadcast use vstd::std_specs::hash::group_hash_axioms;

    let ghost all = views(ops@);
    let ghost start = table_of(constants@);
    let ghost mut done: nat = 0;
    let mut i: usize = 0;
    assert(views(ops@) =~= kept_ops(all, 0) + all.subrange(0, all.len() as int));
    while i < ops.len()
        invariant
            all == views(old(ops)@),
            start == table_of(old(constants)@),
            done <= all.len(),
            i <= ops.len(),
            i == kept_ops(all, done).len(),
            views(ops@) == kept_ops(all, done) + all.subrange(done as int, all.len() as int),
            table_of(constants@) == constants_of_ops(all, done, start),
        decreases all.len() - done,
    {
        assert(views(ops@)[i as int] == all[done as int]);
        assert(ops@[i as int]@ == all[done as int]);
        let ghost prev = ops@;
        let ghost kept = kept_ops(all, done);
        let ghost rest = all.subrange(done as int, all.len() as int);
        assert(views(prev).len() == prev.len());
        assert((kept + rest).len() == kept.len() + rest.len());
        if moves_constant(&ops[i]) {
            let ghost before = constants@;
            let op = ops.remove(i);
            assert forall|k: int| 0 <= k < ops@.len() implies #[trigger] views(ops@)[k] == (kept
                + all.subrange(done as int + 1, all.len() as int))[k] by {
                if k < i {
                    assert(ops@[k] == prev[k]);
                    assert(views(prev)[k] == kept[k]);
                } else {
                    assert(ops@[k] == prev[k + 1]);
                    assert(views(prev)[k + 1] == rest[k + 1 - i]);
                }
            }
            let literal = match &op.reads[0] {
                Source::Constant(c) => c.clone(),
                Source::Variable(_) => AtomicLiteral::Nil,
            };
            constants.insert(op.writes[0].0, literal);
            assert(table_of(constants@) =~= table_of(before).insert(op.writes[0], literal));
        } else {
            assert forall|k: int| 0 <= k < ops@.len() implies #[trigger] views(ops@)[k] == (
            kept.push(all[done as int]) + all.subrange(done as int + 1, all.len() as int))[k] by {
                if k < i {
                    assert(views(prev)[k] == kept[k]);
                } else if k > i {
                    assert(views(prev)[k] == rest[k - i]);
                }
            }
            i = i + 1;
        }
        proof {
            done = done + 1;
        }
        assert(views(ops@) =~= kept_ops(all, done) + all.subrange(done as int, all.len() as int));
    }
    assert(done == all.len()) by {
        assert(views(ops@).len() == ops@.len());
    }
    assert(views(ops@) =~= kept_ops(all, all.len()));
}

/// The second phase on one operation's reads.
fn substitute_reads(reads: &mut Vec<Source>, constants: &HashMap<u32, AtomicLiteral>)
    ensures
        final(reads)@ == Seq::new(
            old(reads)@.len(),
            |i: int| substituted(old(reads)@[i], table_of(constants@)),
        ),
{
    broadcast use vstd::std_specs::hash::group_hash_axioms;

    let ghost table = table_of(constants@);
    let mut r: usize = 0;
    while r < reads.len()
        invariant
            r <= reads.len(),
            table == table_of(constants@),
            reads@.len() == old(reads)@.len(),
            forall|k: int| 0 <= k < r ==> reads@[k] == substituted(#[trigger] old(reads)@[k], table),
            forall|k: int| r <= k < reads@.len() ==> reads@[k] == #[trigger] old(reads)@[k],
        decreases reads.len() - r,
    {
        let found = match &reads[r] {
            Source::Variable(var) => match constants.get(&var.0) {
                Some(constant) => Some(constant.clone()),
                None => None,
            },
            Source::Constant(_) => None,
        };
        match found {
            Some(constant) => {
                reads[r] = Source::Constant(constant);
            },
            None => {},
        }
        r = r + 1;
    }
    assert(reads@ =~= Seq::new(old(reads)@.len(), |i: int| substituted(old(reads)@[i], table)));
}

/// The second phase on one block.
fn substitute_ops(ops: &mut Vec<Op>, constants: &HashMap<u32, AtomicLiteral>)
    ensures
        views(final(ops)@) == substituted_ops(views(old(ops)@), table_of(constants@)),
{
    let ghost table = table_of(constants@);
    let ghost all = views(ops@);
    let mut o: usize = 0;
    while o < ops.len()
        invariant
            o <= ops.len(),
            table == table_of(constants@),
            all == views(old(ops)@),
            ops@.len() == all.len(),
            forall|k: int| 0 <= k < o ==> (#[trigger] ops@[k])@ == substituted_op(all[k], table),
            forall|k: int| o <= k < all.len() ==> (#[trigger] ops@[k])@ == all[k],
        decreases ops.len() - o,
    {
        let op = &mut ops[o];
        substitute_reads(&mut op.reads, constants);
        o = o + 1;
    }
    assert(views(ops@) =~= substituted_ops(all, table));
}

/// Replaces every read of an identifier that a move set to a literal by a
/// read of the literal, and takes those moves out. A move counts where it has
/// one read, a literal, and one write; any other move is left alone. A read
/// made a literal here is not looked at again: a move that read an identifier
/// and now reads a literal stays. Phi nodes are not touched, though a pair of
/// one may name an identifier whose move is gone.
pub fn propagate_atomics(cfg: &mut FunctionCfg)
    ensures
        final(cfg)@ == old(cfg)@.propagated(),
{
    let ghost before = cfg@;
    let mut constants: HashMap<u32, AtomicLiteral> = HashMap::new();
    assert(table_of(constants@) =~= Map::empty());
    let mut b: usize = 0;
    while b < cfg.blocks.len()
        invariant
            b <= cfg.blocks.len(),
            before == old(cfg)@,
            cfg.entry == old(cfg).entry,
            cfg.blocks@.len() == before.blocks.len(),
            table_of(constants@) == constants_of_blocks(before.blocks, b as nat),
            forall|k: int|
                0 <= k < b ==> (#[trigger] cfg.blocks@[k])@ == before.blocks[k].without_constant_moves(),
            forall|k: int| b <= k < before.blocks.len() ==> (#[trigger] cfg.blocks@[k])@ == before.blocks[k],
        decreases cfg.blocks.len() - b,
    {
        let block = &mut cfg.blocks[b];
        take_constant_moves(&mut block.ops, &mut constants);
        b = b + 1;
    }
    let ghost table = table_of(constants@);
    assert(table == before.constants());
    let mut b: usize = 0;
    while b < cfg.blocks.len()
        invariant
            b <= cfg.blocks.len(),
            before == old(cfg)@,
            cfg.entry == old(cfg).entry,
            cfg.blocks@.len() == before.blocks.len(),
            table == table_of(constants@),
            forall|k: int|
                0 <= k < b ==> (#[trigger] cfg.blocks@[k])@
                    == before.blocks[k].without_constant_moves().substituted(table),
            forall|k: int|
                b <= k < before.blocks.len() ==> (#[trigger] cfg.blocks@[k])@
                    == before.blocks[k].without_constant_moves(),
        decreases cfg.blocks.len() - b,
    {
        let block = &mut cfg.blocks[b];
        substitute_ops(&mut block.ops, &constants);
        b = b + 1;
    }
    assert(cfg@.blocks =~= before.propagated().blocks);
}

/// Whether none of `ops` moves a literal.
pub open spec fn no_constant_move(ops: Seq<OpView>) -> bool {
    forall|o: int| 0 <= o < ops.len() ==> !is_constant_move(#[trigger] ops[o])
}

impl CfgView {
    /// Whether some move of the graph reads an identifier that a move of a
    /// literal writes. Propagation turns such a move into a move of a
    /// literal, which it does not take out any more.
    pub open spec fn feeds_move(self) -> bool {
        exists|b: int, o: int|
            0 <= b < self.blocks.len() && 0 <= o < self.blocks[b].ops.len() && {
                let op = #[trigger] self.blocks[b].ops[o];
                &&& op.kind is Move
                &&& op.reads.len() == 1
                &&& op.writes.len() == 1
                &&& op.reads[0] matches Source::Variable(ssa)
                &&& self.constants().contains_key(ssa)
            }
    }

    /// Whether the graph holds a move of a literal.
    pub open spec fn has_constant_move(self) -> bool {
        exists|b: int, o: int|
            0 <= b < self.blocks.len() && 0 <= o < self.blocks[b].ops.len() && is_constant_move(
                #[trigger] self.blocks[b].ops[o],
            )
    }
}

/// No more is kept than there was.
proof fn lemma_kept_len(ops: Seq<OpView>, n: nat)
    requires
        n <= ops.len(),
    ensures
        kept_ops(ops, n).len() <= n,
    decreases n,
{
    if n > 0 {
        lemma_kept_len(ops, (n - 1) as nat);
    }
}

/// Each kept operation is one of the operations and moves no literal.
proof fn lemma_kept_source(ops: Seq<OpView>, n: nat, i: int) -> (j: int)
    requires
        n <= ops.len(),
        0 <= i < kept_ops(ops, n).len(),
    ensures
        0 <= j < n,
        ops[j] == kept_ops(ops, n)[i],
        !is_constant_move(ops[j]),
    decreases n,
{
    let m = (n - 1) as nat;
    if i < kept_ops(ops, m).len() {
        lemma_kept_source(ops, m, i)
    } else {
        n - 1
    }
}

/// Each operation that moves no literal is kept.
proof fn lemma_kept_holds(ops: Seq<OpView>, n: nat, j: int) -> (i: int)
    requires
        n <= ops.len(),
        0 <= j < n,
        !is_constant_move(ops[j]),
    ensures
        0 <= i < kept_ops(ops, n).len(),
        kept_ops(ops, n)[i] == ops[j],
    decreases n,
{
    let m = (n - 1) as nat;
    if j < m {
        lemma_kept_holds(ops, m, j)
    } else {
        kept_ops(ops, m).len() as int
    }
}

/// Where an operation moves a literal, less is kept than there was.
proof fn lemma_kept_shorter(ops: Seq<OpView>, n: nat, j: int)
    requires
        n <= ops.len(),
        0 <= j < n,
        is_constant_move(ops[j]),
    ensures
        kept_ops(ops, n).len() < n,
    decreases n,
{
    let m = (n - 1) as nat;
    lemma_kept_len(ops, m);
    if j < m {
        lemma_kept_shorter(ops, m, j);
    }
}

/// Where no operation moves a literal, all are kept.
proof fn lemma_kept_all(ops: Seq<OpView>, n: nat)
    requires
        n <= ops.len(),
        no_constant_move(ops),
    ensures
        kept_ops(ops, n) == ops.subrange(0, n as int),
    decreases n,
{
    if n > 0 {
        lemma_kept_all(ops, (n - 1) as nat);
        assert(!is_constant_move(ops[n - 1]));
    }
    assert(kept_ops(ops, n) =~= ops.subrange(0, n as int));
}

/// Operations that move no literal add nothing to the table.
proof fn lemma_constants_unchanged(ops: Seq<OpView>, n: nat, table: Map<SSAVariable, AtomicLiteral>)
    requires
        n <= ops.len(),
        no_constant_move(ops),
    ensures
        constants_of_ops(ops, n, table) == table,
    decreases n,
{
    if n > 0 {
        lemma_constants_unchanged(ops, (n - 1) as nat, table);
        assert(!is_constant_move(ops[n - 1]));
    }
}

/// A graph without a move of a literal has an empty table.
proof fn lemma_no_constants(blocks: Seq<BlockView>, n: nat)
    requires
        n <= blocks.len(),
        forall|b: int| 0 <= b < blocks.len() ==> no_constant_move(#[trigger] blocks[b].ops),
    ensures
        constants_of_blocks(blocks, n) == Map::<SSAVariable, AtomicLiteral>::empty(),
    decreases n,
{
    if n > 0 {
        lemma_no_constants(blocks, (n - 1) as nat);
        assert(no_constant_move(blocks[n - 1].ops));
        lemma_constants_unchanged(blocks[n - 1].ops, blocks[n - 1].ops.len(), Map::empty());
    }
}

impl CfgView {
    /// Propagation leaves a move of a literal exactly where a move read an
    /// identifier that a move of a literal wrote.
    pub proof fn lemma_propagated_moves(self)
        ensures
            self.propagated().has_constant_move() <==> self.feeds_move(),
    {
        let after = self.propagated();
        let table = self.constants();
        if self.feeds_move() {
            let (b, o) = choose|b: int, o: int|
                0 <= b < self.blocks.len() && 0 <= o < self.blocks[b].ops.len() && {
                    let op = #[trigger] self.blocks[b].ops[o];
                    &&& op.kind is Move
                    &&& op.reads.len() == 1
                    &&& op.writes.len() == 1
                    &&& op.reads[0] matches Source::Variable(ssa)
                    &&& self.constants().contains_key(ssa)
                };
            let ops = self.blocks[b].ops;
            let op = ops[o];
            let kept = kept_ops(ops, ops.len());
            assert(!is_constant_move(ops[o]));
            let i = lemma_kept_holds(ops, ops.len(), o);
            assert(after.blocks[b].ops[i] == substituted_op(op, table));
            assert(is_constant_move(after.blocks[b].ops[i]));
        }
        if after.has_constant_move() {
            let (b, i) = choose|b: int, i: int|
                0 <= b < after.blocks.len() && 0 <= i < after.blocks[b].ops.len()
                    && is_constant_move(#[trigger] after.blocks[b].ops[i]);
            let ops = self.blocks[b].ops;
            let kept = kept_ops(ops, ops.len());
            assert(after.blocks[b].ops[i] == substituted_op(kept[i], table));
            let o = lemma_kept_source(ops, ops.len(), i);
            let op = self.blocks[b].ops[o];
            assert(substituted_op(op, table).reads[0] == substituted(op.reads[0], table));
            assert(op.reads[0] is Variable);
        }
    }

    /// Running constant propagation twice is running it once: the second run
    /// changes nothing. This holds of every graph in which no move reads an
    /// identifier that a move of a literal writes, and of no other graph: the
    /// first run turns such a move into a move of a literal and leaves it,
    /// and the second run takes it out.
    pub proof fn lemma_propagation_idempotent(self)
        ensures
            self.propagated().propagated() == self.propagated() <==> !self.feeds_move(),
    {
        let once = self.propagated();
        let twice = once.propagated();
        self.lemma_propagated_moves();
        if !self.feeds_move() {
            assert forall|b: int| 0 <= b < once.blocks.len() implies no_constant_move(
                #[trigger] once.blocks[b].ops,
            ) by {
                assert forall|o: int| 0 <= o < once.blocks[b].ops.len() implies !is_constant_move(
                    #[trigger] once.blocks[b].ops[o],
                ) by {
                    if is_constant_move(once.blocks[b].ops[o]) {
                        assert(once.has_constant_move());
                    }
                }
            }
            lemma_no_constants(once.blocks, once.blocks.len());
            assert forall|b: int| 0 <= b < once.blocks.len() implies twice.blocks[b]
                == once.blocks[b] by {
                let ops = once.blocks[b].ops;
                assert(no_constant_move(once.blocks[b].ops));
                lemma_kept_all(ops, ops.len());
                assert(ops.subrange(0, ops.len() as int) =~= ops);
                assert forall|o: int| 0 <= o < ops.len() implies substituted_op(
                    ops[o],
                    Map::empty(),
                ) == ops[o] by {
                    assert(substituted_op(ops[o], Map::empty()).reads =~= ops[o].reads);
                }
                assert(substituted_ops(ops, Map::empty()) =~= ops);
            }
            assert(twice.blocks =~= once.blocks);
        } else {
            let (b, o) = choose|b: int, o: int|
                0 <= b < once.blocks.len() && 0 <= o < once.blocks[b].ops.len() && is_constant_move(
                    #[trigger] once.blocks[b].ops[o],
                );
            let ops = once.blocks[b].ops;
            lemma_kept_shorter(ops, ops.len(), o);
            assert(twice.blocks[b].ops.len() < ops.len());
        }
    }
}

} // verus!
