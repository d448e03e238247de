//! Counting what a graph writes and reads: the identifiers written and the
//! identifiers read, each as often as it occurs, and how each step of
//! building a graph changes the two.
use vstd::multiset::Multiset;
use vstd::prelude::*;
use vstd::seq_lib::lemma_multiset_commutative;

use crate::ir::lir::cfg::{lemma_phi_position, phi_position, BuilderView};
use crate::ir::lir::pass::validate::{
    block_uses, block_writes, blocks_uses, blocks_writes, double_assigns, mentions, op_uses,
    op_writes, ops_uses, ops_writes, phi_uses, phi_writes, phis_uses, unassigned_uses, Site,
    Violation, ViolationKind,
};
use crate::ir::lir::{BlockView, CfgView, LabelN, OpKindView, OpView, PhiView, Source};
use crate::ir::SSAVariable;

verus! {

/// The identifiers of `sites`, in order.
pub open spec fn site_ids(sites: Seq<Site>) -> Seq<SSAVariable> {
    Seq::new(sites.len(), |i: int| sites[i].ssa)
}

/// The identifiers among the first `n` of `reads`, in order. A literal in
/// place reads no identifier.
pub open spec fn variable_ids(reads: Seq<Source>, n: nat) -> Seq<SSAVariable>
    decreases n,
{
    if n == 0 || n > reads.len() {
        Seq::empty()
    } else {
        match reads[n - 1] {
            Source::Variable(ssa) => variable_ids(reads, (n - 1) as nat).push(ssa),
            Source::Constant(_) => variable_ids(reads, (n - 1) as nat),
        }
    }
}

/// The sum of the first `n` of `parts`.
pub open spec fn total(parts: Seq<Multiset<SSAVariable>>, n: nat) -> Multiset<SSAVariable>
    decreases n,
{
    if n == 0 || n > parts.len() {
        Multiset::empty()
    } else {
        total(parts, (n - 1) as nat).add(parts[n - 1])
    }
}

/// What one operation writes.
pub open spec fn op_written(op: OpView) -> Multiset<SSAVariable> {
    op.writes.to_multiset()
}

/// What the operations of a block write.
pub open spec fn ops_written(ops: Seq<OpView>) -> Multiset<SSAVariable> {
    total(Seq::new(ops.len(), |o: int| op_written(ops[o])), ops.len())
}

/// What the phi nodes of a block write: each node its identifier.
pub open spec fn phis_written(phis: Seq<PhiView>) -> Multiset<SSAVariable> {
    Seq::new(phis.len(), |p: int| phis[p].ssa).to_multiset()
}

/// What a block writes.
pub open spec fn block_written(block: BlockView) -> Multiset<SSAVariable> {
    phis_written(block.phi_nodes).add(ops_written(block.ops))
}

/// What each of `blocks` writes.
pub open spec fn written_parts(blocks: Seq<BlockView>) -> Seq<Multiset<SSAVariable>> {
    Seq::new(blocks.len(), |l: int| block_written(blocks[l]))
}

/// What one operation reads.
pub open spec fn op_read(op: OpView) -> Multiset<SSAVariable> {
    variable_ids(op.reads, op.reads.len()).to_multiset()
}

/// What the operations of a block read.
pub open spec fn ops_read(ops: Seq<OpView>) -> Multiset<SSAVariable> {
    total(Seq::new(ops.len(), |o: int| op_read(ops[o])), ops.len())
}

/// What one phi node reads: the source of each of its pairs.
pub open spec fn phi_read(phi: PhiView) -> Multiset<SSAVariable> {
    Seq::new(phi.entries.len(), |e: int| phi.entries[e].1).to_multiset()
}

/// What the phi nodes of a block read.
pub open spec fn phis_read(phis: Seq<PhiView>) -> Multiset<SSAVariable> {
    total(Seq::new(phis.len(), |p: int| phi_read(phis[p])), phis.len())
}

/// What a block reads.
pub open spec fn block_read(block: BlockView) -> Multiset<SSAVariable> {
    phis_read(block.phi_nodes).add(ops_read(block.ops))
}

/// What each of `blocks` reads.
pub open spec fn read_parts(blocks: Seq<BlockView>) -> Seq<Multiset<SSAVariable>> {
    Seq::new(blocks.len(), |l: int| block_read(blocks[l]))
}

impl CfgView {
    /// The identifiers that the graph writes, each as often as it is
    /// written.
    pub open spec fn written(self) -> Multiset<SSAVariable> {
        total(written_parts(self.blocks), self.blocks.len())
    }

    /// The identifiers that the graph reads, each as often as it is read.
    pub open spec fn read(self) -> Multiset<SSAVariable> {
        total(read_parts(self.blocks), self.blocks.len())
    }

    /// Whether no identifier is written twice.
    pub open spec fn writes_once(self) -> bool {
        forall|id: SSAVariable| self.written().count(id) <= 1
    }

    /// Whether every identifier that is read is written.
    pub open spec fn reads_defined(self) -> bool {
        forall|id: SSAVariable| self.read().count(id) > 0 ==> self.written().count(id) > 0
    }
}

/// The identifiers of two runs of sites, one after the other.
pub proof fn lemma_ids_concat(a: Seq<Site>, b: Seq<Site>)
    ensures
        site_ids(a + b) == site_ids(a) + site_ids(b),
        site_ids(a + b).to_multiset() == site_ids(a).to_multiset().add(site_ids(b).to_multiset()),
{
    assert(site_ids(a + b) =~= site_ids(a) + site_ids(b));
    lemma_multiset_commutative(site_ids(a), site_ids(b));
}

/// No sites, no identifiers.
pub proof fn lemma_no_ids(sites: Seq<Site>)
    requires
        sites.len() == 0,
    ensures
        site_ids(sites).to_multiset() == Multiset::<SSAVariable>::empty(),
{
    lemma_empty_counts(site_ids(sites));
}

/// An empty sequence holds nothing.
pub proof fn lemma_empty_counts(ids: Seq<SSAVariable>)
    requires
        ids.len() == 0,
    ensures
        ids.to_multiset() == Multiset::<SSAVariable>::empty(),
{
    broadcast use vstd::multiset::group_multiset_axioms;
    broadcast use vstd::seq_lib::group_to_multiset_ensures;

    assert forall|id: SSAVariable| ids.to_multiset().count(id) == 0 by {
        if ids.to_multiset().count(id) > 0 {
            assert(ids.contains(id));
        }
    }
    assert(ids.to_multiset() =~= Multiset::<SSAVariable>::empty());
}

/// If `a` with `x` is `b` with `y`, so it is with `p` added to both.
proof fn lemma_both_add(
    a: Multiset<SSAVariable>,
    b: Multiset<SSAVariable>,
    x: Multiset<SSAVariable>,
    y: Multiset<SSAVariable>,
    p: Multiset<SSAVariable>,
)
    requires
        a.add(x) == b.add(y),
    ensures
        a.add(p).add(x) == b.add(p).add(y),
{
    broadcast use vstd::multiset::group_multiset_axioms;

    assert forall|v: SSAVariable| a.add(p).add(x).count(v) == b.add(p).add(y).count(v) by {
        assert(a.add(x).count(v) == b.add(y).count(v));
        assert(a.add(x).count(v) == a.count(v) + x.count(v));
        assert(b.add(y).count(v) == b.count(v) + y.count(v));
        assert(a.add(p).add(x).count(v) == a.add(p).count(v) + x.count(v));
        assert(b.add(p).add(y).count(v) == b.add(p).count(v) + y.count(v));
        assert(a.add(p).count(v) == a.count(v) + p.count(v));
        assert(b.add(p).count(v) == b.count(v) + p.count(v));
    }
    assert(a.add(p).add(x) =~= b.add(p).add(y));
}

/// If `a` with `x` is `b` with `y`, and `y` is `x` with `w`, then `a` is `b`
/// with `w`.
proof fn lemma_cancel(
    a: Multiset<SSAVariable>,
    b: Multiset<SSAVariable>,
    x: Multiset<SSAVariable>,
    y: Multiset<SSAVariable>,
    w: Multiset<SSAVariable>,
)
    requires
        a.add(x) == b.add(y),
        y == x.add(w),
    ensures
        a == b.add(w),
{
    broadcast use vstd::multiset::group_multiset_axioms;

    assert forall|v: SSAVariable| a.count(v) == b.add(w).count(v) by {
        assert(a.add(x).count(v) == b.add(y).count(v));
        assert(y.count(v) == x.add(w).count(v));
        assert(a.add(x).count(v) == a.count(v) + x.count(v));
        assert(b.add(y).count(v) == b.count(v) + y.count(v));
        assert(x.add(w).count(v) == x.count(v) + w.count(v));
        assert(b.add(w).count(v) == b.count(v) + w.count(v));
    }
    assert(a =~= b.add(w));
}

/// Replacing one part changes the sum by that part.
pub proof fn lemma_total_update(
    parts: Seq<Multiset<SSAVariable>>,
    l: int,
    part: Multiset<SSAVariable>,
    n: nat,
)
    requires
        0 <= l < parts.len(),
        n <= parts.len(),
    ensures
        n <= l ==> total(parts.update(l, part), n) == total(parts, n),
        n > l ==> total(parts.update(l, part), n).add(parts[l]) == total(parts, n).add(part),
    decreases n,
{
    broadcast use vstd::multiset::group_multiset_axioms;

    if n > 0 {
        lemma_total_update(parts, l, part, (n - 1) as nat);
        let updated = parts.update(l, part);
        assert(total(updated, n) == total(updated, (n - 1) as nat).add(updated[n - 1]));
        assert(total(parts, n) == total(parts, (n - 1) as nat).add(parts[n - 1]));
        if n - 1 > l {
            lemma_both_add(
                total(updated, (n - 1) as nat),
                total(parts, (n - 1) as nat),
                parts[l],
                part,
                parts[n - 1],
            );
        } else if n - 1 == l {
            assert(total(updated, n).add(parts[l]) =~= total(parts, n).add(part));
        }
    }
}

/// A part added at the end does not change the sum of the parts before it.
pub proof fn lemma_total_prefix(
    parts: Seq<Multiset<SSAVariable>>,
    part: Multiset<SSAVariable>,
    n: nat,
)
    requires
        n <= parts.len(),
    ensures
        total(parts.push(part), n) == total(parts, n),
    decreases n,
{
    if n > 0 {
        lemma_total_prefix(parts, part, (n - 1) as nat);
        assert(parts.push(part)[n - 1] == parts[n - 1]);
    }
}

/// A part added at the end adds itself to the sum.
pub proof fn lemma_total_push(parts: Seq<Multiset<SSAVariable>>, part: Multiset<SSAVariable>)
    ensures
        total(parts.push(part), parts.len() + 1) == total(parts, parts.len()).add(part),
{
    lemma_total_prefix(parts, part, parts.len());
    assert(parts.push(part)[parts.len() as int] == part);
}

/// The writes of the first `n` operations, counted.
proof fn lemma_ops_writes_counted(ops: Seq<OpView>, label: LabelN, n: nat)
    requires
        n <= ops.len(),
    ensures
        site_ids(ops_writes(ops, label, n)).to_multiset() == total(
            Seq::new(ops.len(), |o: int| op_written(ops[o])),
            n,
        ),
    decreases n,
{
    if n > 0 {
        lemma_ops_writes_counted(ops, label, (n - 1) as nat);
        lemma_ids_concat(ops_writes(ops, label, (n - 1) as nat), op_writes(ops[n - 1], label, n - 1));
        assert(site_ids(op_writes(ops[n - 1], label, n - 1)) =~= ops[n - 1].writes);
    } else {
        lemma_no_ids(ops_writes(ops, label, n));
    }
}

/// The writes of a block, counted.
proof fn lemma_block_writes_counted(block: BlockView, label: LabelN)
    ensures
        site_ids(block_writes(block, label)).to_multiset() == block_written(block),
{
    lemma_ops_writes_counted(block.ops, label, block.ops.len());
    lemma_ids_concat(
        phi_writes(block.phi_nodes, label),
        ops_writes(block.ops, label, block.ops.len()),
    );
    assert(site_ids(phi_writes(block.phi_nodes, label)) =~= Seq::new(
        block.phi_nodes.len(),
        |p: int| block.phi_nodes[p].ssa,
    ));
}

/// The writes of the first `n` blocks, counted.
proof fn lemma_blocks_writes_counted(blocks: Seq<BlockView>, n: nat)
    requires
        n <= blocks.len(),
    ensures
        site_ids(blocks_writes(blocks, n)).to_multiset() == total(written_parts(blocks), n),
    decreases n,
{
    if n > 0 {
        lemma_blocks_writes_counted(blocks, (n - 1) as nat);
        lemma_block_writes_counted(blocks[n - 1], LabelN((n - 1) as usize));
        lemma_ids_concat(
            blocks_writes(blocks, (n - 1) as nat),
            block_writes(blocks[n - 1], LabelN((n - 1) as usize)),
        );
    } else {
        lemma_no_ids(blocks_writes(blocks, n));
    }
}

/// The reads of the first `n` sources of an operation, as identifiers.
proof fn lemma_op_uses_ids(op: OpView, label: LabelN, index: int, n: nat)
    requires
        n <= op.reads.len(),
    ensures
        site_ids(op_uses(op, label, index, n)) == variable_ids(op.reads, n),
    decreases n,
{
    if n > 0 {
        lemma_op_uses_ids(op, label, index, (n - 1) as nat);
    }
    assert(site_ids(op_uses(op, label, index, n)) =~= variable_ids(op.reads, n));
}

/// The reads of the first `n` operations, counted.
proof fn lemma_ops_uses_counted(ops: Seq<OpView>, label: LabelN, n: nat)
    requires
        n <= ops.len(),
    ensures
        site_ids(ops_uses(ops, label, n)).to_multiset() == total(
            Seq::new(ops.len(), |o: int| op_read(ops[o])),
            n,
        ),
    decreases n,
{
    if n > 0 {
        lemma_ops_uses_counted(ops, label, (n - 1) as nat);
        lemma_ids_concat(
            ops_uses(ops, label, (n - 1) as nat),
            op_uses(ops[n - 1], label, n - 1, ops[n - 1].reads.len()),
        );
        lemma_op_uses_ids(ops[n - 1], label, n - 1, ops[n - 1].reads.len());
    } else {
        lemma_no_ids(ops_uses(ops, label, n));
    }
}

/// The reads of the first `n` phi nodes, counted.
proof fn lemma_phis_uses_counted(phis: Seq<PhiView>, label: LabelN, n: nat)
    requires
        n <= phis.len(),
    ensures
        site_ids(phis_uses(phis, label, n)).to_multiset() == total(
            Seq::new(phis.len(), |p: int| phi_read(phis[p])),
            n,
        ),
    decreases n,
{
    if n > 0 {
        lemma_phis_uses_counted(phis, label, (n - 1) as nat);
        lemma_ids_concat(phis_uses(phis, label, (n - 1) as nat), phi_uses(phis[n - 1], label, n - 1));
        assert(site_ids(phi_uses(phis[n - 1], label, n - 1)) =~= Seq::new(
            phis[n - 1].entries.len(),
            |e: int| phis[n - 1].entries[e].1,
        ));
    } else {
        lemma_no_ids(phis_uses(phis, label, n));
    }
}

/// The reads of the first `n` blocks, counted.
proof fn lemma_blocks_uses_counted(blocks: Seq<BlockView>, n: nat)
    requires
        n <= blocks.len(),
    ensures
        site_ids(blocks_uses(blocks, n)).to_multiset() == total(read_parts(blocks), n),
    decreases n,
{
    if n > 0 {
        let label = LabelN((n - 1) as usize);
        let block = blocks[n - 1];
        lemma_blocks_uses_counted(blocks, (n - 1) as nat);
        lemma_phis_uses_counted(block.phi_nodes, label, block.phi_nodes.len());
        lemma_ops_uses_counted(block.ops, label, block.ops.len());
        lemma_ids_concat(
            phis_uses(block.phi_nodes, label, block.phi_nodes.len()),
            ops_uses(block.ops, label, block.ops.len()),
        );
        lemma_ids_concat(blocks_uses(blocks, (n - 1) as nat), block_uses(block, label));
    } else {
        lemma_no_ids(blocks_uses(blocks, n));
    }
}

impl CfgView {
    /// What the graph writes and reads is what its sites write and read.
    pub proof fn lemma_sites_counted(self)
        ensures
            site_ids(self.write_sites()).to_multiset() == self.written(),
            site_ids(self.use_sites()).to_multiset() == self.read(),
    {
        lemma_blocks_writes_counted(self.blocks, self.blocks.len());
        lemma_blocks_uses_counted(self.blocks, self.blocks.len());
    }

    /// A graph in which one block is replaced writes and reads what it did,
    /// with the share of the block that went replaced by the share of the
    /// block that came.
    pub proof fn lemma_block_replaced(self, l: int, block: BlockView)
        requires
            0 <= l < self.blocks.len(),
        ensures
            ({
                let after = CfgView { blocks: self.blocks.update(l, block), ..self };
                &&& after.written().add(block_written(self.blocks[l])) == self.written().add(
                    block_written(block),
                )
                &&& after.read().add(block_read(self.blocks[l])) == self.read().add(
                    block_read(block),
                )
            }),
    {
        let after = CfgView { blocks: self.blocks.update(l, block), ..self };
        assert(written_parts(after.blocks) =~= written_parts(self.blocks).update(
            l,
            block_written(block),
        ));
        assert(read_parts(after.blocks) =~= read_parts(self.blocks).update(l, block_read(block)));
        lemma_total_update(written_parts(self.blocks), l, block_written(block), self.blocks.len());
        lemma_total_update(read_parts(self.blocks), l, block_read(block), self.blocks.len());
    }
}

impl BlockView {
    /// An operation appended to a block adds what it writes and reads.
    pub proof fn lemma_with_op_counts(self, op: OpView)
        ensures
            block_written(self.with_op(op)) == block_written(self).add(op_written(op)),
            block_read(self.with_op(op)) == block_read(self).add(op_read(op)),
    {
        broadcast use vstd::multiset::group_multiset_axioms;

        let written = Seq::new(self.ops.len(), |o: int| op_written(self.ops[o]));
        let read = Seq::new(self.ops.len(), |o: int| op_read(self.ops[o]));
        let ops = self.ops.push(op);
        assert(Seq::new(ops.len(), |o: int| op_written(ops[o])) =~= written.push(op_written(op)));
        assert(Seq::new(ops.len(), |o: int| op_read(ops[o])) =~= read.push(op_read(op)));
        lemma_total_push(written, op_written(op));
        lemma_total_push(read, op_read(op));
        assert(block_written(self.with_op(op)) =~= block_written(self).add(op_written(op)));
        assert(block_read(self.with_op(op)) =~= block_read(self).add(op_read(op)));
    }

    /// A phi entry added to a block adds the source it reads, and the
    /// identifier it writes where the block had no phi node for it.
    pub proof fn lemma_with_phi_entry_counts(
        self,
        ssa: SSAVariable,
        from: LabelN,
        from_ssa: SSAVariable,
    )
        ensures
            block_written(self.with_phi_entry(ssa, from, from_ssa)) == if phi_position(
                self.phi_nodes,
                ssa,
                0,
            ) < self.phi_nodes.len() {
                block_written(self)
            } else {
                block_written(self).insert(ssa)
            },
            block_read(self.with_phi_entry(ssa, from, from_ssa)) == block_read(self).insert(from_ssa),
    {
        broadcast use vstd::multiset::group_multiset_axioms;
        broadcast use vstd::seq_lib::group_to_multiset_ensures;

        let phis = self.phi_nodes;
        let at = phi_position(phis, ssa, 0);
        let after = self.with_phi_entry(ssa, from, from_ssa);
        let reads = Seq::new(phis.len(), |p: int| phi_read(phis[p]));
        lemma_phi_position(phis, ssa, 0);
        if at < phis.len() {
            let phi = phis[at];
            let grown = PhiView { ssa: phi.ssa, entries: phi.entries.push((from, from_ssa)) };
            assert(Seq::new(after.phi_nodes.len(), |p: int| after.phi_nodes[p].ssa) =~= Seq::new(
                phis.len(),
                |p: int| phis[p].ssa,
            ));
            assert(Seq::new(after.phi_nodes.len(), |p: int| phi_read(after.phi_nodes[p]))
                =~= reads.update(at, phi_read(grown)));
            assert(Seq::new(grown.entries.len(), |e: int| grown.entries[e].1) =~= Seq::new(
                phi.entries.len(),
                |e: int| phi.entries[e].1,
            ).push(from_ssa));
            assert(phi_read(grown) =~= phi_read(phi).insert(from_ssa));
            lemma_total_update(reads, at, phi_read(grown), phis.len());
            lemma_cancel(
                phis_read(after.phi_nodes),
                phis_read(phis),
                phi_read(phi),
                phi_read(grown),
                Multiset::singleton(from_ssa),
            );
            assert(phis_read(after.phi_nodes) =~= phis_read(phis).insert(from_ssa));
        } else {
            let made = PhiView { ssa, entries: seq![(from, from_ssa)] };
            assert(Seq::new(after.phi_nodes.len(), |p: int| after.phi_nodes[p].ssa) =~= Seq::new(
                phis.len(),
                |p: int| phis[p].ssa,
            ).push(ssa));
            assert(Seq::new(after.phi_nodes.len(), |p: int| phi_read(after.phi_nodes[p]))
                =~= reads.push(phi_read(made)));
            assert(Seq::new(made.entries.len(), |e: int| made.entries[e].1) =~= Seq::<
                SSAVariable,
            >::empty().push(from_ssa));
            assert(phi_read(made) =~= Multiset::singleton(from_ssa));
            lemma_total_push(reads, phi_read(made));
            assert(phis_read(after.phi_nodes) =~= phis_read(phis).insert(from_ssa));
        }
        assert(block_read(after) =~= block_read(self).insert(from_ssa));
        if at < phis.len() {
            assert(block_written(after) =~= block_written(self));
        } else {
            assert(block_written(after) =~= block_written(self).insert(ssa));
        }
    }
}

impl BuilderView {
    /// An operation appended adds what it writes and what it reads.
    pub proof fn lemma_basic_op_counts(
        self,
        kind: OpKindView,
        reads: Seq<Source>,
        writes: Seq<SSAVariable>,
    )
        requires
            self.cfg.has_block(self.current),
        ensures
            self.basic_op(kind, reads, writes).cfg.written() == self.cfg.written().add(
                writes.to_multiset(),
            ),
            self.basic_op(kind, reads, writes).cfg.read() == self.cfg.read().add(
                variable_ids(reads, reads.len()).to_multiset(),
            ),
    {
        broadcast use vstd::multiset::group_multiset_axioms;

        let op = OpView { kind, reads, writes };
        let block = self.current_block();
        block.lemma_with_op_counts(op);
        self.cfg.lemma_block_replaced(self.current.0 as int, block.with_op(op));
        let after = self.basic_op(kind, reads, writes).cfg;
        lemma_cancel(
            after.written(),
            self.cfg.written(),
            block_written(block),
            block_written(block.with_op(op)),
            op_written(op),
        );
        lemma_cancel(
            after.read(),
            self.cfg.read(),
            block_read(block),
            block_read(block.with_op(op)),
            op_read(op),
        );
    }

    /// A block added writes and reads nothing.
    pub proof fn lemma_add_block_counts(self)
        ensures
            self.add_block().cfg.written() == self.cfg.written(),
            self.add_block().cfg.read() == self.cfg.read(),
    {
        broadcast use vstd::multiset::group_multiset_axioms;

        let after = self.add_block().cfg;
        let empty = BlockView::empty();
        assert(written_parts(after.blocks) =~= written_parts(self.cfg.blocks).push(
            block_written(empty),
        ));
        assert(read_parts(after.blocks) =~= read_parts(self.cfg.blocks).push(block_read(empty)));
        lemma_total_push(written_parts(self.cfg.blocks), block_written(empty));
        lemma_total_push(read_parts(self.cfg.blocks), block_read(empty));
        lemma_empty_counts(Seq::new(empty.phi_nodes.len(), |p: int| empty.phi_nodes[p].ssa));
        assert(block_written(empty) =~= Multiset::empty());
        assert(block_read(empty) =~= Multiset::empty());
        assert(after.written() =~= self.cfg.written());
        assert(after.read() =~= self.cfg.read());
    }

    /// A jump added writes and reads nothing.
    pub proof fn lemma_add_jump_counts(self, from: LabelN, to: LabelN)
        ensures
            self.add_jump(from, to).cfg.written() == self.cfg.written(),
            self.add_jump(from, to).cfg.read() == self.cfg.read(),
    {
        broadcast use vstd::multiset::group_multiset_axioms;

        if self.cfg.has_block(from) {
            let block = self.cfg.blocks[from.0 as int];
            self.cfg.lemma_block_replaced(from.0 as int, block.with_jump(to));
            let after = self.add_jump(from, to).cfg;
            assert(block_written(block.with_jump(to)) =~= block_written(block).add(Multiset::empty()));
            assert(block_read(block.with_jump(to)) =~= block_read(block).add(Multiset::empty()));
            lemma_cancel(
                after.written(),
                self.cfg.written(),
                block_written(block),
                block_written(block.with_jump(to)),
                Multiset::empty(),
            );
            lemma_cancel(
                after.read(),
                self.cfg.read(),
                block_read(block),
                block_read(block.with_jump(to)),
                Multiset::empty(),
            );
            assert(after.written() =~= self.cfg.written());
            assert(after.read() =~= self.cfg.read());
        }
    }

    /// A phi entry added reads its source, and writes its identifier where
    /// the block had no phi node for it.
    pub proof fn lemma_add_phi_counts(
        self,
        from: LabelN,
        from_ssa: SSAVariable,
        to: LabelN,
        to_ssa: SSAVariable,
    )
        requires
            self.cfg.has_block(to),
        ensures
            self.add_phi(from, from_ssa, to, to_ssa).cfg.written() == if phi_position(
                self.cfg.blocks[to.0 as int].phi_nodes,
                to_ssa,
                0,
            ) < self.cfg.blocks[to.0 as int].phi_nodes.len() {
                self.cfg.written()
            } else {
                self.cfg.written().insert(to_ssa)
            },
            self.add_phi(from, from_ssa, to, to_ssa).cfg.read() == self.cfg.read().insert(from_ssa),
    {
        broadcast use vstd::multiset::group_multiset_axioms;

        let block = self.cfg.blocks[to.0 as int];
        block.lemma_with_phi_entry_counts(to_ssa, from, from_ssa);
        self.cfg.lemma_block_replaced(to.0 as int, block.with_phi_entry(to_ssa, from, from_ssa));
        let after = self.add_phi(from, from_ssa, to, to_ssa).cfg;
        let changed = block.with_phi_entry(to_ssa, from, from_ssa);
        assert(block_read(changed) =~= block_read(block).add(Multiset::singleton(from_ssa)));
        lemma_cancel(
            after.read(),
            self.cfg.read(),
            block_read(block),
            block_read(changed),
            Multiset::singleton(from_ssa),
        );
        assert(after.read() =~= self.cfg.read().insert(from_ssa));
        if phi_position(block.phi_nodes, to_ssa, 0) < block.phi_nodes.len() {
            assert(block_written(changed) =~= block_written(block).add(Multiset::empty()));
            lemma_cancel(
                after.written(),
                self.cfg.written(),
                block_written(block),
                block_written(changed),
                Multiset::empty(),
            );
            assert(after.written() =~= self.cfg.written());
        } else {
            assert(block_written(changed) =~= block_written(block).add(
                Multiset::singleton(to_ssa),
            ));
            lemma_cancel(
                after.written(),
                self.cfg.written(),
                block_written(block),
                block_written(changed),
                Multiset::singleton(to_ssa),
            );
            assert(after.written() =~= self.cfg.written().insert(to_ssa));
        }
    }
}

/// Whether one of `found` is a finding of `kind` that names `id`.
pub open spec fn names(found: Seq<Violation>, kind: ViolationKind, id: SSAVariable) -> bool {
    exists|k: int| 0 <= k < found.len() && (#[trigger] found[k]).kind == kind && found[k].ssa == id
}

/// Sites mention an identifier exactly if it is among their identifiers.
pub proof fn lemma_mentions_counted(sites: Seq<Site>, id: SSAVariable)
    ensures
        mentions(sites, id) <==> site_ids(sites).to_multiset().count(id) > 0,
{
    broadcast use vstd::seq_lib::group_to_multiset_ensures;

    let ids = site_ids(sites);
    if mentions(sites, id) {
        let i = choose|i: int| 0 <= i < sites.len() && (#[trigger] sites[i]).ssa == id;
        assert(ids[i] == id);
        assert(ids.contains(id));
    }
    if ids.to_multiset().count(id) > 0 {
        assert(ids.contains(id));
        let i = choose|i: int| 0 <= i < ids.len() && ids[i] == id;
        assert(sites[i].ssa == id);
    }
}

/// The identifiers of sites with one more site.
proof fn lemma_ids_last(sites: Seq<Site>)
    requires
        sites.len() > 0,
    ensures
        site_ids(sites).to_multiset() == site_ids(sites.drop_last()).to_multiset().insert(
            sites.last().ssa,
        ),
{
    broadcast use vstd::seq_lib::group_to_multiset_ensures;

    assert(site_ids(sites) =~= site_ids(sites.drop_last()).push(sites.last().ssa));
}

/// The double assignments name exactly the identifiers written twice or
/// more, and are findings of no other kind.
pub proof fn lemma_double_assigns_name(writes: Seq<Site>, id: SSAVariable)
    ensures
        names(double_assigns(writes), ViolationKind::DoubleAssign, id) <==> site_ids(
            writes,
        ).to_multiset().count(id) >= 2,
        forall|k: int|
            0 <= k < double_assigns(writes).len() ==> (#[trigger] double_assigns(writes)[k]).kind
                == ViolationKind::DoubleAssign,
    decreases writes.len(),
{
    broadcast use vstd::multiset::group_multiset_axioms;

    let found = double_assigns(writes);
    if writes.len() == 0 {
        lemma_no_ids(writes);
    } else {
        let before = writes.drop_last();
        let site = writes.last();
        let earlier = double_assigns(before);
        lemma_double_assigns_name(before, id);
        lemma_ids_last(writes);
        lemma_mentions_counted(before, site.ssa);
        let count = site_ids(before).to_multiset().count(id);
        assert(site_ids(writes).to_multiset().count(id) == if site.ssa == id {
            count + 1
        } else {
            count
        });
        if names(earlier, ViolationKind::DoubleAssign, id) {
            let k = choose|k: int|
                0 <= k < earlier.len() && (#[trigger] earlier[k]).kind == ViolationKind::DoubleAssign
                    && earlier[k].ssa == id;
            assert(found[k] == earlier[k]);
        }
        if mentions(before, site.ssa) && site.ssa == id {
            assert(found[earlier.len() as int].ssa == id);
        }
        if names(found, ViolationKind::DoubleAssign, id) {
            let k = choose|k: int|
                0 <= k < found.len() && (#[trigger] found[k]).kind == ViolationKind::DoubleAssign
                    && found[k].ssa == id;
            if k < earlier.len() {
                assert(earlier[k] == found[k]);
            }
        }
    }
}

/// The uses of unassigned identifiers name exactly the identifiers that are
/// read and not written, and are findings of no other kind.
pub proof fn lemma_unassigned_uses_name(uses: Seq<Site>, writes: Seq<Site>, id: SSAVariable)
    ensures
        names(unassigned_uses(uses, writes), ViolationKind::UseOfUnassigned, id) <==> site_ids(
            uses,
        ).to_multiset().count(id) > 0 && site_ids(writes).to_multiset().count(id) == 0,
        forall|k: int|
            0 <= k < unassigned_uses(uses, writes).len() ==> (#[trigger] unassigned_uses(
                uses,
                writes,
            )[k]).kind == ViolationKind::UseOfUnassigned,
    decreases uses.len(),
{
    broadcast use vstd::multiset::group_multiset_axioms;

    let found = unassigned_uses(uses, writes);
    if uses.len() == 0 {
        lemma_no_ids(uses);
    } else {
        let before = uses.drop_last();
        let site = uses.last();
        let earlier = unassigned_uses(before, writes);
        lemma_unassigned_uses_name(before, writes, id);
        lemma_ids_last(uses);
        lemma_mentions_counted(writes, site.ssa);
        let count = site_ids(before).to_multiset().count(id);
        assert(site_ids(uses).to_multiset().count(id) == if site.ssa == id {
            count + 1
        } else {
            count
        });
        if names(earlier, ViolationKind::UseOfUnassigned, id) {
            let k = choose|k: int|
                0 <= k < earlier.len() && (#[trigger] earlier[k]).kind
                    == ViolationKind::UseOfUnassigned && earlier[k].ssa == id;
            assert(found[k] == earlier[k]);
        }
        if !mentions(writes, site.ssa) && site.ssa == id {
            assert(found[earlier.len() as int].ssa == id);
        }
        if names(found, ViolationKind::UseOfUnassigned, id) {
            let k = choose|k: int|
                0 <= k < found.len() && (#[trigger] found[k]).kind == ViolationKind::UseOfUnassigned
                    && found[k].ssa == id;
            if k < earlier.len() {
                assert(earlier[k] == found[k]);
            }
        }
    }
}

impl CfgView {
    /// What validation finds, by identifier: a double assignment names an
    /// identifier exactly if the graph writes it twice or more, and a use of
    /// an unassigned identifier names one exactly if the graph reads it and
    /// does not write it.
    pub proof fn lemma_violations_name(self, id: SSAVariable)
        ensures
            names(self.violations(), ViolationKind::DoubleAssign, id) <==> self.written().count(id)
                >= 2,
            names(self.violations(), ViolationKind::UseOfUnassigned, id) <==> self.read().count(id)
                > 0 && self.written().count(id) == 0,
    {
        let doubles = double_assigns(self.write_sites());
        let unassigned = unassigned_uses(self.use_sites(), self.write_sites());
        let all = self.violations();
        self.lemma_sites_counted();
        lemma_double_assigns_name(self.write_sites(), id);
        lemma_unassigned_uses_name(self.use_sites(), self.write_sites(), id);
        if names(doubles, ViolationKind::DoubleAssign, id) {
            let k = choose|k: int|
                0 <= k < doubles.len() && (#[trigger] doubles[k]).kind == ViolationKind::DoubleAssign
                    && doubles[k].ssa == id;
            assert(all[k] == doubles[k]);
        }
        if names(unassigned, ViolationKind::UseOfUnassigned, id) {
            let k = choose|k: int|
                0 <= k < unassigned.len() && (#[trigger] unassigned[k]).kind
                    == ViolationKind::UseOfUnassigned && unassigned[k].ssa == id;
            assert(all[doubles.len() + k] == unassigned[k]);
        }
        if names(all, ViolationKind::DoubleAssign, id) {
            let k = choose|k: int|
                0 <= k < all.len() && (#[trigger] all[k]).kind == ViolationKind::DoubleAssign
                    && all[k].ssa == id;
            if k < doubles.len() {
                assert(doubles[k] == all[k]);
            } else {
                assert(unassigned[k - doubles.len()] == all[k]);
            }
        }
        if names(all, ViolationKind::UseOfUnassigned, id) {
            let k = choose|k: int|
                0 <= k < all.len() && (#[trigger] all[k]).kind == ViolationKind::UseOfUnassigned
                    && all[k].ssa == id;
            if k < doubles.len() {
                assert(doubles[k] == all[k]);
            } else {
                assert(unassigned[k - doubles.len()] == all[k]);
            }
        }
    }

    /// Validation finds nothing exactly in a graph that writes no identifier
    /// twice and reads none that it does not write.
    pub proof fn lemma_clean_iff_proper(self)
        ensures
            self.violations().len() == 0 <==> self.writes_once() && self.reads_defined(),
    {
        let all = self.violations();
        let doubles = double_assigns(self.write_sites());
        let unassigned = unassigned_uses(self.use_sites(), self.write_sites());
        if all.len() == 0 {
            assert forall|id: SSAVariable| self.written().count(id) <= 1 by {
                self.lemma_violations_name(id);
            }
            assert forall|id: SSAVariable| self.read().count(id) > 0 implies self.written().count(id)
                > 0 by {
                self.lemma_violations_name(id);
            }
        }
        if self.writes_once() && self.reads_defined() {
            if all.len() > 0 {
                let id = all[0].ssa;
                self.lemma_violations_name(id);
                lemma_double_assigns_name(self.write_sites(), id);
                lemma_unassigned_uses_name(self.use_sites(), self.write_sites(), id);
                if doubles.len() > 0 {
                    assert(all[0] == doubles[0]);
                    assert(names(all, ViolationKind::DoubleAssign, id));
                } else {
                    assert(all[0] == unassigned[0]);
                    assert(names(all, ViolationKind::UseOfUnassigned, id));
                }
            }
        }
    }
}

/// The sum of parts holds at least what one part holds.
pub proof fn lemma_total_holds(parts: Seq<Multiset<SSAVariable>>, l: int, n: nat, id: SSAVariable)
    requires
        0 <= l < n <= parts.len(),
    ensures
        total(parts, n).count(id) >= parts[l].count(id),
    decreases n,
{
    broadcast use vstd::multiset::group_multiset_axioms;

    assert(total(parts, n).count(id) == total(parts, (n - 1) as nat).count(id) + parts[n
        - 1].count(id));
    if l < n - 1 {
        lemma_total_holds(parts, l, (n - 1) as nat, id);
    }
}

/// The sum of parts holds at least what two of its parts hold together.
pub proof fn lemma_total_holds_both(
    parts: Seq<Multiset<SSAVariable>>,
    l1: int,
    l2: int,
    n: nat,
    id: SSAVariable,
)
    requires
        0 <= l1 < l2 < n <= parts.len(),
    ensures
        total(parts, n).count(id) >= parts[l1].count(id) + parts[l2].count(id),
    decreases n,
{
    broadcast use vstd::multiset::group_multiset_axioms;

    assert(total(parts, n).count(id) == total(parts, (n - 1) as nat).count(id) + parts[n
        - 1].count(id));
    if l2 < n - 1 {
        lemma_total_holds_both(parts, l1, l2, (n - 1) as nat, id);
    } else {
        lemma_total_holds(parts, l1, (n - 1) as nat, id);
    }
}

impl CfgView {
    /// How often the graph writes an identifier that the operation at
    /// position `o` of block `b` writes: at least once.
    proof fn lemma_op_write_counted(self, b: int, o: int, id: SSAVariable)
        requires
            0 <= b < self.blocks.len(),
            0 <= o < self.blocks[b].ops.len(),
            self.blocks[b].ops[o].writes.contains(id),
        ensures
            op_written(self.blocks[b].ops[o]).count(id) >= 1,
            block_written(self.blocks[b]).count(id) >= op_written(self.blocks[b].ops[o]).count(id),
            self.written().count(id) >= block_written(self.blocks[b]).count(id),
    {
        broadcast use vstd::multiset::group_multiset_axioms;
        broadcast use vstd::seq_lib::group_to_multiset_ensures;

        let ops = self.blocks[b].ops;
        lemma_total_holds(Seq::new(ops.len(), |o: int| op_written(ops[o])), o, ops.len(), id);
        lemma_total_holds(written_parts(self.blocks), b, self.blocks.len(), id);
        assert(block_written(self.blocks[b]).count(id) == phis_written(
            self.blocks[b].phi_nodes,
        ).count(id) + ops_written(ops).count(id));
    }

    /// A graph in which two operations write the same identifier is flagged
    /// by validation: it finds a double assignment that names the identifier.
    pub proof fn lemma_double_write_flagged(
        self,
        b1: int,
        o1: int,
        b2: int,
        o2: int,
        id: SSAVariable,
    )
        requires
            0 <= b1 < self.blocks.len(),
            0 <= o1 < self.blocks[b1].ops.len(),
            0 <= b2 < self.blocks.len(),
            0 <= o2 < self.blocks[b2].ops.len(),
            b1 != b2 || o1 != o2,
            self.blocks[b1].ops[o1].writes.contains(id),
            self.blocks[b2].ops[o2].writes.contains(id),
        ensures
            names(self.violations(), ViolationKind::DoubleAssign, id),
    {
        broadcast use vstd::multiset::group_multiset_axioms;

        self.lemma_op_write_counted(b1, o1, id);
        self.lemma_op_write_counted(b2, o2, id);
        if b1 == b2 {
            let ops = self.blocks[b1].ops;
            let parts = Seq::new(ops.len(), |o: int| op_written(ops[o]));
            if o1 < o2 {
                lemma_total_holds_both(parts, o1, o2, ops.len(), id);
            } else {
                lemma_total_holds_both(parts, o2, o1, ops.len(), id);
            }
            assert(block_written(self.blocks[b1]).count(id) == phis_written(
                self.blocks[b1].phi_nodes,
            ).count(id) + ops_written(ops).count(id));
        } else if b1 < b2 {
            lemma_total_holds_both(written_parts(self.blocks), b1, b2, self.blocks.len(), id);
        } else {
            lemma_total_holds_both(written_parts(self.blocks), b2, b1, self.blocks.len(), id);
        }
        self.lemma_violations_name(id);
    }
}

} // verus!
