//! Validating that a graph is in static-single-assignment form: that no
//! identifier is written twice, and that every identifier read is written
//! somewhere.
//!
//! Only the existence of a write is asked for. Whether the write comes before
//! the read on every path is not looked at, so a write in a block that nothing
//! jumps to counts like any other.
use std::collections::HashSet;
use vstd::prelude::*;

use crate::ir::lir::{BlockView, CfgView, FunctionCfg, LabelN, OpView, PhiView, Source};
use crate::ir::SSAVariable;

verus! {

/// What is wrong with a graph.
#[derive(Debug, Clone, Copy, PartialEq, Eq, Hash, Structural)]
pub enum ViolationKind {
    /// The identifier was already written before this write.
    DoubleAssign,
    /// The identifier is read here and written nowhere.
    UseOfUnassigned,
}

/// Where in a graph an identifier is written or read: in the phi node or in
/// the operation at position `index` of the block `block`.
#[derive(Debug, Clone, Copy, PartialEq, Eq, Hash, Structural)]
pub enum Location {
    Phi { block: LabelN, index: usize },
    Op { block: LabelN, index: usize },
}

/// One finding of validation: what is wrong, with which identifier, and
/// where.
#[derive(Debug, Clone, Copy, PartialEq, Eq, Hash, Structural)]
pub struct Violation {
    pub kind: ViolationKind,
    pub ssa: SSAVariable,
    pub location: Location,
}

/// A place where an identifier is written or read.
pub struct Site {
    pub ssa: SSAVariable,
    pub location: Location,
}

/// The writes of the phi nodes of a block, in order: each node writes its
/// identifier.
pub open spec fn phi_writes(phis: Seq<PhiView>, label: LabelN) -> Seq<Site> {
    Seq::new(
        phis.len(),
        |p: int| Site { ssa: phis[p].ssa, location: Location::Phi { block: label, index: p as usize } },
    )
}

/// The writes of one operation, in order.
pub open spec fn op_writes(op: OpView, label: LabelN, index: int) -> Seq<Site> {
    Seq::new(
        op.writes.len(),
        |w: int|
            Site { ssa: op.writes[w], location: Location::Op { block: label, index: index as usize } },
    )
}

/// The writes of the first `n` operations of a block, in order.
pub open spec fn ops_writes(ops: Seq<OpView>, label: LabelN, n: nat) -> Seq<Site>
    decreases n,
{
    if n == 0 || n > ops.len() {
        Seq::empty()
    } else {
        ops_writes(ops, label, (n - 1) as nat) + op_writes(ops[n - 1], label, n - 1)
    }
}

/// The writes of a block: those of its phi nodes, then those of its
/// operations.
pub open spec fn block_writes(block: BlockView, label: LabelN) -> Seq<Site> {
    phi_writes(block.phi_nodes, label) + ops_writes(block.ops, label, block.ops.len())
}

/// The writes of the first `n` blocks, in order.
pub open spec fn blocks_writes(blocks: Seq<BlockView>, n: nat) -> Seq<Site>
    decreases n,
{
    if n == 0 || n > blocks.len() {
        Seq::empty()
    } else {
        blocks_writes(blocks, (n - 1) as nat) + block_writes(
            blocks[n - 1],
            LabelN((n - 1) as usize),
        )
    }
}

/// The reads of one phi node, in order: the source of each of its pairs.
pub open spec fn phi_uses(phi: PhiView, label: LabelN, index: int) -> Seq<Site> {
    Seq::new(
        phi.entries.len(),
        |e: int|
            Site {
                ssa: phi.entries[e].1,
                location: Location::Phi { block: label, index: index as usize },
            },
    )
}

/// The reads of the first `n` phi nodes of a block, in order.
pub open spec fn phis_uses(phis: Seq<PhiView>, label: LabelN, n: nat) -> Seq<Site>
    decreases n,
{
    if n == 0 || n > phis.len() {
        Seq::empty()
    } else {
        phis_uses(phis, label, (n - 1) as nat) + phi_uses(phis[n - 1], label, n - 1)
    }
}

/// The identifiers among the first `n` reads of one operation, in order. A
/// literal in place reads no identifier.
pub open spec fn op_uses(op: OpView, label: LabelN, index: int, n: nat) -> Seq<Site>
    decreases n,
{
    if n == 0 || n > op.reads.len() {
        Seq::empty()
    } else {
        let before = op_uses(op, label, index, (n - 1) as nat);
        match op.reads[n - 1] {
            Source::Variable(ssa) => before.push(
                Site { ssa, location: Location::Op { block: label, index: index as usize } },
            ),
            Source::Constant(_) => before,
        }
    }
}

/// The identifiers read by the first `n` operations of a block, in order.
pub open spec fn ops_uses(ops: Seq<OpView>, label: LabelN, n: nat) -> Seq<Site>
    decreases n,
{
    if n == 0 || n > ops.len() {
        Seq::empty()
    } else {
        ops_uses(ops, label, (n - 1) as nat) + op_uses(
            ops[n - 1],
            label,
            n - 1,
            ops[n - 1].reads.len(),
        )
    }
}

/// The reads of a block: those of its phi nodes, then those of its
/// operations.
pub open spec fn block_uses(block: BlockView, label: LabelN) -> Seq<Site> {
    phis_uses(block.phi_nodes, label, block.phi_nodes.len()) + ops_uses(
        block.ops,
        label,
        block.ops.len(),
    )
}

/// The reads of the first `n` blocks, in order.
pub open spec fn blocks_uses(blocks: Seq<BlockView>, n: nat) -> Seq<Site>
    decreases n,
{
    if n == 0 || n > blocks.len() {
        Seq::empty()
    } else {
        blocks_uses(blocks, (n - 1) as nat) + block_uses(blocks[n - 1], LabelN((n - 1) as usize))
    }
}

/// Whether one of `sites` is a site of `ssa`.
pub open spec fn mentions(sites: Seq<Site>, ssa: SSAVariable) -> bool {
    exists|i: int| 0 <= i < sites.len() && (#[trigger] sites[i]).ssa == ssa
}

/// A finding for each write of an identifier that an earlier write already
/// wrote, in the order of the writes.
pub open spec fn double_assigns(writes: Seq<Site>) -> Seq<Violation>
    decreases writes.len(),
{
    if writes.len() == 0 {
        Seq::empty()
    } else {
        let before = writes.drop_last();
        let site = writes.last();
        if mentions(before, site.ssa) {
            double_assigns(before).push(
                Violation {
                    kind: ViolationKind::DoubleAssign,
                    ssa: site.ssa,
                    location: site.location,
                },
            )
        } else {
            double_assigns(before)
        }
    }
}

/// A finding for each read of an identifier that none of `writes` writes, in
/// the order of the reads.
pub open spec fn unassigned_uses(uses: Seq<Site>, writes: Seq<Site>) -> Seq<Violation>
    decreases uses.len(),
{
    if uses.len() == 0 {
        Seq::empty()
    } else {
        let before = uses.drop_last();
        let site = uses.last();
        if mentions(writes, site.ssa) {
            unassigned_uses(before, writes)
        } else {
            unassigned_uses(before, writes).push(
                Violation {
                    kind: ViolationKind::UseOfUnassigned,
                    ssa: site.ssa,
                    location: site.location,
                },
            )
        }
    }
}

impl CfgView {
    /// Every write of the graph: block by block, in each block the phi
    /// nodes and then the operations.
    pub open spec fn write_sites(self) -> Seq<Site> {
        blocks_writes(self.blocks, self.blocks.len())
    }

    /// Every read of an identifier in the graph, in the same order.
    pub open spec fn use_sites(self) -> Seq<Site> {
        blocks_uses(self.blocks, self.blocks.len())
    }

    /// What validation finds: the double assignments, then the uses of
    /// unassigned identifiers.
    pub open spec fn violations(self) -> Seq<Violation> {
        double_assigns(self.write_sites()) + unassigned_uses(self.use_sites(), self.write_sites())
    }
}

/// Whether `assigns` holds the numbers of exactly the identifiers that
/// `sites` mention.
spec fn holds_written(assigns: Set<u32>, sites: Seq<Site>) -> bool {
    forall|x: u32| assigns.contains(x) <==> mentions(sites, SSAVariable(x))
}

/// Records one write: a finding if the identifier was written before.
fn note_write(
    assigns: &mut HashSet<u32>,
    found: &mut Vec<Violation>,
    ssa: SSAVariable,
    location: Location,
    Ghost(seen): Ghost<Seq<Site>>,
)
    requires
        holds_written(old(assigns)@, seen),
        old(found)@ == double_assigns(seen),
    ensures
        holds_written(final(assigns)@, seen.push(Site { ssa, location })),
        final(found)@ == double_assigns(seen.push(Site { ssa, location })),
{
    broadcast use vstd::std_specs::hash::group_hash_axioms;

    let ghost site = Site { ssa, location };
    let ghost after = seen.push(site);
    assert(after.drop_last() =~= seen);
    if assigns.contains(&ssa.0) {
        found.push(Violation { kind: ViolationKind::DoubleAssign, ssa, location });
    }
    assigns.insert(ssa.0);
    assert forall|x: u32| assigns@.contains(x) <==> mentions(after, SSAVariable(x)) by {
        if mentions(seen, SSAVariable(x)) {
            let i = choose|i: int| 0 <= i < seen.len() && (#[trigger] seen[i]).ssa == SSAVariable(x);
            assert(after[i].ssa == SSAVariable(x));
        }
        if x == ssa.0 {
            assert(after[seen.len() as int].ssa == SSAVariable(x));
        }
        if mentions(after, SSAVariable(x)) {
            let i = choose|i: int| 0 <= i < after.len() && (#[trigger] after[i]).ssa == SSAVariable(x);
            if i < seen.len() {
                assert(seen[i].ssa == SSAVariable(x));
            }
        }
    }
}

/// Records one read: a finding if the identifier is written nowhere.
fn note_use(
    assigns: &HashSet<u32>,
    found: &mut Vec<Violation>,
    ssa: SSAVariable,
    location: Location,
    Ghost(seen): Ghost<Seq<Site>>,
    Ghost(writes): Ghost<Seq<Site>>,
    Ghost(first): Ghost<Seq<Violation>>,
)
    requires
        holds_written(assigns@, writes),
        old(found)@ == first + unassigned_uses(seen, writes),
    ensures
        final(found)@ == first + unassigned_uses(seen.push(Site { ssa, location }), writes),
{
    broadcast use vstd::std_specs::hash::group_hash_axioms;

    let ghost site = Site { ssa, location };
    assert(seen.push(site).drop_last() =~= seen);
    if !assigns.contains(&ssa.0) {
        found.push(Violation { kind: ViolationKind::UseOfUnassigned, ssa, location });
    }
    assert(found@ =~= first + unassigned_uses(seen.push(site), writes));
}

/// Walks the graph twice: once to collect what is written, once to look up
/// what is read.
fn validate_proper_ssa(cfg: &FunctionCfg) -> (found: Vec<Violation>)
    ensures
        found@ == cfg@.violations(),
{
    let mut assigns: HashSet<u32> = HashSet::new();
    let mut found: Vec<Violation> = Vec::new();
    let ghost blocks = cfg@.blocks;
    let ghost mut seen: Seq<Site> = Seq::empty();
    assert(holds_written(assigns@, seen)) by {
        assert forall|x: u32| !mentions(seen, SSAVariable(x)) by {}
    }
    let mut b: usize = 0;
    while b < cfg.blocks.len()
        invariant
            b <= cfg.blocks.len(),
            blocks == cfg@.blocks,
            seen == blocks_writes(blocks, b as nat),
            holds_written(assigns@, seen),
            found@ == double_assigns(seen),
        decreases cfg.blocks.len() - b,
    {
        let block = &cfg.blocks[b];
        let label = LabelN(b);
        let ghost base = seen;
        let ghost view = block@;
        assert(view == blocks[b as int]);
        let mut p: usize = 0;
        while p < block.phi_nodes.len()
            invariant
                p <= block.phi_nodes.len(),
                view == block@,
                label == LabelN(b),
                seen == base + phi_writes(view.phi_nodes, label).subrange(0, p as int),
                holds_written(assigns@, seen),
                found@ == double_assigns(seen),
            decreases block.phi_nodes.len() - p,
        {
            let ssa = block.phi_nodes[p].ssa;
            let location = Location::Phi { block: label, index: p };
            note_write(&mut assigns, &mut found, ssa, location, Ghost(seen));
            proof {
                seen = seen.push(Site { ssa, location });
            }
            p = p + 1;
            assert(seen =~= base + phi_writes(view.phi_nodes, label).subrange(0, p as int));
        }
        assert(phi_writes(view.phi_nodes, label).subrange(0, p as int) =~= phi_writes(
            view.phi_nodes,
            label,
        ));
        let ghost after_phis = seen;
        let mut o: usize = 0;
        while o < block.ops.len()
            invariant
                o <= block.ops.len(),
                view == block@,
                label == LabelN(b),
                seen == after_phis + ops_writes(view.ops, label, o as nat),
                holds_written(assigns@, seen),
                found@ == double_assigns(seen),
            decreases block.ops.len() - o,
        {
            let op = &block.ops[o];
            let ghost before_op = seen;
            let mut w: usize = 0;
            while w < op.writes.len()
                invariant
                    w <= op.writes.len(),
                    op@ == view.ops[o as int],
                    o < view.ops.len(),
                    label == LabelN(b),
                    seen == before_op + op_writes(op@, label, o as int).subrange(0, w as int),
                    holds_written(assigns@, seen),
                    found@ == double_assigns(seen),
                decreases op.writes.len() - w,
            {
                let ssa = op.writes[w];
                let location = Location::Op { block: label, index: o };
                note_write(&mut assigns, &mut found, ssa, location, Ghost(seen));
                proof {
                    seen = seen.push(Site { ssa, location });
                }
                w = w + 1;
                assert(seen =~= before_op + op_writes(op@, label, o as int).subrange(0, w as int));
            }
            assert(op_writes(op@, label, o as int).subrange(0, w as int) =~= op_writes(
                op@,
                label,
                o as int,
            ));
            o = o + 1;
            assert(seen =~= after_phis + ops_writes(view.ops, label, o as nat));
        }
        b = b + 1;
        assert(seen =~= blocks_writes(blocks, b as nat));
    }
    let ghost writes = seen;
    let ghost first = found@;
    proof {
        seen = Seq::empty();
    }
    assert(found@ =~= first + unassigned_uses(seen, writes));
    let mut b: usize = 0;
    while b < cfg.blocks.len()
        invariant
            b <= cfg.blocks.len(),
            blocks == cfg@.blocks,
            seen == blocks_uses(blocks, b as nat),
            holds_written(assigns@, writes),
            found@ == first + unassigned_uses(seen, writes),
        decreases cfg.blocks.len() - b,
    {
        let block = &cfg.blocks[b];
        let label = LabelN(b);
        let ghost base = seen;
        let ghost view = block@;
        assert(view == blocks[b as int]);
        let mut p: usize = 0;
        while p < block.phi_nodes.len()
            invariant
                p <= block.phi_nodes.len(),
                view == block@,
                label == LabelN(b),
                seen == base + phis_uses(view.phi_nodes, label, p as nat),
                holds_written(assigns@, writes),
                found@ == first + unassigned_uses(seen, writes),
            decreases block.phi_nodes.len() - p,
        {
            let phi = &block.phi_nodes[p];
            let ghost before_phi = seen;
            let mut e: usize = 0;
            while e < phi.entries.len()
                invariant
                    e <= phi.entries.len(),
                    phi@ == view.phi_nodes[p as int],
                    p < view.phi_nodes.len(),
                    label == LabelN(b),
                    seen == before_phi + phi_uses(phi@, label, p as int).subrange(0, e as int),
                    holds_written(assigns@, writes),
                    found@ == first + unassigned_uses(seen, writes),
                decreases phi.entries.len() - e,
            {
                let ssa = phi.entries[e].1;
                let location = Location::Phi { block: label, index: p };
                note_use(&assigns, &mut found, ssa, location, Ghost(seen), Ghost(writes), Ghost(first));
                proof {
                    seen = seen.push(Site { ssa, location });
                }
                e = e + 1;
                assert(seen =~= before_phi + phi_uses(phi@, label, p as int).subrange(0, e as int));
            }
            assert(phi_uses(phi@, label, p as int).subrange(0, e as int) =~= phi_uses(
                phi@,
                label,
                p as int,
            ));
            p = p + 1;
            assert(seen =~= base + phis_uses(view.phi_nodes, label, p as nat));
        }
        let ghost after_phis = seen;
        let mut o: usize = 0;
        while o < block.ops.len()
            invariant
                o <= block.ops.len(),
                view == block@,
                label == LabelN(b),
                seen == after_phis + ops_uses(view.ops, label, o as nat),
                holds_written(assigns@, writes),
                found@ == first + unassigned_uses(seen, writes),
            decreases block.ops.len() - o,
        {
            let op = &block.ops[o];
            let ghost before_op = seen;
            let mut r: usize = 0;
            while r < op.reads.len()
                invariant
                    r <= op.reads.len(),
                    op@ == view.ops[o as int],
                    o < view.ops.len(),
                    label == LabelN(b),
                    seen == before_op + op_uses(op@, label, o as int, r as nat),
                    holds_written(assigns@, writes),
                    found@ == first + unassigned_uses(seen, writes),
                decreases op.reads.len() - r,
            {
                match &op.reads[r] {
                    Source::Variable(ssa) => {
                        let location = Location::Op { block: label, index: o };
                        note_use(
                            &assigns,
                            &mut found,
                            *ssa,
                            location,
                            Ghost(seen),
                            Ghost(writes),
                            Ghost(first),
                        );
                        proof {
                            seen = seen.push(Site { ssa: *ssa, location });
                        }
                    },
                    Source::Constant(_) => {},
                }
                r = r + 1;
                assert(seen =~= before_op + op_uses(op@, label, o as int, r as nat));
            }
            o = o + 1;
            assert(seen =~= after_phis + ops_uses(view.ops, label, o as nat));
        }
        b = b + 1;
        assert(seen =~= blocks_uses(blocks, b as nat));
    }
    found
}

/// Validates that `cfg` is in static-single-assignment form and returns what
/// it finds: a double assignment for every write of an identifier that was
/// written before, in the order of the writes, then a use of an unassigned
/// identifier for every read of one that nothing writes, in the order of the
/// reads. A graph in proper form gives the empty list.
pub fn validate(cfg: &FunctionCfg) -> (found: Vec<Violation>)
    ensures
        found@ == cfg@.violations(),
{
    validate_proper_ssa(cfg)
}

} // verus!
