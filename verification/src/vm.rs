//! The machine a program runs against: the three arenas that hold every
//! shared structure — scope nodes, record nodes and stream channels.

use vstd::prelude::*;
use crate::command::JobModel;
use crate::errors::{CrushError, CrushResult};
use crate::record::StructHeap;
use crate::scope::{Scope, ScopeModel, ScopeTree};
use crate::stream::Streams;

verus! {

/// The ghost record of one completed pipeline-stage run: which stage
/// definition ran, in which environment scope, on which channels, whether it
/// was run directly as a stage (rather than to evaluate a substitution
/// argument), and how it ended.
pub struct StageRun {
    pub job: JobModel,
    pub env: int,
    pub input: int,
    pub output: int,
    pub direct: bool,
    pub result: CrushResult<()>,
}

/// The shared state of one interpreter: scopes, records and channels, plus
/// the ghost log of completed stage runs that the pipeline contracts speak
/// of.
pub struct Vm {
    pub scopes: ScopeTree,
    pub structs: StructHeap,
    pub streams: Streams,
    pub stage_log: Ghost<Seq<StageRun>>,
}

impl Vm {
    /// Both arenas with internal invariants are well formed.
    pub open spec fn wf(self) -> bool {
        &&& self.scopes.wf()
        &&& self.structs.wf()
        &&& self.streams.wf()
    }

    /// A fresh machine with no scopes, records or channels.
    pub fn new() -> (vm: Vm)
        ensures
            vm.wf(),
            vm.scopes@.len() == 0,
            vm.structs@.len() == 0,
            vm.streams@.len() == 0,
    {
        Vm {
            scopes: ScopeTree::new(),
            structs: StructHeap::new(),
            streams: Streams::new(),
            stage_log: Ghost(Seq::empty()),
        }
    }
}

/// The completed stage runs recorded in `log` between positions `lo` and
/// `hi` that ran directly as stages of the pipeline whose child scope is
/// `child`, in completion order.
pub open spec fn stage_runs(log: Seq<StageRun>, lo: int, hi: int, child: int) -> Seq<StageRun>
    decreases hi - lo,
{
    if lo < 0 || lo >= hi || hi > log.len() {
        Seq::empty()
    } else {
        let rest = stage_runs(log, lo + 1, hi, child);
        if log[lo].env == child && log[lo].direct {
            seq![log[lo]] + rest
        } else {
            rest
        }
    }
}

/// Splits a stage-run range at `mid`.
pub proof fn lemma_runs_split(log: Seq<StageRun>, lo: int, mid: int, hi: int, child: int)
    requires
        0 <= lo <= mid <= hi <= log.len(),
    ensures
        stage_runs(log, lo, hi, child)
            == stage_runs(log, lo, mid, child) + stage_runs(log, mid, hi, child),
    decreases mid - lo,
{
    if lo < mid {
        lemma_runs_split(log, lo + 1, mid, hi, child);
        if log[lo].env == child && log[lo].direct {
            assert(seq![log[lo]] + (stage_runs(log, lo + 1, mid, child) + stage_runs(log, mid, hi, child))
                =~= (seq![log[lo]] + stage_runs(log, lo + 1, mid, child)) + stage_runs(log, mid, hi, child));
        }
    } else {
        assert(stage_runs(log, lo, lo, child) =~= Seq::<StageRun>::empty());
        assert(Seq::<StageRun>::empty() + stage_runs(log, lo, hi, child)
            =~= stage_runs(log, lo, hi, child));
    }
}

/// Two logs that agree on a range have the same stage runs over it.
pub proof fn lemma_runs_stable(
    log1: Seq<StageRun>,
    log2: Seq<StageRun>,
    lo: int,
    hi: int,
    child: int,
)
    requires
        hi <= log1.len(),
        hi <= log2.len(),
        forall|i: int| lo <= i < hi ==> log1[i] == log2[i],
    ensures
        stage_runs(log1, lo, hi, child) == stage_runs(log2, lo, hi, child),
    decreases hi - lo,
{
    if 0 <= lo && lo < hi {
        lemma_runs_stable(log1, log2, lo + 1, hi, child);
    }
}

/// A range of runs none of which belongs directly to `child` contributes no
/// stage run.
pub proof fn lemma_runs_none(log: Seq<StageRun>, lo: int, hi: int, child: int)
    requires
        hi <= log.len(),
        forall|i: int| lo <= i < hi ==> !((#[trigger] log[i]).env == child && log[i].direct),
    ensures
        stage_runs(log, lo, hi, child) == Seq::<StageRun>::empty(),
    decreases hi - lo,
{
    if 0 <= lo && lo < hi {
        lemma_runs_none(log, lo + 1, hi, child);
    }
}

/// Extending a log by runs that do not belong directly to `child`, followed
/// by one that does, appends exactly that run to the child's stage runs.
pub proof fn lemma_runs_extend(log1: Seq<StageRun>, log2: Seq<StageRun>, base: int, child: int)
    requires
        0 <= base <= log1.len() < log2.len(),
        forall|i: int| 0 <= i < log1.len() ==> #[trigger] log2[i] == log1[i],
        forall|i: int| log1.len() <= i < log2.len() - 1
            ==> !((#[trigger] log2[i]).env == child && log2[i].direct),
        log2.last().env == child && log2.last().direct,
    ensures
        stage_runs(log2, base, log2.len() as int, child)
            == stage_runs(log1, base, log1.len() as int, child).push(log2.last()),
    decreases 0int,
{
    let n1 = log1.len() as int;
    let n2 = log2.len() as int;
    lemma_runs_split(log2, base, n1, n2, child);
    lemma_runs_stable(log1, log2, base, n1, child);
    lemma_runs_split(log2, n1, n2 - 1, n2, child);
    lemma_runs_none(log2, n1, n2 - 1, child);
    assert(stage_runs(log2, n2, n2, child) =~= Seq::<StageRun>::empty());
    assert(seq![log2[n2 - 1]] + Seq::<StageRun>::empty() =~= seq![log2.last()]);
    assert(stage_runs(log2, n2 - 1, n2, child) =~= seq![log2.last()]);
    assert(stage_runs(log1, base, n1, child) + (Seq::<StageRun>::empty() + seq![log2.last()])
        =~= stage_runs(log1, base, n1, child).push(log2.last()));
}

/// The parts of a scope node that no command invocation ever changes: its
/// two parent edges and its loop and readonly flags.
pub open spec fn scope_skeleton(m: ScopeModel) -> (Option<int>, Option<int>, bool, bool) {
    (m.parent, m.caller, m.is_loop, m.is_readonly)
}

/// Running commands only grows the arenas: every scope keeps its skeleton,
/// every record that existed is untouched, and no channel disappears, so
/// every handle a caller held stays valid.
pub open spec fn vm_extends(a: Vm, b: Vm) -> bool {
    &&& a.stage_log@.len() <= b.stage_log@.len()
    &&& forall|i: int| 0 <= i < a.stage_log@.len()
        ==> #[trigger] b.stage_log@[i] == a.stage_log@[i]
    &&& a.scopes@.len() <= b.scopes@.len()
    &&& forall|i: int| 0 <= i < a.scopes@.len()
        ==> scope_skeleton(#[trigger] b.scopes@[i]) == scope_skeleton(a.scopes@[i])
    &&& a.structs@.len() <= b.structs@.len()
    &&& forall|i: int| 0 <= i < a.structs@.len() ==> #[trigger] b.structs@[i] == a.structs@[i]
    &&& a.streams@.len() <= b.streams@.len()
}

/// `vm_extends` composes.
pub proof fn lemma_vm_extends_trans(a: Vm, b: Vm, c: Vm)
    requires
        vm_extends(a, b),
        vm_extends(b, c),
    ensures
        vm_extends(a, c),
{
}

/// `vm_extends` is reflexive.
pub proof fn lemma_vm_extends_refl(a: Vm)
    ensures
        vm_extends(a, a),
{
}

} // verus!
