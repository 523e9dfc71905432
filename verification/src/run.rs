//! A whole run of a loaded program: the decision at a conditional jump, the
//! merge of the machines of all finished paths, and the worklist that
//! drives the paths one step at a time.
use vstd::prelude::*;
use crate::access::{AccessPlan, PlanModel, SatAnswer, access_verdict, outside_message};
use crate::common::{
    AbstractComparison, AccessModel, CmpModel, MemoryAccess, MemorySafetyError, RegModel, RegisterKind,
    RegisterValue, comparison_abstracts, comparisons_equal, copy_comparison, push_str_debug, rv_eq,
    rv_new_model, str_debug,
};
use crate::computer::{X86Computer, X86Model, formulas_view, lanes_view, put_register, read_register};
use crate::engine::{ExecutionEngineX86, instrs_view};
use crate::explore::{
    PathModel, PathState, Step, StepModel, accesses_view, branch_path, branch_to, clone_machine, opt_path_view,
    paths_view, step_model, step_path,
};
use crate::text::{push_str, string_from_chars};

verus! {

/// The unknown value a merge gives where paths disagree.
pub open spec fn unknown_value() -> RegModel {
    rv_new_model(RegisterKind::Number, None, 0)
}

/// Every machine reads register `k` as the first one does.
pub open spec fn all_agree(ms: Seq<X86Model>, k: Seq<char>) -> bool {
    forall|j: int| 0 <= j < ms.len() ==> read_register(#[trigger] ms[j].registers, k) == read_register(ms[0].registers, k)
}

/// The merged value of register `k`: the common one, or unknown.
pub open spec fn merged_value(ms: Seq<X86Model>, k: Seq<char>) -> RegModel {
    if all_agree(ms, k) {
        read_register(ms[0].registers, k)
    } else {
        unknown_value()
    }
}

/// `regs` with each register of `keys`, in order, set to its merged value.
pub open spec fn merge_registers(regs: Map<Seq<char>, RegModel>, keys: Seq<Seq<char>>, ms: Seq<X86Model>) -> Map<Seq<char>, RegModel>
    decreases keys.len(),
{
    if keys.len() == 0 {
        regs
    } else {
        put_register(merge_registers(regs, keys.drop_last(), ms), keys.last(), merged_value(ms, keys.last()))
    }
}

/// Lane `i` of vector register `k` is the same in every machine that has `k`.
pub open spec fn lane_agree(ms: Seq<X86Model>, k: Seq<char>, i: int) -> bool {
    forall|j: int| 0 <= j < ms.len() && #[trigger] ms[j].simd.contains_key(k) ==> ms[j].simd[k][i] == ms[0].simd[k][i]
}

/// Every machine that has a vector register of the first has at least as
/// many lanes in it.
pub open spec fn lanes_fit(ms: Seq<X86Model>) -> bool {
    forall|j: int, k: Seq<char>|
        0 <= j < ms.len() && ms[0].simd.contains_key(k) && #[trigger] ms[j].simd.contains_key(k) ==> ms[j].simd[k].len()
            >= ms[0].simd[k].len()
}

/// The merged vector registers: each lane the common value, or unknown.
pub open spec fn merge_simd(ms: Seq<X86Model>) -> Map<Seq<char>, Seq<RegModel>> {
    Map::new(
        |k: Seq<char>| ms[0].simd.contains_key(k),
        |k: Seq<char>| Seq::new(ms[0].simd[k].len(), |i: int| if lane_agree(ms, k, i) {
            ms[0].simd[k][i]
        } else {
            unknown_value()
        }),
    )
}

/// The merge of two or more finished machines, registers visited in the
/// order `keys`: the first machine with each register and lane the common
/// value of all of them, or unknown where they differ, and no asserted
/// formulas.
pub open spec fn merge_machines(ms: Seq<X86Model>, keys: Seq<Seq<char>>) -> X86Model {
    X86Model {
        registers: merge_registers(ms[0].registers, keys, ms),
        simd: merge_simd(ms),
        assertions: Seq::empty(),
        ..ms[0]
    }
}

pub open spec fn machines_of(ts: Seq<PathState>) -> Seq<X86Model> {
    ts.map_values(|t: PathState| t.comp@)
}

/// The engine's machine after a run that finished the paths `ts`: unchanged
/// when none finished, the one machine when one did, the merge otherwise;
/// `None` when merging faults on a vector register with too few lanes.
pub open spec fn finished_machine(before: X86Model, ts: Seq<PathState>) -> Option<X86Model> {
    if ts.len() == 0 {
        Some(before)
    } else if ts.len() == 1 {
        Some(ts[0].comp@)
    } else if !lanes_fit(machines_of(ts)) {
        None
    } else {
        Some(merge_machines(machines_of(ts), ts[0].comp.registers.key_seq()))
    }
}

/// Whether every path reads register `name` as the first does.
fn registers_agree(ts: &Vec<PathState>, name: &str) -> (r: bool)
    requires
        ts@.len() >= 1,
    ensures
        r == all_agree(machines_of(ts@), name@),
{
    let ghost ms = machines_of(ts@);
    let first = ts[0].comp.get_register_value(name);
    let mut j: usize = 1;
    while j < ts.len()
        invariant
            1 <= j <= ts@.len(),
            ms == machines_of(ts@),
            first@ == read_register(ms[0].registers, name@),
            forall|q: int| 0 <= q < j ==> read_register(#[trigger] ms[q].registers, name@) == read_register(ms[0].registers, name@),
        decreases ts@.len() - j,
    {
        let v = ts[j].comp.get_register_value(name);
        if !rv_eq(&v, &first) {
            assert(read_register(ms[j as int].registers, name@) != read_register(ms[0].registers, name@));
            return false;
        }
        j = j + 1;
    }
    true
}

/// Lane `i` of vector register `name` merged over all paths, or `None`
/// when some path has that register with `i` lanes or fewer.
fn merged_lane(ts: &Vec<PathState>, name: &String, i: usize) -> (r: Option<RegisterValue>)
    requires
        ts@.len() >= 1,
        machines_of(ts@)[0].simd.contains_key(name@),
        i < machines_of(ts@)[0].simd[name@].len(),
    ensures
        r is None <==> exists|j: int| 0 <= j < ts@.len() && #[trigger] machines_of(ts@)[j].simd.contains_key(name@)
            && machines_of(ts@)[j].simd[name@].len() <= i,
        r matches Some(v) ==> v@ == (if lane_agree(machines_of(ts@), name@, i as int) {
            machines_of(ts@)[0].simd[name@][i as int]
        } else {
            unknown_value()
        }),
{
    let ghost ms = machines_of(ts@);
    let mut same = true;
    let mut j: usize = 0;
    let lanes0 = ts[0].comp.simd_registers.get(name.as_str());
    let first = match lanes0 {
        Some(l) => {
            assert(lanes_view(l@) == ms[0].simd[name@]);
            assert(lanes_view(l@)[i as int] == l@[i as int]@);
            crate::common::clone_rv(&l[i])
        },
        None => {
            assert(false);
            RegisterValue::new(RegisterKind::Number, None, 0)
        },
    };
    while j < ts.len()
        invariant
            j <= ts@.len(),
            ts@.len() >= 1,
            ms == machines_of(ts@),
            ms[0].simd.contains_key(name@),
            i < ms[0].simd[name@].len(),
            first@ == ms[0].simd[name@][i as int],
            forall|q: int| 0 <= q < j && #[trigger] ms[q].simd.contains_key(name@) ==> ms[q].simd[name@].len() > i,
            same <==> forall|q: int| 0 <= q < j && #[trigger] ms[q].simd.contains_key(name@) ==> ms[q].simd[name@][i as int] == ms[0].simd[name@][i as int],
        decreases ts@.len() - j,
    {
        match ts[j].comp.simd_registers.get(name.as_str()) {
            Some(l) => {
                assert(lanes_view(l@) == ms[j as int].simd[name@]);
                if l.len() <= i {
                    return None;
                }
                assert(lanes_view(l@)[i as int] == l@[i as int]@);
                if !rv_eq(&l[i], &first) {
                    same = false;
                }
            },
            None => {},
        }
        j = j + 1;
    }
    if same {
        Some(first)
    } else {
        Some(RegisterValue::new(RegisterKind::Number, None, 0))
    }
}


/// The merge of the machines of two or more finished paths, or `None`
/// when some path has a vector register with fewer lanes than the first.
pub fn merge_terminals(ts: &Vec<PathState>) -> (r: Option<X86Computer>)
    requires
        ts@.len() >= 2,
    ensures
        r is None <==> !lanes_fit(machines_of(ts@)),
        r matches Some(c) ==> c@ == merge_machines(machines_of(ts@), ts@[0].comp.registers.key_seq()),
{
    let ghost ms = machines_of(ts@);
    let mut merged = ts[0].comp.clone_shallow();
    let ghost keys = ts@[0].comp.registers.key_seq();
    let n = ts[0].comp.registers.len();
    let mut i: usize = 0;
    assert(keys.take(0) =~= Seq::<Seq<char>>::empty());
    while i < n
        invariant
            n == keys.len(),
            i <= n,
            ts@.len() >= 2,
            ms == machines_of(ts@),
            keys == ts@[0].comp.registers.key_seq(),
            merged@ == (X86Model { registers: merge_registers(ms[0].registers, keys.take(i as int), ms), assertions: Seq::empty(), ..ms[0] }),
        decreases n - i,
    {
        let name = ts[0].comp.registers.key_at(i);
        assert(keys.take(i + 1).drop_last() =~= keys.take(i as int));
        assert(keys.take(i + 1).last() == name@);
        if registers_agree(ts, name.as_str()) {
            let first = ts[0].comp.get_register_value(name.as_str());
            merged.set_register_value(name.as_str(), first);
        } else {
            merged.set_register_unknown(name.as_str());
        }
        i = i + 1;
    }
    assert(keys.take(n as int) =~= keys);
    let ghost ks = merged.simd_registers.key_seq();
    merged.simd_registers.facts();
    let m = merged.simd_registers.len();
    let mut k: usize = 0;
    while k < m
        invariant
            m == ks.len(),
            k <= m,
            ts@.len() >= 2,
            ms == machines_of(ts@),
            merged.simd_registers.key_seq() == ks,
            crate::strmap::distinct(ks),
            merged@.simd.dom() == ms[0].simd.dom(),
            forall|q: int| 0 <= q < ks.len() ==> #[trigger] merged@.simd.contains_key(ks[q]),
            forall|key: Seq<char>| #[trigger] merged@.simd.contains_key(key) ==> exists|q: int| 0 <= q < ks.len() && ks[q] == key,
            forall|q: int| 0 <= q < k ==> merged@.simd[#[trigger] ks[q]] == merge_simd(ms)[ks[q]],
            forall|q: int| k <= q < ks.len() ==> merged@.simd[#[trigger] ks[q]] == ms[0].simd[ks[q]],
            forall|q: int, j: int| 0 <= q < k && 0 <= j < ms.len() && #[trigger] ms[j].simd.contains_key(ks[q]) ==> ms[j].simd[ks[q]].len() >= ms[0].simd[ks[q]].len(),
            merged@.registers == merge_registers(ms[0].registers, keys, ms),
            merged@ == (X86Model { registers: merged@.registers, simd: merged@.simd, assertions: Seq::empty(), ..ms[0] }),
        decreases m - k,
    {
        let name = merged.simd_registers.key_at(k).clone();
        let len = merged.simd_registers.val_at(k).len();
        let ghost kq = ks[k as int];
        assert(name@ == kq);
        assert(ms[0].simd.contains_key(kq));
        assert(len == ms[0].simd[kq].len());
        let mut lanes: Vec<RegisterValue> = Vec::new();
        let mut l: usize = 0;
        while l < len
            invariant
                l <= len,
                len == ms[0].simd[kq].len(),
                name@ == kq,
                ms == machines_of(ts@),
                ts@.len() >= 2,
                ms[0].simd.contains_key(kq),
                lanes@.len() == l,
                forall|p: int| 0 <= p < l ==> (#[trigger] lanes@[p])@ == merge_simd(ms)[kq][p],
                forall|j: int| 0 <= j < ms.len() && #[trigger] ms[j].simd.contains_key(kq) ==> ms[j].simd[kq].len() >= l,
            decreases len - l,
        {
            match merged_lane(ts, &name, l) {
                Some(v) => {
                    lanes.push(v);
                },
                None => {
                    proof {
                        let j = choose|j: int| 0 <= j < ts@.len() && #[trigger] machines_of(ts@)[j].simd.contains_key(name@)
                            && machines_of(ts@)[j].simd[name@].len() <= l;
                        assert(ms[j].simd.contains_key(kq));
                        assert(!lanes_fit(ms));
                    }
                    return None;
                },
            }
            l = l + 1;
        }
        proof {
            assert(lanes_view(lanes@) =~= merge_simd(ms)[kq]);
        }
        let _old = merged.simd_registers.replace_at(k, lanes);
        proof {
            assert forall|q: int, j: int| 0 <= q < k + 1 && 0 <= j < ms.len() && #[trigger] ms[j].simd.contains_key(ks[q]) implies ms[j].simd[ks[q]].len() >= ms[0].simd[ks[q]].len() by {
                if q == k {
                    if ms[j].simd[kq].len() < ms[0].simd[kq].len() {
                        assert(false);
                    }
                }
            }
            assert forall|q: int| 0 <= q < ks.len() && q != k implies ks[q] != kq by {
            }
        }
        k = k + 1;
    }
    proof {
        assert(merged@.simd =~= merge_simd(ms));
        assert forall|j: int, key: Seq<char>| 0 <= j < ms.len() && ms[0].simd.contains_key(key) && #[trigger] ms[j].simd.contains_key(key) implies ms[j].simd[key].len() >= ms[0].simd[key].len() by {
            assert(merged@.simd.contains_key(key));
            let q = choose|q: int| 0 <= q < ks.len() && ks[q] == key;
        }
    }
    Some(merged)
}


/// Model of an entry of the engine's jump history (its machine left out).
pub struct HistModel {
    pub pc: usize,
    pub decision: bool,
    pub cond: CmpModel,
    pub accesses: Seq<AccessModel>,
}

pub open spec fn history_view(h: Seq<(usize, bool, AbstractComparison, Vec<MemoryAccess>, X86Computer)>) -> Seq<HistModel> {
    h.map_values(|e: (usize, bool, AbstractComparison, Vec<MemoryAccess>, X86Computer)| HistModel {
        pc: e.0,
        decision: e.1,
        cond: e.2@,
        accesses: accesses_view(e.3@),
    })
}

/// What the solver's answers on the condition (`taken`) and on its negation
/// (`not_taken`) settle: `Some(Some(d))` when one side is unsatisfiable (`d`
/// is whether the condition holds), `Some(None)` when an answer is unknown
/// and neither is unsatisfiable, `None` when both are satisfiable and the
/// history is to be asked.
pub open spec fn solver_decision(taken: SatAnswer, not_taken: SatAnswer) -> Option<Option<bool>> {
    match (taken, not_taken) {
        (SatAnswer::Sat, SatAnswer::Unsat) => Some(Some(true)),
        (SatAnswer::Unsat, SatAnswer::Sat) => Some(Some(false)),
        (SatAnswer::Unsat, _) => Some(Some(false)),
        (_, SatAnswer::Unsat) => Some(Some(true)),
        (SatAnswer::Sat, SatAnswer::Sat) => None,
        _ => Some(None),
    }
}

/// The decision of the latest earlier jump at `pc` made after the same reads.
pub open spec fn history_decision(h: Seq<HistModel>, pc: usize, accesses: Seq<AccessModel>) -> Option<bool>
    decreases h.len(),
{
    if h.len() == 0 {
        None
    } else if h.last().pc == pc && h.last().accesses == accesses {
        Some(h.last().decision)
    } else {
        history_decision(h.drop_last(), pc, accesses)
    }
}

/// The decision of the latest earlier jump at `pc` on the same condition.
pub open spec fn loop_decision(h: Seq<HistModel>, pc: usize, cond: CmpModel) -> Option<bool>
    decreases h.len(),
{
    if h.len() == 0 {
        None
    } else if h.last().pc == pc && h.last().cond == cond {
        Some(h.last().decision)
    } else {
        loop_decision(h.drop_last(), pc, cond)
    }
}

/// Whether the decision falls to the history: the solver settled nothing
/// and the condition names no abstract value.
pub open spec fn asks_history(answers: Option<(SatAnswer, SatAnswer)>, cond: CmpModel) -> bool {
    (match answers {
        Some(a) => solver_decision(a.0, a.1) is None,
        None => true,
    }) && comparison_abstracts(cond).len() == 0
}

/// The decision on a conditional jump at `pc` on `cond` after the reads
/// `accesses`: `Some(d)` when only the side where the condition is `d` is
/// followed, `None` when both are. The solver's answers decide first; a
/// condition on abstract values is then left open; otherwise, outside a
/// loop, an earlier jump at `pc` after the same reads is repeated, and in a
/// loop, an earlier jump at `pc` on the same condition is reversed.
pub open spec fn branch_decision(
    answers: Option<(SatAnswer, SatAnswer)>,
    cond: CmpModel,
    h: Seq<HistModel>,
    in_loop: bool,
    pc: usize,
    accesses: Seq<AccessModel>,
) -> Option<bool> {
    match answers {
        Some(a) if solver_decision(a.0, a.1) is Some => solver_decision(a.0, a.1)->0,
        _ => if comparison_abstracts(cond).len() > 0 {
            None
        } else if !in_loop {
            history_decision(h, pc, accesses)
        } else {
            match loop_decision(h, pc, cond) {
                Some(d) => Some(!d),
                None => None,
            }
        },
    }
}

/// Whether deciding leaves the loop: in a loop, the history decides.
pub open spec fn leaves_loop(answers: Option<(SatAnswer, SatAnswer)>, cond: CmpModel, h: Seq<HistModel>, in_loop: bool, pc: usize) -> bool {
    asks_history(answers, cond) && in_loop && loop_decision(h, pc, cond) is Some
}

fn accesses_equal(a: &Vec<MemoryAccess>, b: &Vec<MemoryAccess>) -> (r: bool)
    ensures
        r == (accesses_view(a@) == accesses_view(b@)),
{
    if a.len() != b.len() {
        assert(accesses_view(a@).len() != accesses_view(b@).len());
        return false;
    }
    let mut i: usize = 0;
    while i < a.len()
        invariant
            i <= a@.len() == b@.len(),
            forall|j: int| 0 <= j < i ==> a@[j]@ == b@[j]@,
        decreases a@.len() - i,
    {
        if !(a[i] == b[i]) {
            assert(accesses_view(a@)[i as int] != accesses_view(b@)[i as int]);
            return false;
        }
        i = i + 1;
    }
    assert(accesses_view(a@) =~= accesses_view(b@));
    true
}

impl ExecutionEngineX86 {
    /// Decides a conditional jump at `pc` on `expression`, given the reads
    /// of the path so far and the solver's answers on the condition and on
    /// its negation (`None` when the condition could not be given to the
    /// solver). Leaving a loop asserts the condition on the engine's machine.
    #[verifier::loop_isolation(false)]
    pub fn evaluate_branch_condition(
        &mut self,
        pc: usize,
        expression: &AbstractComparison,
        rw_list: &Vec<MemoryAccess>,
        answers: Option<(SatAnswer, SatAnswer)>,
    ) -> (r: Option<bool>)
        ensures
            r == branch_decision(answers, expression@, history_view(old(self).jump_history@), old(self).in_loop, pc, accesses_view(rw_list@)),
            final(self).program@ == old(self).program@,
            final(self).label_map@ == old(self).label_map@,
            final(self).jump_history@ == old(self).jump_history@,
            if leaves_loop(answers, expression@, history_view(old(self).jump_history@), old(self).in_loop, pc) {
                &&& !final(self).in_loop
                &&& final(self).computer@ == (X86Model { assertions: old(self).computer@.assertions.push(expression@), ..old(self).computer@ })
            } else {
                &&& final(self).in_loop == old(self).in_loop
                &&& final(self).computer@ == old(self).computer@
            },
    {
        let ghost h = history_view(self.jump_history@);
        match answers {
            Some((t, n)) => {
                match (t, n) {
                    (SatAnswer::Sat, SatAnswer::Unsat) => { return Some(true); },
                    (SatAnswer::Unsat, SatAnswer::Sat) => { return Some(false); },
                    (SatAnswer::Unsat, _) => { return Some(false); },
                    (_, SatAnswer::Unsat) => { return Some(true); },
                    (SatAnswer::Sat, SatAnswer::Sat) => {},
                    _ => { return None; },
                }
            },
            None => {},
        }
        if expression.get_abstracts().len() > 0 {
            return None;
        }
        assert(asks_history(answers, expression@));
        let mut k = self.jump_history.len();
        assert(h.take(k as int) =~= h);
        if !self.in_loop {
            while k > 0
                invariant
                    k <= self.jump_history@.len(),
                    h == history_view(self.jump_history@),
                    history_decision(h, pc, accesses_view(rw_list@)) == history_decision(h.take(k as int), pc, accesses_view(rw_list@)),
                decreases k,
            {
                let e = &self.jump_history[k - 1];
                assert(h.take(k as int).last() == h[k - 1]);
                assert(h.take(k as int).drop_last() =~= h.take(k - 1));
                if e.0 == pc && accesses_equal(&e.3, rw_list) {
                    return Some(e.1);
                }
                k = k - 1;
            }
            assert(h.take(0) =~= Seq::<HistModel>::empty());
            None
        } else {
            while k > 0
                invariant
                    k <= self.jump_history@.len(),
                    h == history_view(self.jump_history@),
                    loop_decision(h, pc, expression@) == loop_decision(h.take(k as int), pc, expression@),
                    self.computer@ == old(self).computer@,
                    self.computer.assertions@ == old(self).computer.assertions@,
                    self.program@ == old(self).program@,
                    self.label_map@ == old(self).label_map@,
                    self.jump_history@ == old(self).jump_history@,
                    self.in_loop == old(self).in_loop,
                decreases k,
            {
                assert(h.take(k as int).last() == h[k - 1]);
                assert(h.take(k as int).drop_last() =~= h.take(k - 1));
                let hit = self.jump_history[k - 1].0 == pc && comparisons_equal(&self.jump_history[k - 1].2, expression);
                if hit {
                    let d = self.jump_history[k - 1].1;
                    self.computer.assertions.push(copy_comparison(expression));
                    proof {
                        assert(formulas_view(self.computer.assertions@) =~= old(self).computer@.assertions.push(expression@));
                    }
                    self.in_loop = false;
                    return Some(!d);
                }
                k = k - 1;
            }
            assert(h.take(0) =~= Seq::<HistModel>::empty());
            None
        }
    }
}


/// Model of a `Pending`.
pub enum PendingModel {
    Branch { state: PathModel, cond: CmpModel, target: usize, fallthrough: usize, jump_if_true: bool },
    Read { next: Option<PathModel>, start: PlanModel, end: PlanModel, assertions: Seq<CmpModel> },
}

/// What the path taken off the worklist waits for: the solver's answers on
/// a jump's condition, or on the formulas of a read's two access plans
/// (together with the path's asserted formulas).
pub enum Pending {
    Branch { state: PathState, cond: AbstractComparison, target: usize, fallthrough: usize, jump_if_true: bool },
    Read { next: Option<PathState>, start: AccessPlan, end: AccessPlan, assertions: Vec<AbstractComparison> },
}

impl Pending {
    pub open spec fn view(&self) -> PendingModel {
        match self {
            Pending::Branch { state, cond, target, fallthrough, jump_if_true } => PendingModel::Branch {
                state: state@,
                cond: cond@,
                target: *target,
                fallthrough: *fallthrough,
                jump_if_true: *jump_if_true,
            },
            Pending::Read { next, start, end, assertions } => PendingModel::Read {
                next: opt_path_view(*next),
                start: start@,
                end: end@,
                assertions: formulas_view(assertions@),
            },
        }
    }
}

pub open spec fn pending_view(p: Option<Pending>) -> Option<PendingModel> {
    match p {
        Some(x) => Some(x@),
        None => None,
    }
}

/// What a call of `advance` or `answer_read` did.
pub enum Action {
    /// A path moved on.
    Stepped,
    /// A conditional jump waits for `answer_branch` (see `branch_query`).
    AskBranch,
    /// A read waits for `answer_read` (see `read_query`).
    AskRead,
    /// Every path has finished and the engine holds the final machine.
    Finished,
    /// The run stops with this message.
    Failed(String),
    /// The run overflows an `i64` or indexes past a vector register.
    Fault,
}

/// The paths still to run (the last runs next), the finished ones, and
/// the path that waits for the solver, if any.
pub struct Explorer {
    pub work: Vec<PathState>,
    pub terminals: Vec<PathState>,
    pub pending: Option<Pending>,
}

/// The paths that follow a decided jump: only the taken one when the
/// decision makes the jump, only the other when it does not, both (taken
/// last, so it runs first) when nothing is decided.
pub open spec fn branch_successors(s: PathModel, target: usize, fallthrough: usize, jump_if_true: bool, d: Option<bool>) -> Seq<PathModel> {
    match d {
        Some(x) => if x == jump_if_true {
            seq![branch_path(s, target)]
        } else {
            seq![branch_path(s, fallthrough)]
        },
        None => seq![branch_path(s, fallthrough), branch_path(s, target)],
    }
}

/// The verdict on one end of a read: `None` when it is safe, the error
/// message otherwise (as `access_verdict` gives it).
pub open spec fn verdict(plan: PlanModel, low: SatAnswer, up: SatAnswer) -> Option<Seq<char>> {
    match plan {
        PlanModel::Fail(msg) => Some(msg),
        PlanModel::Check { base, offset, .. } => if low == SatAnswer::Unsat && up == SatAnswer::Unsat {
            None
        } else {
            Some(outside_message(base, offset))
        },
    }
}

pub open spec fn opt_message_debug(v: Option<Seq<char>>) -> Seq<char> {
    match v {
        Some(m) => "Some("@ + str_debug(m) + ")"@,
        None => "None"@,
    }
}

/// The message of a read found unsafe.
pub open spec fn read_failure(start: Option<Seq<char>>, end: Option<Seq<char>>) -> Seq<char> {
    "Memory safety error: start "@ + opt_message_debug(start) + " end "@ + opt_message_debug(end)
}

/// The formulas to ask of a read: those of each plan that checks, after the
/// path's asserted formulas; none for a plan that fails outright.
pub struct ReadQuery {
    pub start_low: Option<Vec<AbstractComparison>>,
    pub start_up: Option<Vec<AbstractComparison>>,
    pub end_low: Option<Vec<AbstractComparison>>,
    pub end_up: Option<Vec<AbstractComparison>>,
}

pub open spec fn opt_formulas_view(v: Option<Vec<AbstractComparison>>) -> Option<Seq<CmpModel>> {
    match v {
        Some(x) => Some(formulas_view(x@)),
        None => None,
    }
}

/// The formulas to ask for one bound of a plan.
pub open spec fn plan_formulas(plan: PlanModel, assertions: Seq<CmpModel>, upper: bool) -> Option<Seq<CmpModel>> {
    match plan {
        PlanModel::Fail(_) => None,
        PlanModel::Check { low, up, .. } => Some(assertions + if upper {
            up
        } else {
            low
        }),
    }
}

fn clone_formulas(v: &Vec<AbstractComparison>) -> (r: Vec<AbstractComparison>)
    ensures
        formulas_view(r@) == formulas_view(v@),
{
    let mut out: Vec<AbstractComparison> = Vec::new();
    let mut i: usize = 0;
    while i < v.len()
        invariant
            i <= v@.len(),
            out@.len() == i,
            forall|j: int| 0 <= j < i ==> (#[trigger] out@[j])@ == v@[j]@,
        decreases v@.len() - i,
    {
        out.push(copy_comparison(&v[i]));
        i = i + 1;
    }
    assert(formulas_view(out@) =~= formulas_view(v@));
    out
}

fn formulas_for(plan: &AccessPlan, assertions: &Vec<AbstractComparison>, upper: bool) -> (r: Option<Vec<AbstractComparison>>)
    ensures
        opt_formulas_view(r) == plan_formulas(plan@, formulas_view(assertions@), upper),
{
    match plan {
        AccessPlan::Fail(_) => None,
        AccessPlan::Check { low, up, .. } => {
            let mut out = clone_formulas(assertions);
            let extra = if upper {
                up
            } else {
                low
            };
            let ghost before = formulas_view(out@);
            let mut i: usize = 0;
            while i < extra.len()
                invariant
                    i <= extra@.len(),
                    formulas_view(out@) == before + formulas_view(extra@).take(i as int),
                decreases extra@.len() - i,
            {
                let c = copy_comparison(&extra[i]);
                let ghost prev = out@;
                out.push(c);
                assert(formulas_view(out@) =~= formulas_view(prev).push(c@));
                i = i + 1;
                assert(formulas_view(extra@).take(i as int) =~= formulas_view(extra@).take(i - 1).push(extra@[i - 1]@));
            }
            assert(formulas_view(extra@).take(i as int) =~= formulas_view(extra@));
            Some(out)
        },
    }
}

fn push_opt_message(out: &mut Vec<char>, v: &Result<(), MemorySafetyError>)
    ensures
        final(out)@ == old(out)@ + opt_message_debug(match v {
            Ok(_) => None,
            Err(e) => Some(e.message_view()),
        }),
{
    match v {
        Ok(_) => push_str(out, "None"),
        Err(e) => {
            push_str(out, "Some(");
            let m = e.message();
            push_str_debug(out, &m);
            push_str(out, ")");
        },
    }
}

impl Explorer {
    pub open spec fn work_view(&self) -> Seq<PathModel> {
        paths_view(self.work@)
    }

    pub open spec fn terminals_view(&self) -> Seq<PathModel> {
        paths_view(self.terminals@)
    }

    /// A run of `engine` from its first instruction: one path, on a copy of
    /// the engine's machine with its asserted formulas, which every path
    /// keeps and every read check is asked under.
    pub fn new(engine: &ExecutionEngineX86) -> (r: Self)
        ensures
            r.work_view() == seq![PathModel { pc: 0, machine: engine.computer@, last_comparison: None, accesses: Seq::empty() }],
            r.terminals@.len() == 0,
            r.pending is None,
    {
        let first = PathState { pc: 0, comp: clone_machine(&engine.computer), last_comparison: None, rw_list: Vec::new() };
        assert(accesses_view(first.rw_list@) =~= Seq::<AccessModel>::empty());
        let work = vec![first];
        assert(paths_view(work@) =~= seq![work@[0]@]);
        Explorer { work, terminals: Vec::new(), pending: None }
    }

    /// Takes the next path off the worklist and runs one step of it. With
    /// no path left, the machines of the finished paths go back into the
    /// engine (see `finished_machine`).
    pub fn advance(&mut self, engine: &mut ExecutionEngineX86) -> (r: Action)
        requires
            old(self).pending is None,
        ensures
            final(engine).program@ == old(engine).program@,
            final(engine).label_map@ == old(engine).label_map@,
            final(engine).jump_history@ == old(engine).jump_history@,
            final(engine).in_loop == old(engine).in_loop,
            old(self).work@.len() == 0 ==> match finished_machine(old(engine).computer@, old(self).terminals@) {
                Some(m) => r is Finished && final(engine).computer@ == m,
                None => r is Fault,
            },
            old(self).work@.len() == 0 ==> {
                &&& final(self).work@.len() == 0
                &&& final(self).pending is None
                &&& final(self).terminals_view() == if old(self).terminals@.len() == 1 {
                    Seq::empty()
                } else {
                    old(self).terminals_view()
                }
            },
            old(self).work@.len() > 0 ==> {
                let s = old(self).work@.last();
                let rest = paths_view(old(self).work@.drop_last());
                &&& final(engine).computer@ == old(engine).computer@
                &&& if s.pc >= old(engine).program@.len() {
                    &&& r is Stepped
                    &&& final(self).work_view() == rest
                    &&& final(self).terminals_view() == old(self).terminals_view().push(s@)
                    &&& final(self).pending is None
                } else {
                    match step_model(instrs_view(old(engine).program@), old(engine).label_map@, s@) {
                        StepModel::Next(succ) => {
                            &&& r is Stepped
                            &&& final(self).work_view() == rest + succ
                            &&& final(self).terminals_view() == old(self).terminals_view()
                            &&& final(self).pending is None
                        },
                        StepModel::Branch { state, cond, target, fallthrough, jump_if_true } => {
                            &&& r is AskBranch
                            &&& final(self).work_view() == rest
                            &&& final(self).terminals_view() == old(self).terminals_view()
                            &&& pending_view(final(self).pending) == Some(PendingModel::Branch { state, cond, target, fallthrough, jump_if_true })
                        },
                        StepModel::Read { next, start, end } => {
                            &&& r is AskRead
                            &&& final(self).work_view() == rest
                            &&& final(self).terminals_view() == old(self).terminals_view()
                            &&& pending_view(final(self).pending) == Some(PendingModel::Read { next, start, end, assertions: s@.machine.assertions })
                        },
                        StepModel::Fail(msg) => {
                            &&& r matches Action::Failed(m) && m@ == msg
                            &&& final(self).work_view() == rest
                            &&& final(self).terminals_view() == old(self).terminals_view()
                            &&& final(self).pending is None
                        },
                        StepModel::Fault => {
                            &&& r is Fault
                            &&& final(self).work_view() == rest
                            &&& final(self).terminals_view() == old(self).terminals_view()
                            &&& final(self).pending is None
                        },
                    }
                }
            },
    {
        match self.work.pop() {
            None => {
                let n = self.terminals.len();
                if n == 0 {
                    return Action::Finished;
                } else if n == 1 {
                    let t = self.terminals.pop().unwrap();
                    engine.computer = t.comp;
                    return Action::Finished;
                } else {
                    match merge_terminals(&self.terminals) {
                        Some(c) => {
                            engine.computer = c;
                            return Action::Finished;
                        },
                        None => {
                            return Action::Fault;
                        },
                    }
                }
            },
            Some(s) => {
                assert(old(self).work@.drop_last() == self.work@);
                if s.pc >= engine.program.len() {
                    let ghost t = self.terminals@;
                    self.terminals.push(s);
                    assert(paths_view(self.terminals@) =~= paths_view(t).push(s@));
                    return Action::Stepped;
                }
                let assertions = clone_formulas(&s.comp.assertions);
                let ghost sm = s@;
                match step_path(&engine.program, &engine.label_map, s) {
                    Step::Next(succ) => {
                        let ghost w = self.work@;
                        let mut succ = succ;
                        let ghost sv = paths_view(succ@);
                        self.work.append(&mut succ);
                        assert(paths_view(self.work@) =~= paths_view(w) + sv);
                        Action::Stepped
                    },
                    Step::Branch { state, cond, target, fallthrough, jump_if_true } => {
                        self.pending = Some(Pending::Branch { state, cond, target, fallthrough, jump_if_true });
                        Action::AskBranch
                    },
                    Step::Read { next, start, end } => {
                        self.pending = Some(Pending::Read { next, start, end, assertions });
                        Action::AskRead
                    },
                    Step::Fail(m) => Action::Failed(m),
                    Step::Fault => Action::Fault,
                }
            },
        }
    }

    /// The formulas of the waiting jump: the engine's asserted formulas and
    /// the condition (to be asked as is and negated).
    pub fn branch_query(&self, engine: &ExecutionEngineX86) -> (r: (Vec<AbstractComparison>, AbstractComparison))
        requires
            self.pending matches Some(p) && p is Branch,
        ensures
            formulas_view(r.0@) == engine.computer@.assertions,
            pending_view(self.pending) matches Some(PendingModel::Branch { cond, .. }) && r.1@ == cond,
    {
        match &self.pending {
            Some(Pending::Branch { cond, .. }) => (clone_formulas(&engine.computer.assertions), copy_comparison(cond)),
            _ => {
                assert(false);
                (Vec::new(), copy_comparison_default())
            },
        }
    }

    /// Decides the waiting jump from the solver's answers on its condition
    /// and on the negation (`None` when the condition could not be given to
    /// the solver), and pushes the paths that follow.
    pub fn answer_branch(&mut self, engine: &mut ExecutionEngineX86, answers: Option<(SatAnswer, SatAnswer)>)
        requires
            old(self).pending matches Some(p) && p is Branch,
        ensures
            final(self).pending is None,
            final(self).terminals_view() == old(self).terminals_view(),
            pending_view(old(self).pending) matches Some(PendingModel::Branch { state, cond, target, fallthrough, jump_if_true }) && {
                let h = history_view(old(engine).jump_history@);
                let d = branch_decision(answers, cond, h, old(engine).in_loop, state.pc, state.accesses);
                &&& final(self).work_view() == old(self).work_view() + branch_successors(state, target, fallthrough, jump_if_true, d)
                &&& final(engine).program@ == old(engine).program@
                &&& final(engine).label_map@ == old(engine).label_map@
                &&& final(engine).jump_history@ == old(engine).jump_history@
                &&& if leaves_loop(answers, cond, h, old(engine).in_loop, state.pc) {
                    &&& !final(engine).in_loop
                    &&& final(engine).computer@ == (X86Model { assertions: old(engine).computer@.assertions.push(cond), ..old(engine).computer@ })
                } else {
                    &&& final(engine).in_loop == old(engine).in_loop
                    &&& final(engine).computer@ == old(engine).computer@
                }
            },
    {
        let p = self.pending.take();
        match p {
            Some(Pending::Branch { state, cond, target, fallthrough, jump_if_true }) => {
                let d = engine.evaluate_branch_condition(state.pc, &cond, &state.rw_list, answers);
                let ghost w = self.work@;
                match d {
                    Some(x) => {
                        if x == jump_if_true {
                            let t = branch_to(&state, target);
                            self.work.push(t);
                        } else {
                            let f = branch_to(&state, fallthrough);
                            self.work.push(f);
                        }
                        assert(paths_view(self.work@) =~= paths_view(w) + branch_successors(state@, target, fallthrough, jump_if_true, d));
                    },
                    None => {
                        let f = branch_to(&state, fallthrough);
                        let t = branch_to(&state, target);
                        self.work.push(f);
                        self.work.push(t);
                        assert(paths_view(self.work@) =~= paths_view(w) + branch_successors(state@, target, fallthrough, jump_if_true, d));
                    },
                }
            },
            _ => {
                assert(false);
            },
        }
    }

    /// The formulas of the waiting read.
    pub fn read_query(&self) -> (r: ReadQuery)
        requires
            self.pending matches Some(p) && p is Read,
        ensures
            pending_view(self.pending) matches Some(PendingModel::Read { start, end, assertions, .. }) && {
                &&& opt_formulas_view(r.start_low) == plan_formulas(start, assertions, false)
                &&& opt_formulas_view(r.start_up) == plan_formulas(start, assertions, true)
                &&& opt_formulas_view(r.end_low) == plan_formulas(end, assertions, false)
                &&& opt_formulas_view(r.end_up) == plan_formulas(end, assertions, true)
            },
    {
        match &self.pending {
            Some(Pending::Read { start, end, assertions, .. }) => ReadQuery {
                start_low: formulas_for(start, assertions, false),
                start_up: formulas_for(start, assertions, true),
                end_low: formulas_for(end, assertions, false),
                end_up: formulas_for(end, assertions, true),
            },
            _ => {
                assert(false);
                ReadQuery { start_low: None, start_up: None, end_low: None, end_up: None }
            },
        }
    }

    /// Finishes the waiting read from the solver's answers on the formulas
    /// of `read_query` (`start` for its first byte, `end` for its last; each
    /// pair answers the lower then the upper bound): the path moves on when
    /// both ends are safe, the run fails otherwise.
    pub fn answer_read(&mut self, start: (SatAnswer, SatAnswer), end: (SatAnswer, SatAnswer)) -> (r: Action)
        requires
            old(self).pending matches Some(p) && p is Read,
        ensures
            final(self).pending is None,
            final(self).terminals_view() == old(self).terminals_view(),
            pending_view(old(self).pending) matches Some(PendingModel::Read { next, start: sp, end: ep, .. }) && {
                let v1 = verdict(sp, start.0, start.1);
                let v2 = verdict(ep, end.0, end.1);
                if v1 is None && v2 is None {
                    match next {
                        Some(n) => r is Stepped && final(self).work_view() == old(self).work_view().push(n),
                        None => r is Fault,
                    }
                } else {
                    r matches Action::Failed(m) && m@ == read_failure(v1, v2)
                }
            },
    {
        let p = self.pending.take();
        match p {
            Some(Pending::Read { next, start: sp, end: ep, .. }) => {
                let v1 = access_verdict(&sp, start.0, start.1);
                let v2 = access_verdict(&ep, end.0, end.1);
                if v1.is_ok() && v2.is_ok() {
                    match next {
                        Some(n) => {
                            let ghost w = self.work@;
                            self.work.push(n);
                            assert(paths_view(self.work@) =~= paths_view(w).push(n@));
                            Action::Stepped
                        },
                        None => Action::Fault,
                    }
                } else {
                    let mut out: Vec<char> = Vec::new();
                    push_str(&mut out, "Memory safety error: start ");
                    push_opt_message(&mut out, &v1);
                    push_str(&mut out, " end ");
                    push_opt_message(&mut out, &v2);
                    Action::Failed(string_from_chars(out.as_slice()))
                }
            },
            _ => {
                assert(false);
                Action::Fault
            },
        }
    }
}

fn copy_comparison_default() -> (r: AbstractComparison)
    ensures
        r@ == (CmpModel { op: "=="@, left: crate::common::ExprModel::Empty, right: crate::common::ExprModel::Empty }),
{
    AbstractComparison::new("==", crate::common::AbstractExpression::Empty, crate::common::AbstractExpression::Empty)
}


/// The solver prunes only a side it found unsatisfiable: when its answers
/// settle the jump to one side, the condition (if the jump follows the side
/// where it is false) or its negation (if the side where it is true) was
/// answered unsatisfiable; when neither answer is unsatisfiable it settles
/// nothing.
pub proof fn law_solver_prunes_only_unsatisfiable_sides(taken: SatAnswer, not_taken: SatAnswer)
    ensures
        solver_decision(taken, not_taken) == Some(Some(true)) ==> not_taken == SatAnswer::Unsat,
        solver_decision(taken, not_taken) == Some(Some(false)) ==> taken == SatAnswer::Unsat,
        taken != SatAnswer::Unsat && not_taken != SatAnswer::Unsat ==> !(solver_decision(taken, not_taken) matches Some(Some(_))),
{
}

/// A jump left undecided is followed both ways, the taken side first.
pub proof fn law_undecided_jump_follows_both_sides(s: PathModel, target: usize, fallthrough: usize, jump_if_true: bool)
    ensures
        branch_successors(s, target, fallthrough, jump_if_true, None) == seq![branch_path(s, fallthrough), branch_path(s, target)],
        branch_successors(s, target, fallthrough, jump_if_true, None).last().pc == target,
{
}

/// Merging the machines of paths that all ended in the same machine keeps
/// its vector registers.
pub proof fn law_merge_of_equal_machines_keeps_vectors(ms: Seq<X86Model>)
    requires
        ms.len() >= 1,
        forall|j: int| 0 <= j < ms.len() ==> #[trigger] ms[j] == ms[0],
    ensures
        merge_simd(ms) == ms[0].simd,
{
    assert forall|k: Seq<char>| #[trigger] ms[0].simd.contains_key(k) implies merge_simd(ms)[k] == ms[0].simd[k] by {
        assert forall|i: int| 0 <= i < ms[0].simd[k].len() implies lane_agree(ms, k, i) by {
            assert forall|j: int| 0 <= j < ms.len() && #[trigger] ms[j].simd.contains_key(k) implies ms[j].simd[k][i] == ms[0].simd[k][i] by {
                assert(ms[j] == ms[0]);
            }
        }
        assert(merge_simd(ms)[k] =~= ms[0].simd[k]);
    }
    assert(merge_simd(ms) =~= ms[0].simd);
}


/// The registers a function must hand back as it found them: `rbx`, `rbp`,
/// `r12` to `r15` and `rsp`.
pub open spec fn callee_saved() -> Seq<Seq<char>> {
    seq!["rbx"@, "rbp"@, "r12"@, "r13"@, "r14"@, "r15"@, "rsp"@]
}

/// The first callee-saved register, from position `i` on, that reads
/// differently after a run than at its entry.
pub open spec fn first_clobbered_from(entry: X86Model, exit: X86Model, i: int) -> Option<int>
    decreases 7 - i,
{
    if i < 0 || i >= 7 {
        None
    } else if read_register(exit.registers, callee_saved()[i]) != read_register(entry.registers, callee_saved()[i]) {
        Some(i)
    } else {
        first_clobbered_from(entry, exit, i + 1)
    }
}

/// The message of a run that changed callee-saved register `name`.
pub open spec fn clobbered_message(name: Seq<char>) -> Seq<char> {
    "callee-saved register "@ + name + " is not restored"@
}

fn callee_saved_name(i: usize) -> (r: &'static str)
    requires
        i < 7,
    ensures
        r@ == callee_saved()[i as int],
{
    if i == 0 {
        "rbx"
    } else if i == 1 {
        "rbp"
    } else if i == 2 {
        "r12"
    } else if i == 3 {
        "r13"
    } else if i == 4 {
        "r14"
    } else if i == 5 {
        "r15"
    } else {
        "rsp"
    }
}

/// Checks after a run that every callee-saved register (see
/// `callee_saved`) reads as it did at entry: `Ok` when all do, otherwise
/// the failure naming the first that does not.
pub fn check_callee_saved(entry: &X86Computer, exit: &X86Computer) -> (r: Result<(), String>)
    ensures
        match first_clobbered_from(entry@, exit@, 0) {
            None => r is Ok,
            Some(i) => r matches Err(m) && m@ == clobbered_message(callee_saved()[i]),
        },
        r is Ok <==> forall|i: int| 0 <= i < 7 ==> read_register(exit@.registers, #[trigger] callee_saved()[i])
            == read_register(entry@.registers, callee_saved()[i]),
{
    let mut i: usize = 0;
    while i < 7
        invariant
            i <= 7,
            first_clobbered_from(entry@, exit@, 0) == first_clobbered_from(entry@, exit@, i as int),
            forall|k: int| 0 <= k < i ==> read_register(exit@.registers, #[trigger] callee_saved()[k])
                == read_register(entry@.registers, callee_saved()[k]),
        decreases 7 - i,
    {
        let name = callee_saved_name(i);
        let a = entry.get_register_value(name);
        let b = exit.get_register_value(name);
        if !rv_eq(&b, &a) {
            let mut out: Vec<char> = Vec::new();
            push_str(&mut out, "callee-saved register ");
            push_str(&mut out, name);
            push_str(&mut out, " is not restored");
            return Err(string_from_chars(out.as_slice()));
        }
        i = i + 1;
    }
    Ok(())
}

} // verus!
