//! The memory-safety check of one access: which region an address falls
//! in, and the two formulas whose unsatisfiability shows the address stays
//! inside it. Deciding satisfiability is the solver's part; this module
//! builds the formulas and turns the solver's answers into a verdict.
use vstd::prelude::*;
use crate::common::{
    AbstractComparison, AbstractExpression, CmpModel, ExprModel, MemorySafetyError, RegionModel,
    RegionType, abstracts_of, clone_expr, expr_contains, expr_debug, push_expr_debug,
    region_length, str_debug, strings_view, push_str_debug, MemorySafeRegion, RegisterValue,
    negatable_op, negated_op,
};
use crate::computer::{X86Computer, X86Model, data_start, formulas_view, shallow_clone};
use crate::text::{fits_i64, int_text, push_int_text, push_str};

verus! {

/// What a satisfiability check answered.
#[derive(Debug, Clone, Copy, PartialEq, Eq, Structural)]
pub enum SatAnswer {
    Sat,
    Unsat,
    Unknown,
}

/// The value of an expression built from immediates with `+ - *` only.
pub open spec fn eval_imm(e: ExprModel) -> Option<int>
    decreases e,
{
    match e {
        ExprModel::Immediate(n) => Some(n as int),
        ExprModel::Expression(op, a, b) => match (eval_imm(*a), eval_imm(*b)) {
            (Some(x), Some(y)) => if op == "+"@ {
                Some(x + y)
            } else if op == "*"@ {
                Some(x * y)
            } else if op == "-"@ {
                Some(x - y)
            } else {
                None
            },
            _ => None,
        },
        _ => None,
    }
}

/// Every intermediate value of `eval_imm` fits in an `i64`.
pub open spec fn eval_imm_fits(e: ExprModel) -> bool
    decreases e,
{
    match e {
        ExprModel::Expression(op, a, b) => eval_imm_fits(*a) && eval_imm_fits(*b) && match eval_imm(e) {
            Some(v) => fits_i64(v),
            None => true,
        },
        _ => true,
    }
}

/// The base of an access with concrete arithmetic folded to an immediate.
pub open spec fn reduced_base(e: ExprModel) -> ExprModel {
    match e {
        ExprModel::Immediate(_) => e,
        _ => match eval_imm(e) {
            Some(n) => ExprModel::Immediate(n as i64),
            None => e,
        },
    }
}

/// Position of the first name of `order` that occurs in `names`.
pub open spec fn first_in(order: Seq<Seq<char>>, names: Seq<Seq<char>>) -> Option<int>
    decreases order.len(),
{
    if order.len() == 0 {
        None
    } else if names.contains(order[0]) {
        Some(0)
    } else {
        match first_in(order.drop_first(), names) {
            Some(i) => Some(i + 1),
            None => None,
        }
    }
}

/// The region an access goes to, the base its bounds are measured from, the
/// address expression, and whether the base is symbolic; or the message of
/// the error when no region fits. A named region is measured from its name;
/// the region `memory` (reached by a label or a concrete address) holds the
/// data laid out from `data_start()` and is measured from there.
pub open spec fn choose_region(m: X86Model, b: ExprModel, offset: i64) -> Result<(RegionModel, ExprModel, ExprModel, bool), Seq<char>> {
    match b {
        ExprModel::Abstract(name) => if m.memory.contains_key(name) {
            Ok((m.memory[name], ExprModel::Abstract(name), ExprModel::Abstract(name), false))
        } else if m.labels.contains_key(name) {
            Ok((m.memory["memory"@], ExprModel::Immediate(data_start()), ExprModel::Immediate(m.labels[name]), false))
        } else {
            Err("unknown memory base "@ + str_debug(name))
        },
        ExprModel::Immediate(n) => if m.memory.contains_key("memory"@) {
            Ok((m.memory["memory"@], ExprModel::Immediate(data_start()), ExprModel::Immediate(n), false))
        } else {
            Err("No matching region found for access Immediate("@ + int_text(n as int) + "), "@ + int_text(offset as int))
        },
        _ => {
            let names = abstracts_of(b);
            match first_in(m.memory_order, names) {
                Some(i) => Ok((m.memory[m.memory_order[i]], ExprModel::Abstract(m.memory_order[i]), b, true)),
                None => if m.memory_order.len() > 0 && first_in(m.label_order, names) is Some {
                    let l = m.label_order[first_in(m.label_order, names)->0];
                    Ok((m.memory["memory"@], ExprModel::Immediate(data_start()), b, true))
                } else {
                    Err("No matching region found for access "@ + expr_debug(b) + ", "@ + int_text(offset as int))
                },
            }
        },
    }
}

/// The inputs on which choosing a region runs without a fault: a label
/// base, or a label met while scanning a symbolic base, needs the region
/// `memory`.
pub open spec fn choose_region_ok(m: X86Model, b: ExprModel) -> bool {
    match b {
        ExprModel::Abstract(name) => !m.memory.contains_key(name) && m.labels.contains_key(name)
            ==> m.memory.contains_key("memory"@),
        ExprModel::Immediate(_) => true,
        _ => {
            let names = abstracts_of(b);
            (m.memory_order.len() > 0 && first_in(m.memory_order, names) != Some(0int) && first_in(
                m.label_order,
                names,
            ) is Some) ==> m.memory.contains_key("memory"@)
        },
    }
}

/// `name == address` for every name of `names` that is a label.
pub open spec fn label_equalities(names: Seq<Seq<char>>, labels: Map<Seq<char>, i64>) -> Seq<CmpModel>
    decreases names.len(),
{
    if names.len() == 0 {
        Seq::empty()
    } else {
        let rest = label_equalities(names.drop_last(), labels);
        let n = names.last();
        if labels.contains_key(n) {
            rest.push(CmpModel { op: "=="@, left: ExprModel::Abstract(n), right: ExprModel::Immediate(labels[n]) })
        } else {
            rest
        }
    }
}

pub open spec fn region_type_name(t: RegionType) -> Seq<char> {
    match t {
        RegionType::READ => "READ"@,
        RegionType::WRITE => "WRITE"@,
        RegionType::RW => "RW"@,
    }
}

pub open spec fn abs_i64(v: i64) -> i64 {
    if v < 0 {
        (-v) as i64
    } else {
        v
    }
}

pub open spec fn plus(a: ExprModel, b: ExprModel) -> ExprModel {
    ExprModel::Expression("+"@, Box::new(a), Box::new(b))
}

/// Model of an `AccessPlan`.
pub enum PlanModel {
    Fail(Seq<char>),
    Check { low: Seq<CmpModel>, up: Seq<CmpModel>, base: ExprModel, offset: i64 },
}

/// What checking an access needs: either it fails outright, or two lists
/// of formulas must both be unsatisfiable (together with the path's
/// assertions): the first says the address lies below the region, the
/// second that it lies beyond its end.
pub enum AccessPlan {
    Fail(MemorySafetyError),
    Check { low: Vec<AbstractComparison>, up: Vec<AbstractComparison>, base: AbstractExpression, offset: i64 },
}

impl AccessPlan {
    pub open spec fn view(&self) -> PlanModel {
        match self {
            AccessPlan::Fail(e) => PlanModel::Fail(e.message_view()),
            AccessPlan::Check { low, up, base, offset } => PlanModel::Check {
                low: formulas_view(low@),
                up: formulas_view(up@),
                base: base@,
                offset: *offset,
            },
        }
    }
}

/// The inputs on which the check runs without a fault.
pub open spec fn access_ok(m: X86Model, base: ExprModel, offset: i64) -> bool {
    let b = reduced_base(base);
    &&& eval_imm_fits(base)
    &&& choose_region_ok(m, b)
    &&& (choose_region(m, b, offset) is Ok && expr_contains(b, "sp"@)) ==> offset != i64::MIN
}

/// Model of `mem_safe_access_plan`.
pub open spec fn access_plan(m: X86Model, base: ExprModel, offset: i64, ty: RegionType) -> PlanModel {
    let b = reduced_base(base);
    match choose_region(m, b, offset) {
        Err(msg) => PlanModel::Fail(msg),
        Ok((region, bast, bacc, symbolic)) => if ty == RegionType::WRITE && region.kind == RegionType::READ {
            PlanModel::Fail(
                "Access does not match region type "@ + region_type_name(region.kind) + " "@ + region_type_name(ty)
                    + " "@ + expr_debug(b),
            )
        } else {
            let off = if expr_contains(b, "sp"@) {
                abs_i64(offset)
            } else {
                offset
            };
            let access = plus(bacc, ExprModel::Immediate(off));
            let l = CmpModel { op: "<"@, left: access, right: plus(bast, ExprModel::Immediate(0)) };
            let u = CmpModel { op: ">="@, left: access, right: plus(bast, region_length(region)) };
            let extras = if symbolic {
                label_equalities(abstracts_of(b), m.labels)
            } else {
                Seq::empty()
            };
            PlanModel::Check { low: extras.push(l), up: extras.push(u), base: b, offset }
        },
    }
}

/// The message of an access found unsafe.
pub open spec fn outside_message(base: ExprModel, offset: i64) -> Seq<char> {
    "Accessing address outside allowable memory regions "@ + expr_debug(base) + ", "@ + int_text(offset as int)
}

fn eval_imm_exec(e: &AbstractExpression) -> (r: Option<i64>)
    requires
        eval_imm_fits(e@),
    ensures
        r matches Some(v) ==> eval_imm(e@) == Some(v as int),
        r is None ==> eval_imm(e@) is None,
    decreases e,
{
    match e {
        AbstractExpression::Immediate(n) => Some(*n),
        AbstractExpression::Expression(op, a, b) => {
            let la = eval_imm_exec(&**a);
            let lb = eval_imm_exec(&**b);
            match (la, lb) {
                (Some(x), Some(y)) => {
                    if crate::common::str_is(op, "+") {
                        Some(x + y)
                    } else if crate::common::str_is(op, "*") {
                        Some(x * y)
                    } else if crate::common::str_is(op, "-") {
                        Some(x - y)
                    } else {
                        None
                    }
                },
                _ => None,
            }
        },
        _ => None,
    }
}

fn reduce_base(e: AbstractExpression) -> (r: AbstractExpression)
    requires
        eval_imm_fits(e@),
    ensures
        r@ == reduced_base(e@),
{
    match e {
        AbstractExpression::Immediate(n) => AbstractExpression::Immediate(n),
        other => match eval_imm_exec(&other) {
            Some(n) => AbstractExpression::Immediate(n),
            None => other,
        },
    }
}

fn names_contain(v: &Vec<String>, s: &String) -> (r: bool)
    ensures
        r == strings_view(v@).contains(s@),
{
    let mut i: usize = 0;
    while i < v.len()
        invariant
            i <= v.len(),
            forall|j: int| 0 <= j < i ==> strings_view(v@)[j] != s@,
        decreases v.len() - i,
    {
        if v[i].eq(s) {
            assert(strings_view(v@)[i as int] == s@);
            return true;
        }
        i = i + 1;
    }
    false
}

proof fn lemma_first_in_at(order: Seq<Seq<char>>, names: Seq<Seq<char>>, k: int)
    requires
        0 <= k <= order.len(),
        forall|j: int| 0 <= j < k ==> !names.contains(#[trigger] order[j]),
        k < order.len() ==> names.contains(order[k]),
    ensures
        first_in(order, names) == if k < order.len() {
            Some(k)
        } else {
            None::<int>
        },
    decreases order.len(),
{
    if order.len() > 0 && k > 0 {
        assert(!names.contains(order[0]));
        assert forall|j: int| 0 <= j < k - 1 implies !names.contains(#[trigger] order.drop_first()[j]) by {
            assert(order.drop_first()[j] == order[j + 1]);
        }
        if k < order.len() {
            assert(order.drop_first()[k - 1] == order[k]);
        }
        lemma_first_in_at(order.drop_first(), names, k - 1);
    }
}

/// Position of the first key of `m`, in insertion order, that occurs in `names`.
fn first_key_in<V: crate::strmap::Modeled>(m: &crate::strmap::StrMap<V>, names: &Vec<String>) -> (r: Option<usize>)
    ensures
        r matches Some(i) ==> i < m.key_seq().len() && first_in(m.key_seq(), strings_view(names@)) == Some(i as int),
        r is None ==> first_in(m.key_seq(), strings_view(names@)) is None,
{
    let ghost ns = strings_view(names@);
    let mut i: usize = 0;
    while i < m.len()
        invariant
            i <= m.key_seq().len(),
            ns == strings_view(names@),
            forall|j: int| 0 <= j < i ==> !ns.contains(#[trigger] m.key_seq()[j]),
        decreases m.key_seq().len() - i,
    {
        if names_contain(names, m.key_at(i)) {
            proof {
                lemma_first_in_at(m.key_seq(), ns, i as int);
            }
            return Some(i);
        }
        i = i + 1;
    }
    proof {
        lemma_first_in_at(m.key_seq(), ns, m.key_seq().len() as int);
    }
    None
}

fn region_facts(r: &MemorySafeRegion) -> (f: (RegionType, AbstractExpression))
    ensures
        f.0 == r@.kind,
        f.1@ == region_length(r@),
{
    (r.get_kind(), r.get_length())
}

/// Appends `"name" == address` for each label among `names`, in order.
fn push_label_equalities(out: &mut Vec<AbstractComparison>, names: &Vec<String>, comp: &X86Computer)
    requires
        old(out)@.len() == 0,
    ensures
        formulas_view(final(out)@) == label_equalities(strings_view(names@), comp@.labels),
{
    let mut i: usize = 0;
    assert(strings_view(names@).take(0) =~= Seq::<Seq<char>>::empty());
    assert(formulas_view(out@) =~= Seq::<CmpModel>::empty());
    while i < names.len()
        invariant
            i <= names.len(),
            formulas_view(out@) == label_equalities(strings_view(names@).take(i as int), comp@.labels),
        decreases names.len() - i,
    {
        let ghost ns = strings_view(names@);
        assert(ns.take(i + 1).drop_last() =~= ns.take(i as int));
        assert(ns.take(i + 1).last() == names@[i as int]@);
        match comp.memory_labels.get(names[i].as_str()) {
            Some(addr) => {
                let c = AbstractComparison::new(
                    "==",
                    AbstractExpression::Abstract(names[i].clone()),
                    AbstractExpression::Immediate(*addr),
                );
                let ghost prev = out@;
                out.push(c);
                assert(formulas_view(out@) =~= formulas_view(prev).push(c@));
            },
            None => {},
        }
        i = i + 1;
    }
    assert(strings_view(names@).take(i as int) =~= strings_view(names@));
}


fn eval_imm_checked(e: &AbstractExpression) -> (r: (bool, Option<i64>))
    ensures
        r.0 == eval_imm_fits(e@),
        r.0 ==> match r.1 {
            Some(v) => eval_imm(e@) == Some(v as int),
            None => eval_imm(e@) is None,
        },
    decreases e,
{
    match e {
        AbstractExpression::Immediate(n) => (true, Some(*n)),
        AbstractExpression::Expression(op, a, b) => {
            let (fa, la) = eval_imm_checked(&**a);
            let (fb, lb) = eval_imm_checked(&**b);
            if !fa || !fb {
                return (false, None);
            }
            match (la, lb) {
                (Some(x), Some(y)) => {
                    let z = if crate::common::str_is(op, "+") {
                        x.checked_add(y)
                    } else if crate::common::str_is(op, "*") {
                        x.checked_mul(y)
                    } else if crate::common::str_is(op, "-") {
                        x.checked_sub(y)
                    } else {
                        return (true, None);
                    };
                    match z {
                        Some(z) => (true, Some(z)),
                        None => (false, None),
                    }
                },
                _ => (true, None),
            }
        },
        _ => (true, None),
    }
}

impl X86Computer {
    /// Whether planning the check of an access at `base_expr + offset` runs
    /// without a fault (see `access_ok`).
    pub fn access_ok_exec(&self, base_expr: &AbstractExpression, offset: i64) -> (r: bool)
        ensures
            r == access_ok(self@, base_expr@, offset),
    {
        let (fits, _) = eval_imm_checked(base_expr);
        if !fits {
            return false;
        }
        let b = reduce_base(clone_expr(base_expr));
        let (region_ok, chosen) = match &b {
            AbstractExpression::Abstract(name) => {
                let in_mem = self.memory.contains_key(name.as_str());
                let in_labels = self.memory_labels.contains_key(name.as_str());
                (!(!in_mem && in_labels) || self.memory.contains_key("memory"), in_mem || in_labels)
            },
            AbstractExpression::Immediate(_) => (true, self.memory.contains_key("memory")),
            _ => {
                let names = b.get_abstracts();
                let first_region = first_key_in(&self.memory, &names);
                let first_label = first_key_in(&self.memory_labels, &names);
                let not_first = match first_region {
                    Some(i) => i != 0,
                    None => true,
                };
                (
                    !(self.memory.len() > 0 && not_first && first_label.is_some()) || self.memory.contains_key("memory"),
                    first_region.is_some() || (self.memory.len() > 0 && first_label.is_some()),
                )
            },
        };
        region_ok && (!chosen || !b.contains("sp") || offset != i64::MIN)
    }
}

fn fail_with(msg: Vec<char>) -> (r: AccessPlan)
    ensures
        r@ == PlanModel::Fail(msg@),
{
    AccessPlan::Fail(MemorySafetyError::from_chars(&msg))
}

impl X86Computer {
    /// Plans the memory-safety check of an access at `base_expr + offset`
    /// of kind `ty`: picks the region (a named region, a label inside
    /// `memory`, a concrete address inside `memory`, or for a symbolic base
    /// the first region or label it mentions) and builds the two formulas
    /// that must be unsatisfiable for the access to be safe.
    pub fn mem_safe_access_plan(&self, base_expr: AbstractExpression, offset: i64, ty: RegionType) -> (r: AccessPlan)
        requires
            access_ok(self@, base_expr@, offset),
        ensures
            r@ == access_plan(self@, base_expr@, offset, ty),
    {
        let b = reduce_base(base_expr);
        let ghost bm = b@;
        // the region's kind and length, the base and address expressions, symbolic or not
        let (kind, len, bast, bacc, symbolic): (RegionType, AbstractExpression, AbstractExpression, AbstractExpression, bool) = match &b {
            AbstractExpression::Abstract(name) => {
                match self.memory.get(name.as_str()) {
                    Some(r) => {
                        let (k, l) = region_facts(r);
                        (k, l, AbstractExpression::Abstract(name.clone()), AbstractExpression::Abstract(name.clone()), false)
                    },
                    None => match self.memory_labels.get(name.as_str()) {
                        Some(addr) => {
                            let r = self.memory.get("memory");
                            proof {
                                reveal_strlit("memory");
                            }
                            let (k, l) = match r {
                                Some(r) => region_facts(r),
                                None => {
                                    assert(false);
                                    (RegionType::RW, AbstractExpression::Empty)
                                },
                            };
                            (k, l, AbstractExpression::Immediate(4), AbstractExpression::Immediate(*addr), false)
                        },
                        None => {
                            let mut msg: Vec<char> = Vec::new();
                            push_str(&mut msg, "unknown memory base ");
                            push_str_debug(&mut msg, name);
                            return fail_with(msg);
                        },
                    },
                }
            },
            AbstractExpression::Immediate(n) => {
                match self.memory.get("memory") {
                    Some(r) => {
                        let (k, l) = region_facts(r);
                        (k, l, AbstractExpression::Immediate(4), AbstractExpression::Immediate(*n), false)
                    },
                    None => {
                        let mut msg: Vec<char> = Vec::new();
                        push_str(&mut msg, "No matching region found for access Immediate(");
                        push_int_text(&mut msg, *n as i128);
                        push_str(&mut msg, "), ");
                        push_int_text(&mut msg, offset as i128);
                        return fail_with(msg);
                    },
                }
            },
            _ => {
                let names = b.get_abstracts();
                match first_key_in(&self.memory, &names) {
                    Some(fi) => {
                        let (k, l) = region_facts(self.memory.val_at(fi));
                        (k, l, AbstractExpression::Abstract(self.memory.key_at(fi).clone()), clone_expr(&b), true)
                    },
                    None => {
                        match first_key_in(&self.memory_labels, &names) {
                            Some(lj) if self.memory.len() > 0 => {
                                proof {
                                    reveal_strlit("memory");
                                }
                                let (k, l) = match self.memory.get("memory") {
                                    Some(r) => region_facts(r),
                                    None => {
                                        assert(false);
                                        (RegionType::RW, AbstractExpression::Empty)
                                    },
                                };
                                (k, l, AbstractExpression::Immediate(4), clone_expr(&b), true)
                            },
                            _ => {
                                let mut msg: Vec<char> = Vec::new();
                                push_str(&mut msg, "No matching region found for access ");
                                push_expr_debug(&mut msg, &b);
                                push_str(&mut msg, ", ");
                                push_int_text(&mut msg, offset as i128);
                                return fail_with(msg);
                            },
                        }
                    },
                }
            },
        };
        if ty == RegionType::WRITE && kind == RegionType::READ {
            let mut msg: Vec<char> = Vec::new();
            push_str(&mut msg, "Access does not match region type ");
            push_str(&mut msg, "READ");
            push_str(&mut msg, " ");
            push_str(&mut msg, "WRITE");
            push_str(&mut msg, " ");
            push_expr_debug(&mut msg, &b);
            return fail_with(msg);
        }
        let off = if b.contains("sp") {
            if offset < 0 {
                -offset
            } else {
                offset
            }
        } else {
            offset
        };
        let access = crate::common::generate_expression("+", bacc, AbstractExpression::Immediate(off));
        let low_access = crate::common::generate_expression("+", clone_expr(&bast), AbstractExpression::Immediate(0));
        let up_access = crate::common::generate_expression("+", bast, len);
        let l = AbstractComparison::new("<", clone_expr(&access), low_access);
        let u = AbstractComparison::new(">=", access, up_access);
        let mut low: Vec<AbstractComparison> = Vec::new();
        if symbolic {
            let names = b.get_abstracts();
            push_label_equalities(&mut low, &names, self);
        } else {
            assert(formulas_view(low@) =~= Seq::<CmpModel>::empty());
        }
        let mut up: Vec<AbstractComparison> = Vec::new();
        let mut q: usize = 0;
        while q < low.len()
            invariant
                q <= low.len(),
                up@.len() == q,
                formulas_view(up@) == formulas_view(low@).take(q as int),
            decreases low.len() - q,
        {
            let c = crate::common::copy_comparison(&low[q]);
            let ghost prev = up@;
            up.push(c);
            assert(formulas_view(up@) =~= formulas_view(prev).push(c@));
            q = q + 1;
            assert(formulas_view(up@) =~= formulas_view(low@).take(q as int));
        }
        assert(formulas_view(low@).take(q as int) =~= formulas_view(low@));
        let ghost lm = l@;
        let ghost um = u@;
        let ghost lowv = formulas_view(low@);
        low.push(l);
        up.push(u);
        assert(formulas_view(low@) =~= lowv.push(lm));
        assert(formulas_view(up@) =~= lowv.push(um));
        AccessPlan::Check { low, up, base: b, offset }
    }
}

/// The verdict on an access: a planned failure stands; otherwise the
/// access is safe exactly when both formula lists were found unsatisfiable.
pub fn access_verdict(plan: &AccessPlan, low: SatAnswer, up: SatAnswer) -> (r: Result<(), MemorySafetyError>)
    ensures
        match plan@ {
            PlanModel::Fail(msg) => r matches Err(e) && e.message_view() == msg,
            PlanModel::Check { base, offset, .. } => if low == SatAnswer::Unsat && up == SatAnswer::Unsat {
                r is Ok
            } else {
                r matches Err(e) && e.message_view() == outside_message(base, offset)
            },
        },
{
    match plan {
        AccessPlan::Fail(e) => Err(e.clone()),
        AccessPlan::Check { base, offset, .. } => {
            if low == SatAnswer::Unsat && up == SatAnswer::Unsat {
                Ok(())
            } else {
                let mut msg: Vec<char> = Vec::new();
                push_str(&mut msg, "Accessing address outside allowable memory regions ");
                push_expr_debug(&mut msg, base);
                push_str(&mut msg, ", ");
                push_int_text(&mut msg, *offset as i128);
                Err(MemorySafetyError::from_chars(&msg))
            }
        },
    }
}

/// The integer an expression denotes when each name stands for `env(name)`,
/// reading `Empty` as 0 and a boxed register as its base plus offset;
/// `None` for operators other than `+ - *`.
pub open spec fn eval_expr(e: ExprModel, env: spec_fn(Seq<char>) -> int) -> Option<int>
    decreases e,
{
    match e {
        ExprModel::Empty => Some(0),
        ExprModel::Immediate(n) => Some(n as int),
        ExprModel::Abstract(a) => Some(env(a)),
        ExprModel::Register(r) => match r.base {
            Some(b) => match eval_expr(b, env) {
                Some(v) => Some(v + r.offset),
                None => None,
            },
            None => Some(r.offset as int),
        },
        ExprModel::Expression(op, a, b) => match (eval_expr(*a, env), eval_expr(*b, env)) {
            (Some(x), Some(y)) => if op == "+"@ {
                Some(x + y)
            } else if op == "-"@ {
                Some(x - y)
            } else if op == "*"@ {
                Some(x * y)
            } else {
                None
            },
            _ => None,
        },
    }
}

/// Whether a comparison holds under `env` (both sides must have a value).
pub open spec fn holds(c: CmpModel, env: spec_fn(Seq<char>) -> int) -> bool {
    match (eval_expr(c.left, env), eval_expr(c.right, env)) {
        (Some(l), Some(r)) => if c.op == "<"@ {
            l < r
        } else if c.op == ">"@ {
            l > r
        } else if c.op == "<="@ {
            l <= r
        } else if c.op == ">="@ {
            l >= r
        } else if c.op == "=="@ {
            l == r
        } else if c.op == "!="@ {
            l != r
        } else {
            false
        },
        _ => false,
    }
}

pub open spec fn all_hold(fs: Seq<CmpModel>, env: spec_fn(Seq<char>) -> int) -> bool {
    forall|i: int| 0 <= i < fs.len() ==> holds(#[trigger] fs[i], env)
}

/// Some assignment makes every formula hold.
pub open spec fn satisfiable(fs: Seq<CmpModel>) -> bool {
    exists|env: spec_fn(Seq<char>) -> int| all_hold(fs, env)
}

/// Whether both sides of a comparison have a value under `env`.
pub open spec fn evaluable(c: CmpModel, env: spec_fn(Seq<char>) -> int) -> bool {
    eval_expr(c.left, env) is Some && eval_expr(c.right, env) is Some
}

/// A check that passes keeps the access inside its region. When the plan
/// asks for the two formula lists and both are truly unsatisfiable together
/// with the path's assertions (what a sound `Unsat` answer means), then under
/// every assignment that satisfies the assertions and the label addresses,
/// the address lies in `[start, start + length)` of the region chosen for
/// it, where `start` is the region's name for a named region and
/// `data_start()` for the region `memory` (so a concrete address must lie
/// inside the laid-out data).
pub proof fn law_passed_check_in_bounds(
    m: X86Model,
    base: ExprModel,
    offset: i64,
    ty: RegionType,
    env: spec_fn(Seq<char>) -> int,
)
    requires
        access_plan(m, base, offset, ty) is Check,
        ({
            let p = access_plan(m, base, offset, ty);
            &&& !satisfiable(m.assertions + p->low)
            &&& !satisfiable(m.assertions + p->up)
            &&& all_hold(m.assertions, env)
            &&& all_hold(p->low.drop_last(), env)
            &&& evaluable(p->low.last(), env)
            &&& evaluable(p->up.last(), env)
        }),
    ensures
        ({
            let p = access_plan(m, base, offset, ty);
            let cr = choose_region(m, reduced_base(base), offset)->Ok_0;
            let l = p->low.last();
            let u = p->up.last();
            let a = eval_expr(l.left, env)->0;
            let start = eval_expr(cr.1, env)->0;
            &&& choose_region(m, reduced_base(base), offset) is Ok
            &&& l.left == u.left
            &&& l.right == plus(cr.1, ExprModel::Immediate(0))
            &&& u.right == plus(cr.1, region_length(cr.0))
            &&& (reduced_base(base) is Immediate ==> cr.1 == ExprModel::Immediate(data_start()))
            &&& start <= a
            &&& a < start + eval_expr(region_length(cr.0), env)->0
        }),
{
    reveal_strlit("<");
    reveal_strlit(">=");
    reveal_strlit(">");
    reveal_strlit("<=");
    assert(">="@.len() != ">"@.len());
    assert(">="@[0] != "<"@[0]);
    assert(">="@[0] != "<="@[0]);
    let p = access_plan(m, base, offset, ty);
    let low = p->low;
    let up = p->up;
    let l = low.last();
    let u = up.last();
    let b = reduced_base(base);
    let cr = choose_region(m, b, offset);
    assert(cr is Ok);
    assert(l.op == "<"@);
    assert(u.op == ">="@);
    assert(l.left == u.left);
    assert(low.drop_last() == up.drop_last());
    if holds(l, env) {
        assert(all_hold(m.assertions + low, env)) by {
            assert forall|i: int| 0 <= i < (m.assertions + low).len() implies holds(#[trigger] (m.assertions + low)[i], env) by {
                if i >= m.assertions.len() {
                    let j = i - m.assertions.len();
                    if j < low.len() - 1 {
                        assert(low[j] == low.drop_last()[j]);
                    }
                }
            }
        }
        assert(satisfiable(m.assertions + low));
    }
    if holds(u, env) {
        assert(all_hold(m.assertions + up, env)) by {
            assert forall|i: int| 0 <= i < (m.assertions + up).len() implies holds(#[trigger] (m.assertions + up)[i], env) by {
                if i >= m.assertions.len() {
                    let j = i - m.assertions.len();
                    if j < up.len() - 1 {
                        assert(up[j] == up.drop_last()[j]);
                        assert(up.drop_last()[j] == low.drop_last()[j]);
                    }
                }
            }
        }
        assert(satisfiable(m.assertions + up));
    }
    assert(!holds(l, env));
    assert(!holds(u, env));
    assert(">="@[0] != "<"@[0]);
    let x = cr->Ok_0.1;
    let len = region_length(cr->Ok_0.0);
    assert(l.right == plus(x, ExprModel::Immediate(0)));
    assert(u.right == plus(x, len));
    assert(eval_expr(x, env) is Some && eval_expr(len, env) is Some);
    assert(eval_expr(ExprModel::Immediate(0), env) == Some(0int));
    assert(eval_expr(plus(x, ExprModel::Immediate(0)), env) == Some(eval_expr(x, env)->0 + 0));
    assert(eval_expr(l.right, env)->0 == eval_expr(x, env)->0);
    assert(eval_expr(plus(x, len), env) == Some(eval_expr(x, env)->0 + eval_expr(len, env)->0));
    assert(eval_expr(u.right, env)->0 == eval_expr(x, env)->0 + eval_expr(len, env)->0);
}


/// Negating a comparison is undone by negating it again, and the negated
/// comparison holds under an assignment exactly where the comparison does
/// not (both sides having a value there): the two sides of a conditional
/// jump ask complementary questions.
pub proof fn law_negation_flips_truth(c: CmpModel, env: spec_fn(Seq<char>) -> int)
    requires
        negatable_op(c.op),
        evaluable(c, env),
    ensures
        negatable_op(negated_op(c.op)),
        negated_op(negated_op(c.op)) == c.op,
        holds(CmpModel { op: negated_op(c.op), left: c.left, right: c.right }, env) == !holds(c, env),
{
    reveal_strlit("<");
    reveal_strlit(">");
    reveal_strlit("<=");
    reveal_strlit(">=");
    reveal_strlit("==");
    reveal_strlit("!=");
    assert("<"@[0] != ">"@[0]);
    assert("<"@.len() != "<="@.len());
    assert("<"@.len() != ">="@.len());
    assert("<"@.len() != "=="@.len());
    assert("<"@.len() != "!="@.len());
    assert(">"@.len() != "<="@.len());
    assert(">"@.len() != ">="@.len());
    assert(">"@.len() != "=="@.len());
    assert(">"@.len() != "!="@.len());
    assert("<="@[0] != ">="@[0]);
    assert("<="@[0] != "=="@[0]);
    assert("<="@[0] != "!="@[0]);
    assert(">="@[0] != "=="@[0]);
    assert(">="@[0] != "!="@[0]);
    assert("=="@[0] != "!="@[0]);
}


/// Shallow copies of one machine are separate: each starts as the machine
/// with no asserted formulas, and a formula asserted on one copy does not
/// constrain another. After `f` is asserted on the first copy, a question
/// `g` asked of it is asked together with `f`, while the same question asked
/// of the second copy is asked alone.
pub proof fn law_shallow_clones_are_separate(m: X86Model, f: CmpModel, g: CmpModel)
    ensures
        shallow_clone(m).assertions.len() == 0,
        ({
            let one = X86Model { assertions: shallow_clone(m).assertions.push(f), ..shallow_clone(m) };
            let two = shallow_clone(m);
            &&& X86Model { assertions: Seq::empty(), ..one } == two
            &&& satisfiable(one.assertions.push(g)) == satisfiable(seq![f, g])
            &&& satisfiable(two.assertions.push(g)) == satisfiable(seq![g])
        }),
{
    let one = X86Model { assertions: shallow_clone(m).assertions.push(f), ..shallow_clone(m) };
    let two = shallow_clone(m);
    assert(one.assertions.push(g) =~= seq![f, g]);
    assert(two.assertions.push(g) =~= seq![g]);
}

} // verus!
