//! Multiversioned functions: reading one from the text of its attribute
//! and signature; the variants, entry label and fallback that the
//! attribute's settings give; and the choice among the proved
//! assembly variants at run time: an override by name, else the first
//! variant whose CPU features are present (and which passes the ABI probe
//! when probing is on), else the Rust fallback. The fallbacks of the
//! library's own wrappers stand here too.
use vstd::prelude::*;
use crate::attr::{AttrError, AttrModel, ErrModel, MultiAttr, TokModel, VersionModel, attr_parse};
use crate::common::{AbstractComparison, CmpModel};
use crate::computer::formulas_view;
use crate::harness::{
    BinOpKind, ExprShape, Param, ParamModel, ShapeExprModel, comparison_of, comparison_ok,
    first_non_binary_from, invariant_comparisons, params_ok, region_length_exec, shape_ok_exec,
    shapes_view,
};
use crate::reading::{attr_tokens_of, invariant_shape_of, signature_of, text_shape, text_signature, text_tokens, tokens_text, toks_text};
use crate::common::{str_is, strings_view};
use crate::harness::opt_chars;
use crate::text::{chars_of, nat_text, push_chars, push_int_text, push_str, string_from_chars};

verus! {

/// A variant of a multiversioned function: the symbol of its assembly and
/// the CPU features it needs.
pub struct Variant {
    pub symbol: String,
    pub features: Vec<String>,
}

/// Model of a `Variant`.
pub struct VariantModel {
    pub symbol: Seq<char>,
    pub features: Seq<Seq<char>>,
}

impl Variant {
    pub open spec fn view(&self) -> VariantModel {
        VariantModel { symbol: self.symbol@, features: strings_view(self.features@) }
    }
}

pub open spec fn variants_view(v: Seq<Variant>) -> Seq<VariantModel> {
    v.map_values(|x: Variant| x@)
}

/// Which implementation a wrapper calls.
#[derive(Debug, Clone, Copy, PartialEq, Eq, Structural)]
pub enum Dispatch {
    /// The assembly variant at this position.
    Variant(usize),
    /// The Rust fallback.
    Fallback,
}

/// Whether an override value names variant `v`, by symbol or by feature.
pub open spec fn names_variant(val: Seq<char>, v: VariantModel) -> bool {
    val == v.symbol || v.features.contains(val)
}

/// The variant an override value selects: the last one it names.
pub open spec fn forced_model(val: Seq<char>, vs: Seq<VariantModel>) -> Option<int>
    decreases vs.len(),
{
    if vs.len() == 0 {
        None
    } else if names_variant(val, vs.last()) {
        Some(vs.len() - 1)
    } else {
        forced_model(val, vs.drop_last())
    }
}

/// The first position at or after `from` whose entry is `true`.
pub open spec fn first_from(flags: Seq<bool>, from: int) -> Option<int>
    decreases flags.len() - from,
{
    if from < 0 || from >= flags.len() {
        None
    } else if flags[from] {
        Some(from)
    } else {
        first_from(flags, from + 1)
    }
}

/// The variant an override value (such as the one of `BUMS_FORCE_IMPL`)
/// selects: the last variant whose symbol or one of whose features it is.
pub fn forced_choice(val: &str, variants: &Vec<Variant>) -> (r: Option<usize>)
    ensures
        match r {
            Some(i) => forced_model(val@, variants_view(variants@)) == Some(i as int),
            None => forced_model(val@, variants_view(variants@)) is None,
        },
{
    let ghost vs = variants_view(variants@);
    let mut chosen: Option<usize> = None;
    let mut i: usize = 0;
    assert(vs.take(0) =~= Seq::<VariantModel>::empty());
    while i < variants.len()
        invariant
            i <= variants@.len(),
            vs == variants_view(variants@),
            match chosen {
                Some(c) => forced_model(val@, vs.take(i as int)) == Some(c as int),
                None => forced_model(val@, vs.take(i as int)) is None,
            },
        decreases variants@.len() - i,
    {
        let v = &variants[i];
        let mut hit = str_is(&v.symbol, val);
        assert(strings_view(v.features@).take(0) =~= Seq::<Seq<char>>::empty());
        let mut j: usize = 0;
        while j < v.features.len()
            invariant
                j <= v.features@.len(),
                hit <==> (val@ == v.symbol@ || strings_view(v.features@).take(j as int).contains(val@)),
            decreases v.features@.len() - j,
        {
            proof {
                assert(strings_view(v.features@).take(j + 1) =~= strings_view(v.features@).take(j as int).push(v.features@[j as int]@));
            }
            if str_is(&v.features[j], val) {
                hit = true;
            }
            proof {
                let t = strings_view(v.features@).take(j as int);
                let f = v.features@[j as int]@;
                if t.push(f).contains(val@) && !t.contains(val@) {
                    let k = choose|k: int| 0 <= k < t.push(f).len() && t.push(f)[k] == val@;
                    assert(k == t.len());
                }
                if t.contains(val@) {
                    let k = choose|k: int| 0 <= k < t.len() && t[k] == val@;
                    assert(t.push(f)[k] == val@);
                }
                if f == val@ {
                    assert(t.push(f)[t.len() as int] == val@);
                }
            }
            j = j + 1;
        }
        proof {
            assert(strings_view(v.features@).take(j as int) =~= strings_view(v.features@));
            assert(vs.take(i + 1).drop_last() =~= vs.take(i as int));
            assert(vs.take(i + 1).last() == v@);
        }
        if hit {
            chosen = Some(i);
        }
        i = i + 1;
    }
    assert(vs.take(i as int) =~= vs);
    chosen
}

/// The first candidate at or after `from` that may be chosen.
pub fn first_candidate(eligible: &Vec<bool>, from: usize) -> (r: Option<usize>)
    ensures
        match r {
            Some(i) => first_from(eligible@, from as int) == Some(i as int),
            None => first_from(eligible@, from as int) is None,
        },
    decreases eligible@.len() - from,
{
    if from >= eligible.len() {
        None
    } else if eligible[from] {
        Some(from)
    } else {
        first_candidate(eligible, from + 1)
    }
}

/// What the wrapper calls for the stored selection `sel` (255 when none
/// was chosen) among `n` variants: the variant at `sel` if there is one.
pub fn dispatch(sel: u8, n: usize) -> (r: Dispatch)
    ensures
        r == (if (sel as int) < n {
            Dispatch::Variant(sel as usize)
        } else {
            Dispatch::Fallback
        }),
{
    if (sel as usize) < n {
        Dispatch::Variant(sel as usize)
    } else {
        Dispatch::Fallback
    }
}

/// Whether a candidate kept the callee-saved registers: each of the six
/// values read after its call equals the one read before.
pub fn registers_preserved(before: &[u64; 6], after: &[u64; 6]) -> (r: bool)
    ensures
        r == (forall|i: int| 0 <= i < 6 ==> before@[i] == after@[i]),
{
    let mut i: usize = 0;
    while i < 6
        invariant
            i <= 6,
            before@.len() == 6,
            after@.len() == 6,
            forall|j: int| 0 <= j < i ==> before@[j] == after@[j],
        decreases 6 - i,
    {
        if before[i] != after[i] {
            return false;
        }
        i = i + 1;
    }
    true
}

/// The Rust fallback of `internal_x86_code_v3`: 0 for an empty buffer,
/// its first byte otherwise.
pub fn internal_x86_code_v3_rust(buf: &[u8], buf_len: usize, is_encoder: i32) -> (r: usize)
    ensures
        r == (if buf_len == 0 || buf@.len() == 0 {
            0
        } else {
            buf@[0] as usize
        }),
{
    if buf_len == 0 || buf.len() == 0 {
        return 0;
    }
    buf[0] as usize
}

/// The Rust fallback of `clobber_rbx`: does nothing and returns 0.
pub fn clobber_rbx_fallback(buf: &[u8], buf_len: usize) -> (r: usize)
    ensures
        r == 0,
{
    0
}


/// The label the proof of every variant starts from: the `entry` setting,
/// else the name of the function.
pub fn entry_label(attr: &MultiAttr, fn_name: &str) -> (r: String)
    ensures
        r@ == match attr.entry {
            Some(e) => e@,
            None => fn_name@,
        },
{
    match &attr.entry {
        Some(e) => e.clone(),
        None => String::from_str(fn_name),
    }
}

/// The symbol of version `i`: the one it names, else `<function>_v<i>`.
pub open spec fn planned_symbol(v: VersionModel, fn_name: Seq<char>, i: int) -> Seq<char> {
    match v.symbol {
        Some(s) => s,
        None => fn_name + "_v"@ + nat_text(i as nat),
    }
}

/// A copy of a list of strings.
pub fn clone_strings(v: &Vec<String>) -> (r: Vec<String>)
    ensures
        strings_view(r@) == strings_view(v@),
{
    let mut out: Vec<String> = Vec::new();
    let mut i: usize = 0;
    while i < v.len()
        invariant
            i <= v.len(),
            out@ == v@.take(i as int),
        decreases v.len() - i,
    {
        out.push(v[i].clone());
        i = i + 1;
        assert(out@ =~= v@.take(i as int));
    }
    assert(v@.take(i as int) =~= v@);
    out
}

/// The variants a multiversioned function dispatches among, one per
/// version in order: its symbol (see `planned_symbol`) and its features.
pub fn plan_variants(attr: &MultiAttr, fn_name: &str) -> (r: Vec<Variant>)
    ensures
        r@.len() == attr.versions@.len(),
        forall|k: int|
            0 <= k < r@.len() ==> #[trigger] r@[k]@ == (VariantModel {
                symbol: planned_symbol(attr.versions@[k]@, fn_name@, k),
                features: attr.versions@[k]@.features,
            }),
{
    let mut out: Vec<Variant> = Vec::new();
    let mut i: usize = 0;
    while i < attr.versions.len()
        invariant
            i <= attr.versions@.len(),
            out@.len() == i,
            forall|k: int|
                0 <= k < i ==> #[trigger] out@[k]@ == (VariantModel {
                    symbol: planned_symbol(attr.versions@[k]@, fn_name@, k),
                    features: attr.versions@[k]@.features,
                }),
        decreases attr.versions@.len() - i,
    {
        let vs = &attr.versions[i];
        let symbol = match &vs.symbol {
            Some(x) => x.clone(),
            None => {
                let mut cs = chars_of(fn_name);
                push_str(&mut cs, "_v");
                push_int_text(&mut cs, i as i128);
                string_from_chars(cs.as_slice())
            },
        };
        let features = clone_strings(&vs.features);
        let ghost prev = out@;
        out.push(Variant { symbol, features });
        proof {
            assert forall|k: int| 0 <= k < i + 1 implies #[trigger] out@[k]@ == (VariantModel {
                symbol: planned_symbol(attr.versions@[k]@, fn_name@, k),
                features: attr.versions@[k]@.features,
            }) by {
                if k < i {
                    assert(out@[k] == prev[k]);
                }
            }
        }
        i = i + 1;
    }
    out
}

/// The Rust function the wrapper falls back to; an attribute that names
/// none is refused.
pub fn fallback_of(attr: &MultiAttr) -> (r: Result<String, String>)
    ensures
        match r {
            Ok(f) => opt_chars(attr.fallback) == Some(f@),
            Err(m) => attr.fallback is None
                && m@ == "memsafe_multiversion: missing fallback identifier (e.g. fallback = my_rust_impl)"@,
        },
{
    match &attr.fallback {
        Some(f) => Ok(f.clone()),
        None => Err(String::from_str("memsafe_multiversion: missing fallback identifier (e.g. fallback = my_rust_impl)")),
    }
}


/// `n` spaces.
pub open spec fn spaces(n: nat) -> Seq<char> {
    Seq::new(n, |i: int| ' ')
}

/// A line number as `{:5}` renders it: right-aligned in five columns.
pub open spec fn padded5(n: nat) -> Seq<char> {
    let t = nat_text(n);
    if t.len() < 5 {
        spaces((5 - t.len()) as nat) + t
    } else {
        t
    }
}

/// The first `k` lines of a listing, each as `<number>: <line>`.
pub open spec fn listing(lines: Seq<Seq<char>>, k: int) -> Seq<char>
    decreases k,
{
    if k <= 0 {
        Seq::empty()
    } else {
        listing(lines, k - 1) + padded5(k as nat) + ": "@ + lines[k - 1] + "\n"@
    }
}

/// The lines of `ls`, each followed by a newline.
pub open spec fn joined_lines(ls: Seq<Seq<char>>) -> Seq<char>
    decreases ls.len(),
{
    if ls.len() == 0 {
        Seq::empty()
    } else {
        joined_lines(ls.drop_last()) + ls.last() + "\n"@
    }
}

/// A titled section of lines, left out where there are none.
pub open spec fn section(title: Seq<char>, ls: Seq<Seq<char>>) -> Seq<char> {
    if ls.len() == 0 {
        Seq::empty()
    } else {
        title + joined_lines(ls)
    }
}

/// What a failed proof of a variant reports: the file and the error, the
/// first 200 lines of its assembly numbered from 1, then its relocations
/// and memory labels where there are any.
pub open spec fn failure_report(
    file: Seq<char>,
    err: Seq<char>,
    program: Seq<Seq<char>>,
    rels: Seq<Seq<char>>,
    labels: Seq<Seq<char>>,
) -> Seq<char> {
    "variant "@ + file + " proof failure:\n"@ + err + "\n"@ + "-- asm (first 200 lines) --\n"@
        + listing(program, if program.len() < 200 {
        program.len() as int
    } else {
        200
    }) + section("-- relocations --\n"@, rels) + section("-- memory labels --\n"@, labels)
}

fn push_padded5(out: &mut Vec<char>, n: usize)
    ensures
        final(out)@ == old(out)@ + padded5(n as nat),
{
    let mut t: Vec<char> = Vec::new();
    push_int_text(&mut t, n as i128);
    assert(t@ == nat_text(n as nat));
    if t.len() < 5 {
        let pad = 5 - t.len();
        let ghost o = out@;
        let mut k: usize = 0;
        while k < pad
            invariant
                k <= pad,
                out@ == o + spaces(k as nat),
            decreases pad - k,
        {
            out.push(' ');
            k = k + 1;
            assert(out@ =~= o + spaces(k as nat));
        }
        push_chars(out, &t);
        assert(out@ =~= o + (spaces(pad as nat) + nat_text(n as nat)));
    } else {
        push_chars(out, &t);
    }
}

fn push_section(out: &mut Vec<char>, title: &str, ls: &Vec<String>)
    ensures
        final(out)@ == old(out)@ + section(title@, strings_view(ls@)),
{
    if ls.len() == 0 {
        assert(old(out)@ + section(title@, strings_view(ls@)) =~= old(out)@);
        return;
    }
    let ghost sv = strings_view(ls@);
    let ghost o = out@;
    push_str(out, title);
    let mut i: usize = 0;
    assert(sv.take(0) =~= Seq::<Seq<char>>::empty());
    while i < ls.len()
        invariant
            i <= ls.len(),
            sv == strings_view(ls@),
            out@ == o + title@ + joined_lines(sv.take(i as int)),
        decreases ls.len() - i,
    {
        push_chars(out, &chars_of(ls[i].as_str()));
        push_str(out, "\n");
        proof {
            assert(sv.take(i + 1).drop_last() =~= sv.take(i as int));
            assert(sv.take(i + 1).last() == ls@[i as int]@);
            assert(out@ =~= o + title@ + joined_lines(sv.take(i + 1)));
        }
        i = i + 1;
    }
    assert(sv.take(i as int) =~= sv);
}

/// The report of a variant whose proof failed (see `failure_report`).
pub fn variant_failure_report(
    file: &str,
    err: &str,
    program: &Vec<String>,
    rels: &Vec<String>,
    labels: &Vec<String>,
) -> (r: String)
    ensures
        r@ == failure_report(file@, err@, strings_view(program@), strings_view(rels@), strings_view(labels@)),
{
    let ghost pv = strings_view(program@);
    let mut out: Vec<char> = Vec::new();
    push_str(&mut out, "variant ");
    push_str(&mut out, file);
    push_str(&mut out, " proof failure:\n");
    push_str(&mut out, err);
    push_str(&mut out, "\n");
    push_str(&mut out, "-- asm (first 200 lines) --\n");
    let ghost head = out@;
    let n: usize = if program.len() < 200 {
        program.len()
    } else {
        200
    };
    let mut i: usize = 0;
    while i < n
        invariant
            i <= n <= program@.len(),
            n <= 200,
            pv == strings_view(program@),
            out@ == head + listing(pv, i as int),
        decreases n - i,
    {
        push_padded5(&mut out, i + 1);
        push_str(&mut out, ": ");
        push_chars(&mut out, &chars_of(program[i].as_str()));
        push_str(&mut out, "\n");
        proof {
            assert(pv[i as int] == program@[i as int]@);
            assert(out@ =~= head + listing(pv, i + 1));
        }
        i = i + 1;
    }
    push_section(&mut out, "-- relocations --\n", rels);
    push_section(&mut out, "-- memory labels --\n", labels);
    proof {
        assert(out@ =~= failure_report(file@, err@, pv, strings_view(rels@), strings_view(labels@)));
    }
    string_from_chars(out.as_slice())
}


/// What choosing a variant does next: settle on a selection (255 for the
/// fallback), or ask the ABI probe about a candidate.
#[derive(Debug, Clone, Copy, PartialEq, Eq, Structural)]
pub enum SelectAction {
    Chosen(u8),
    Probe(usize),
}

/// One step of choosing among `eligible` candidates, searching from
/// `from`: with the probe's answer on candidate `from` (where one was asked),
/// a passed probe settles on it and a failed one moves past it; then the
/// first eligible candidate is chosen, or probed first when probing is on;
/// with none left, the fallback.
pub open spec fn select_model(eligible: Seq<bool>, from: int, abi_probe: bool, answer: Option<bool>) -> SelectAction {
    if answer == Some(true) {
        SelectAction::Chosen(from as u8)
    } else {
        let start = if answer is Some {
            from + 1
        } else {
            from
        };
        match first_from(eligible, start) {
            None => SelectAction::Chosen(255),
            Some(i) => if abi_probe {
                SelectAction::Probe(i as usize)
            } else {
                SelectAction::Chosen(i as u8)
            },
        }
    }
}

proof fn lemma_first_from_range(flags: Seq<bool>, from: int)
    ensures
        first_from(flags, from) matches Some(i) ==> from <= i < flags.len() && flags[i],
    decreases flags.len() - from,
{
    if 0 <= from < flags.len() && !flags[from] {
        lemma_first_from_range(flags, from + 1);
    }
}

proof fn lemma_first_from_least(flags: Seq<bool>, from: int)
    requires
        0 <= from,
    ensures
        first_from(flags, from) is None ==> forall|j: int| from <= j < flags.len() ==> !flags[j],
        first_from(flags, from) matches Some(i) ==> forall|j: int| from <= j < i ==> !flags[j],
    decreases flags.len() - from,
{
    if from < flags.len() && !flags[from] {
        lemma_first_from_least(flags, from + 1);
    }
}

/// Whether `c` is the least eligible candidate at or after `from`.
pub open spec fn least_eligible_from(eligible: Seq<bool>, from: int, c: int) -> bool {
    &&& from <= c < eligible.len()
    &&& eligible[c]
    &&& forall|j: int| from <= j < c ==> !eligible[j]
}

/// With no probe answer pending, the choice is the least eligible candidate
/// at or after `from`: chosen outright with probing off, probed first with
/// it on; the fallback 255 comes only when no candidate from `from` on is
/// eligible.
pub proof fn law_select_least_eligible(eligible: Seq<bool>, from: int, abi_probe: bool)
    requires
        0 <= from,
        eligible.len() < 255,
    ensures
        select_model(eligible, from, abi_probe, None) == SelectAction::Chosen(255) <==> forall|j: int|
            from <= j < eligible.len() ==> !eligible[j],
        select_model(eligible, from, abi_probe, None) is Chosen && select_model(eligible, from, abi_probe, None)->Chosen_0
            != 255 ==> !abi_probe && least_eligible_from(
            eligible,
            from,
            select_model(eligible, from, abi_probe, None)->Chosen_0 as int,
        ),
        select_model(eligible, from, abi_probe, None) is Probe ==> abi_probe && least_eligible_from(
            eligible,
            from,
            select_model(eligible, from, abi_probe, None)->Probe_0 as int,
        ),
        !abi_probe ==> select_model(eligible, from, abi_probe, None) is Chosen,
{
    lemma_first_from_range(eligible, from);
    lemma_first_from_least(eligible, from);
}

/// A probe's answer on candidate `from` settles the choice: a passed probe
/// chooses `from`, and a failed one goes on exactly as a search that
/// starts at the next candidate.
pub proof fn law_select_after_probe(eligible: Seq<bool>, from: int, abi_probe: bool)
    requires
        0 <= from < eligible.len(),
        eligible.len() < 255,
    ensures
        select_model(eligible, from, abi_probe, Some(true)) == SelectAction::Chosen(from as u8),
        select_model(eligible, from, abi_probe, Some(false)) == select_model(eligible, from + 1, abi_probe, None),
{
}

/// One step of choosing a variant (see `select_model`).
pub fn select_step(eligible: &Vec<bool>, from: usize, abi_probe: bool, answer: Option<bool>) -> (r: SelectAction)
    requires
        eligible@.len() < 255,
        answer is Some ==> from < eligible@.len(),
    ensures
        r == select_model(eligible@, from as int, abi_probe, answer),
{
    if answer == Some(true) {
        return SelectAction::Chosen(from as u8);
    }
    let start = if answer.is_some() {
        from + 1
    } else {
        from
    };
    proof {
        lemma_first_from_range(eligible@, start as int);
    }
    match first_candidate(eligible, start) {
        None => SelectAction::Chosen(255),
        Some(i) => if abi_probe {
            SelectAction::Probe(i)
        } else {
            SelectAction::Chosen(i as u8)
        },
    }
}


/// How deep groups, operands and referred types are read.
pub const READ_DEPTH: usize = 64;

/// What the attribute's text reads as, or the message of why it does not.
pub open spec fn attr_of_text(a: Seq<char>) -> Result<AttrModel, Seq<char>> {
    match text_tokens(a, READ_DEPTH as nat) {
        None => Err("cannot tokenize the attribute"@),
        Some(ts) => match attr_parse(ts) {
            Ok(m) => Ok(m),
            Err(ErrModel::Syntax) => Err("the attribute is not a list of `key = value` pairs"@),
            Err(ErrModel::Invalid(x)) => Err(x),
        },
    }
}

/// The shapes of the invariants, each read from its tokens' text.
pub open spec fn invariant_shapes(invs: Seq<Seq<TokModel>>) -> Option<Seq<ShapeExprModel>> {
    if forall|i: int| 0 <= i < invs.len() ==> #[trigger] text_shape(toks_text(invs[i]), READ_DEPTH as nat) is Some {
        Some(Seq::new(invs.len(), |i: int| text_shape(toks_text(invs[i]), READ_DEPTH as nat)->Some_0))
    } else {
        None
    }
}

/// Every binary invariant before the first non-binary one reads as a
/// comparison.
pub open spec fn comparisons_readable(sh: Seq<ShapeExprModel>) -> bool {
    forall|i: int| 0 <= i < first_non_binary_from(sh, 0) ==> #[trigger] comparison_ok(sh[i])
}

/// What reading a multiversioned function gives: the attribute's settings,
/// the function's name, its parameters and the comparisons its invariants
/// state; or the message of a refusal; `None` on the inputs on which the
/// build of the function stops without a message (a parameter type with no
/// size, or a binary invariant that reads as no comparison). Parameters and
/// invariants are read only when there is a variant to prove.
pub open spec fn multiversion_outcome(a: Seq<char>, s: Seq<char>) -> Option<
    Result<(AttrModel, Seq<char>, Seq<ParamModel>, Seq<CmpModel>), Seq<char>>,
> {
    match attr_of_text(a) {
        Err(m) => Some(Err(m)),
        Ok(am) => match text_signature(s, READ_DEPTH as nat) {
            None => Some(Err("cannot read the function signature"@)),
            Some((name, ps)) => if am.versions.len() == 0 {
                Some(Ok((am, name, ps, Seq::empty())))
            } else if !params_ok(ps) {
                None
            } else {
                match invariant_shapes(am.invariants) {
                    None => Some(Err("cannot read an invariant"@)),
                    Some(sh) => if !comparisons_readable(sh) {
                        None
                    } else if first_non_binary_from(sh, 0) < sh.len() {
                        Some(Err("invariants must be binary expressions"@))
                    } else {
                        Some(Ok((am, name, ps, sh.map_values(|e: ShapeExprModel| comparison_of(e)))))
                    },
                }
            },
        },
    }
}

/// A multiversioned function as its attribute and signature give it: the
/// settings, the function's name, the entry label, the variants to
/// dispatch among, the parameters and the comparisons of the invariants.
pub struct MultiversionPlan {
    pub attr: MultiAttr,
    pub fn_name: String,
    pub entry: String,
    pub variants: Vec<Variant>,
    pub params: Vec<Param>,
    pub invariants: Vec<AbstractComparison>,
}

fn relational(op: BinOpKind) -> (r: bool)
    ensures
        r == (crate::harness::relation_symbol(op) is Some),
{
    match op {
        BinOpKind::Eq | BinOpKind::Lt | BinOpKind::Le | BinOpKind::Ne | BinOpKind::Ge | BinOpKind::Gt => true,
        _ => false,
    }
}

fn params_ok_exec(ps: &Vec<Param>) -> (r: bool)
    ensures
        r == params_ok(ps@.map_values(|p: Param| p@)),
{
    let ghost pv = ps@.map_values(|p: Param| p@);
    let mut i: usize = 0;
    while i < ps.len()
        invariant
            i <= ps@.len(),
            pv == ps@.map_values(|p: Param| p@),
            forall|k: int| 0 <= k < i && (#[trigger] pv[k]).name is Some ==> crate::harness::region_length_of(pv[k].ty) is Some,
        decreases ps@.len() - i,
    {
        if ps[i].name.is_some() && region_length_exec(&ps[i].ty).is_none() {
            assert(pv[i as int].name is Some);
            return false;
        }
        i = i + 1;
    }
    true
}

fn shapes_readable(sh: &Vec<ExprShape>) -> (r: bool)
    ensures
        r == comparisons_readable(shapes_view(sh@)),
{
    let ghost sv = shapes_view(sh@);
    let mut k: usize = 0;
    while k < sh.len()
        invariant
            k <= sh@.len(),
            sv == shapes_view(sh@),
            first_non_binary_from(sv, 0) == first_non_binary_from(sv, k as int),
            forall|i: int| 0 <= i < k ==> #[trigger] comparison_ok(sv[i]),
        decreases sh@.len() - k,
    {
        match &sh[k] {
            ExprShape::Binary(op, a, b) => {
                assert(sv[k as int] is Binary);
                proof {
                    assert(first_non_binary_from(sv, k as int) == first_non_binary_from(sv, k + 1));
                }
                if !(relational(*op) && shape_ok_exec(a) && shape_ok_exec(b)) {
                    proof {
                        assert(first_non_binary_from(sv, k as int) == first_non_binary_from(sv, k + 1));
                        crate::harness::lemma_first_non_binary_at_least(sv, k + 1);
                        assert(!comparison_ok(sv[k as int]));
                    }
                    return false;
                }
            },
            _ => {
                assert(!(sv[k as int] is Binary));
                assert(first_non_binary_from(sv, k as int) == k);
                return true;
            },
        }
        k = k + 1;
    }
    true
}

/// Reads a multiversioned function from the text of its attribute and of
/// its signature (see `multiversion_outcome`): the tokens and the syntax
/// come from `proc_macro2` and `syn`, the settings from `MultiAttr::parse`,
/// the variants from `plan_variants`, the invariants from
/// `invariant_comparisons`.
#[verifier::loop_isolation(false)]
pub fn read_multiversion(attr_text: &str, signature: &str) -> (r: Option<Result<MultiversionPlan, String>>)
    ensures
        match (r, multiversion_outcome(attr_text@, signature@)) {
            (None, None) => true,
            (Some(Err(m)), Some(Err(x))) => m@ == x,
            (Some(Ok(p)), Some(Ok((am, name, ps, cs)))) => {
                &&& p.attr@ == am
                &&& p.fn_name@ == name
                &&& p.params@.map_values(|q: Param| q@) == ps
                &&& formulas_view(p.invariants@) == cs
                &&& p.entry@ == match am.entry {
                    Some(e) => e,
                    None => name,
                }
                &&& p.variants@.len() == am.versions.len()
                &&& forall|k: int|
                    0 <= k < p.variants@.len() ==> #[trigger] p.variants@[k]@ == (VariantModel {
                        symbol: planned_symbol(am.versions[k], name, k),
                        features: am.versions[k].features,
                    })
            },
            _ => false,
        },
{
    let toks = match attr_tokens_of(attr_text, READ_DEPTH) {
        None => {
            return Some(Err(String::from_str("cannot tokenize the attribute")));
        },
        Some(t) => t,
    };
    let attr = match MultiAttr::parse(&toks) {
        Ok(m) => m,
        Err(AttrError::Syntax) => {
            return Some(Err(String::from_str("the attribute is not a list of `key = value` pairs")));
        },
        Err(AttrError::Invalid(m)) => {
            return Some(Err(m));
        },
    };
    let (name, params) = match signature_of(signature, READ_DEPTH) {
        None => {
            return Some(Err(String::from_str("cannot read the function signature")));
        },
        Some(x) => x,
    };
    let mut invariants: Vec<AbstractComparison> = Vec::new();
    if attr.versions.len() > 0 {
        if !params_ok_exec(&params) {
            return None;
        }
        let ghost im = attr@.invariants;
        let mut shapes: Vec<ExprShape> = Vec::new();
        let mut i: usize = 0;
        while i < attr.invariants.len()
            invariant
                i <= attr.invariants@.len(),
                im == attr@.invariants,
                im.len() == attr.invariants@.len(),
                shapes@.len() == i,
                forall|k: int| 0 <= k < i ==> #[trigger] text_shape(toks_text(im[k]), READ_DEPTH as nat) == Some(shapes@[k]@),
            decreases attr.invariants@.len() - i,
        {
            let text = tokens_text(&attr.invariants[i]);
            assert(im[i as int] == crate::attr::tokens_model(attr.invariants@[i as int]@));
            match invariant_shape_of(text.as_str(), READ_DEPTH) {
                None => {
                    proof {
                        assert(!(text_shape(toks_text(im[i as int]), READ_DEPTH as nat) is Some));
                    }
                    return Some(Err(String::from_str("cannot read an invariant")));
                },
                Some(sh) => {
                    shapes.push(sh);
                },
            }
            i = i + 1;
        }
        proof {
            assert(shapes_view(shapes@) =~= invariant_shapes(im)->Some_0);
        }
        if !shapes_readable(&shapes) {
            return None;
        }
        match invariant_comparisons(&shapes) {
            Ok(cs) => {
                invariants = cs;
            },
            Err(m) => {
                return Some(Err(m));
            },
        }
    } else {
        assert(formulas_view(invariants@) =~= Seq::<CmpModel>::empty());
    }
    let entry = entry_label(&attr, name.as_str());
    let variants = plan_variants(&attr, name.as_str());
    proof {
        assert forall|k: int| 0 <= k < variants@.len() implies attr@.versions[k] == attr.versions@[k]@ by {}
    }
    Some(Ok(MultiversionPlan { attr, fn_name: name, entry, variants, params, invariants }))
}

} // verus!
