//! Relocations: data whose value could not be resolved at load time,
//! turned into linker-style records and rendered as JSON.
use vstd::prelude::*;
use crate::common::{
    AbstractExpression, ExprModel, RegModel, provider_regs, expr_text, push_expr_text, resolve, resolve_fits, str_is,
    try_resolve_expr,
};
use crate::computer::{LinkerReloc, RelocModel, Relocation, X86Computer, X86Model, read_register, relocs_view};
use crate::text::{fits_i64, int_text, push_int_text, push_str, string_from_chars};

verus! {

/// The symbol and addend of an expression of the form `symbol`,
/// `symbol + n`, `n + symbol` or `symbol - n` (nested, with `n` resolvable).
pub open spec fn extract_symbol_addend(e: ExprModel, labels: Map<Seq<char>, i64>, regs: spec_fn(Seq<char>) -> RegModel) -> Option<(Seq<char>, int)>
    decreases e,
{
    match e {
        ExprModel::Abstract(name) => Some((name, 0)),
        ExprModel::Expression(op, a, b) => if op == "+"@ {
            match (extract_symbol_addend(*a, labels, regs), resolve(*b, labels, regs)) {
                (Some((sym, off)), Some(n)) => Some((sym, off + n)),
                _ => match (extract_symbol_addend(*b, labels, regs), resolve(*a, labels, regs)) {
                    (Some((sym, off)), Some(n)) => Some((sym, off + n)),
                    _ => None,
                },
            }
        } else if op == "-"@ {
            match (extract_symbol_addend(*a, labels, regs), resolve(*b, labels, regs)) {
                (Some((sym, off)), Some(n)) => Some((sym, off - n)),
                _ => None,
            }
        } else {
            None
        },
        _ => None,
    }
}

/// The inputs on which extracting a symbol and addend runs without an
/// overflow: every sum or difference it forms, and every value it resolves,
/// fits in an `i64`.
pub open spec fn extract_ok(e: ExprModel, labels: Map<Seq<char>, i64>, regs: spec_fn(Seq<char>) -> RegModel) -> bool
    decreases e,
{
    match e {
        ExprModel::Expression(op, a, b) => if op == "+"@ {
            let ea = extract_symbol_addend(*a, labels, regs);
            let first = ea is Some && resolve(*b, labels, regs) is Some;
            &&& extract_ok(*a, labels, regs)
            &&& ea is Some ==> resolve_fits(*b, labels, regs)
            &&& first ==> fits_i64((ea->0).1 + resolve(*b, labels, regs)->0)
            &&& !first ==> {
                let eb = extract_symbol_addend(*b, labels, regs);
                &&& extract_ok(*b, labels, regs)
                &&& eb is Some ==> resolve_fits(*a, labels, regs)
                &&& (eb is Some && resolve(*a, labels, regs) is Some) ==> fits_i64(
                    (eb->0).1 + resolve(*a, labels, regs)->0,
                )
            }
        } else if op == "-"@ {
            let ea = extract_symbol_addend(*a, labels, regs);
            &&& extract_ok(*a, labels, regs)
            &&& ea is Some ==> resolve_fits(*b, labels, regs)
            &&& (ea is Some && resolve(*b, labels, regs) is Some) ==> fits_i64(
                (ea->0).1 - resolve(*b, labels, regs)->0,
            )
        } else {
            true
        },
        _ => true,
    }
}

/// Model of a `LinkerReloc`.
pub struct LinkerModel {
    pub addr: i64,
    pub size: usize,
    pub symbol: Option<Seq<char>>,
    pub addend: Option<i64>,
    pub expr: Seq<char>,
    pub kind: Seq<char>,
}

impl LinkerReloc {
    pub open spec fn view(&self) -> LinkerModel {
        LinkerModel {
            addr: self.addr,
            size: self.size,
            symbol: match self.symbol {
                Some(s) => Some(s@),
                None => None,
            },
            addend: self.addend,
            expr: self.expr@,
            kind: self.kind@,
        }
    }
}

/// Whether an expression is a difference of two names.
pub open spec fn is_label_difference(e: ExprModel) -> bool {
    e matches ExprModel::Expression(op, a, b) && op == "-"@ && *a is Abstract && *b is Abstract
}

/// The linker record of one relocation: a difference of two names is
/// `DIFF` (no symbol, no addend); otherwise a symbol plus or minus a
/// resolvable amount is `SYM_ADD`, and anything else `EXPR`.
pub open spec fn linker_record(r: RelocModel, labels: Map<Seq<char>, i64>, regs: spec_fn(Seq<char>) -> RegModel) -> LinkerModel {
    if is_label_difference(r.expr) {
        LinkerModel {
            addr: r.addr,
            size: r.size,
            symbol: None,
            addend: None,
            expr: expr_text(r.expr),
            kind: "DIFF"@,
        }
    } else {
        match extract_symbol_addend(r.expr, labels, regs) {
            Some((sym, off)) => LinkerModel {
                addr: r.addr,
                size: r.size,
                symbol: Some(sym),
                addend: Some(off as i64),
                expr: expr_text(r.expr),
                kind: "SYM_ADD"@,
            },
            None => LinkerModel {
                addr: r.addr,
                size: r.size,
                symbol: None,
                addend: None,
                expr: expr_text(r.expr),
                kind: "EXPR"@,
            },
        }
    }
}

pub open spec fn linkers_view(v: Seq<LinkerReloc>) -> Seq<LinkerModel> {
    v.map_values(|l: LinkerReloc| l@)
}

/// `c` escaped for a JSON string: backslash and double quote get a backslash.
pub open spec fn json_char(c: char) -> Seq<char> {
    if c == '\\' {
        seq!['\\', '\\']
    } else if c == '"' {
        seq!['\\', '"']
    } else {
        seq![c]
    }
}

pub open spec fn json_escape(s: Seq<char>) -> Seq<char>
    decreases s.len(),
{
    if s.len() == 0 {
        Seq::empty()
    } else {
        json_escape(s.drop_last()) + json_char(s.last())
    }
}

/// `s` with only its double quotes escaped.
pub open spec fn quote_escape(s: Seq<char>) -> Seq<char>
    decreases s.len(),
{
    if s.len() == 0 {
        Seq::empty()
    } else {
        quote_escape(s.drop_last()) + if s.last() == '"' {
            seq!['\\', '"']
        } else {
            seq![s.last()]
        }
    }
}

/// The items joined by commas.
pub open spec fn join_commas(items: Seq<Seq<char>>) -> Seq<char>
    decreases items.len(),
{
    if items.len() == 0 {
        Seq::empty()
    } else if items.len() == 1 {
        items[0]
    } else {
        join_commas(items.drop_last()) + ","@ + items.last()
    }
}

/// The JSON object of one relocation.
pub open spec fn reloc_json(r: RelocModel) -> Seq<char> {
    "{\"addr\":"@ + int_text(r.addr as int) + ",\"size\":"@ + int_text(r.size as int) + ",\"expr\":\""@
        + json_escape(expr_text(r.expr)) + "\"}"@
}

/// The JSON object of one linker record.
pub open spec fn linker_json(l: LinkerModel) -> Seq<char> {
    "{\"addr\":"@ + int_text(l.addr as int) + ",\"size\":"@ + int_text(l.size as int) + ",\"symbol\":"@
        + match l.symbol {
        Some(s) => "\""@ + quote_escape(s) + "\""@,
        None => "null"@,
    } + ",\"addend\":"@ + match l.addend {
        Some(a) => int_text(a as int),
        None => "null"@,
    } + ",\"expr\":\""@ + json_escape(l.expr) + "\",\"kind\":\""@ + l.kind + "\"}"@
}

fn push_json_escaped(out: &mut Vec<char>, s: &Vec<char>)
    ensures
        final(out)@ == old(out)@ + json_escape(s@),
{
    let ghost o = out@;
    let mut i: usize = 0;
    assert(s@.take(0) =~= Seq::<char>::empty());
    while i < s.len()
        invariant
            i <= s.len(),
            out@ == o + json_escape(s@.take(i as int)),
        decreases s.len() - i,
    {
        assert(s@.take(i + 1).drop_last() =~= s@.take(i as int));
        let c = s[i];
        if c == '\\' {
            out.push('\\');
            out.push('\\');
        } else if c == '"' {
            out.push('\\');
            out.push('"');
        } else {
            out.push(c);
        }
        i = i + 1;
        assert(out@ =~= o + json_escape(s@.take(i as int)));
    }
    assert(s@.take(i as int) =~= s@);
}

fn push_quote_escaped(out: &mut Vec<char>, s: &Vec<char>)
    ensures
        final(out)@ == old(out)@ + quote_escape(s@),
{
    let ghost o = out@;
    let mut i: usize = 0;
    assert(s@.take(0) =~= Seq::<char>::empty());
    while i < s.len()
        invariant
            i <= s.len(),
            out@ == o + quote_escape(s@.take(i as int)),
        decreases s.len() - i,
    {
        assert(s@.take(i + 1).drop_last() =~= s@.take(i as int));
        let c = s[i];
        if c == '"' {
            out.push('\\');
            out.push('"');
        } else {
            out.push(c);
        }
        i = i + 1;
        assert(out@ =~= o + quote_escape(s@.take(i as int)));
    }
    assert(s@.take(i as int) =~= s@);
}

fn push_reloc_json(out: &mut Vec<char>, r: &Relocation)
    ensures
        final(out)@ == old(out)@ + reloc_json(r@),
{
    let ghost o = out@;
    push_str(out, "{\"addr\":");
    push_int_text(out, r.addr as i128);
    push_str(out, ",\"size\":");
    push_int_text(out, r.size as i128);
    push_str(out, ",\"expr\":\"");
    let t = expr_text_chars(&r.expr);
    push_json_escaped(out, &t);
    push_str(out, "\"}");
    assert(out@ =~= o + reloc_json(r@));
}

fn push_symbol_field(out: &mut Vec<char>, sym: &Option<String>)
    ensures
        final(out)@ == old(out)@ + match sym {
            Some(s) => "\""@ + quote_escape(s@) + "\""@,
            None => "null"@,
        },
{
    let ghost o = out@;
    match sym {
        Some(s) => {
            push_str(out, "\"");
            let sv = crate::text::chars_of(s.as_str());
            push_quote_escaped(out, &sv);
            push_str(out, "\"");
            assert(out@ =~= o + ("\""@ + quote_escape(s@) + "\""@));
        },
        None => push_str(out, "null"),
    }
}

fn push_addend_field(out: &mut Vec<char>, addend: Option<i64>)
    ensures
        final(out)@ == old(out)@ + match addend {
            Some(a) => int_text(a as int),
            None => "null"@,
        },
{
    match addend {
        Some(a) => push_int_text(out, a as i128),
        None => push_str(out, "null"),
    }
}

fn push_linker_json(out: &mut Vec<char>, lr: &LinkerReloc)
    ensures
        final(out)@ == old(out)@ + linker_json(lr@),
{
    let ghost o = out@;
    push_str(out, "{\"addr\":");
    push_int_text(out, lr.addr as i128);
    push_str(out, ",\"size\":");
    push_int_text(out, lr.size as i128);
    push_str(out, ",\"symbol\":");
    let ghost a1 = out@;
    push_symbol_field(out, &lr.symbol);
    let ghost a2 = out@;
    push_str(out, ",\"addend\":");
    push_addend_field(out, lr.addend);
    let ghost a3 = out@;
    push_str(out, ",\"expr\":\"");
    let ev = crate::text::chars_of(lr.expr.as_str());
    push_json_escaped(out, &ev);
    push_str(out, "\",\"kind\":\"");
    push_str(out, lr.kind.as_str());
    push_str(out, "\"}");
    assert(out@ =~= o + linker_json(lr@));
}

fn extract_exec(e: &AbstractExpression, comp: &X86Computer) -> (r: Option<(String, i64)>)
    requires
        extract_ok(e@, comp@.labels, provider_regs(*comp)),
    ensures
        match r {
            Some((s, v)) => extract_symbol_addend(e@, comp@.labels, provider_regs(*comp)) == Some((s@, v as int)),
            None => extract_symbol_addend(e@, comp@.labels, provider_regs(*comp)) is None,
        },
    decreases e,
{
    match e {
        AbstractExpression::Abstract(name) => Some((name.clone(), 0)),
        AbstractExpression::Expression(op, a, b) => {
            if str_is(op, "+") {
                if let Some((sym, off)) = extract_exec(&**a, comp) {
                    if let Some(n) = try_resolve_expr(&**b, &comp.memory_labels, comp) {
                        return Some((sym, off + n));
                    }
                }
                if let Some((sym, off)) = extract_exec(&**b, comp) {
                    if let Some(n) = try_resolve_expr(&**a, &comp.memory_labels, comp) {
                        return Some((sym, off + n));
                    }
                }
                None
            } else if str_is(op, "-") {
                if let Some((sym, off)) = extract_exec(&**a, comp) {
                    if let Some(n) = try_resolve_expr(&**b, &comp.memory_labels, comp) {
                        return Some((sym, off - n));
                    }
                }
                None
            } else {
                None
            }
        },
        _ => None,
    }
}

fn expr_text_chars(e: &AbstractExpression) -> (r: Vec<char>)
    ensures
        r@ == expr_text(e@),
{
    let mut out: Vec<char> = Vec::new();
    push_expr_text(&mut out, e);
    assert(out@ =~= expr_text(e@));
    out
}

fn is_label_difference_exec(e: &AbstractExpression) -> (r: bool)
    ensures
        r == is_label_difference(e@),
{
    match e {
        AbstractExpression::Expression(op, a, b) => {
            if !str_is(op, "-") {
                return false;
            }
            match (&**a, &**b) {
                (AbstractExpression::Abstract(_), AbstractExpression::Abstract(_)) => true,
                (AbstractExpression::Abstract(_), _) => {
                    assert(!((**b)@ is Abstract));
                    false
                },
                _ => {
                    assert(!((**a)@ is Abstract));
                    false
                },
            }
        },
        _ => false,
    }
}

/// Every relocation's expression can be split into symbol and addend
/// without an overflow.
pub open spec fn relocations_ok(c: X86Computer) -> bool {
    forall|i: int| 0 <= i < c@.relocations.len() ==> extract_ok(#[trigger] c@.relocations[i].expr, c@.labels, provider_regs(c))
}

impl X86Computer {
    /// The relocations as linker records: `DIFF` for a difference of two
    /// names, `SYM_ADD` with symbol and addend where the expression is
    /// otherwise a symbol plus or minus a resolvable amount, `EXPR` otherwise.
    pub fn relocations_to_linker_records(&self) -> (r: Vec<LinkerReloc>)
        requires
            relocations_ok(*self),
        ensures
            linkers_view(r@) == self@.relocations.map_values(|x: RelocModel| linker_record(x, self@.labels, provider_regs(*self))),
    {
        let mut out: Vec<LinkerReloc> = Vec::new();
        let mut i: usize = 0;
        while i < self.relocations.len()
            invariant
                i <= self.relocations.len(),
                relocations_ok(*self),
                out@.len() == i,
                forall|j: int| 0 <= j < i ==> (#[trigger] out@[j])@ == linker_record(self@.relocations[j], self@.labels, provider_regs(*self)),
            decreases self.relocations.len() - i,
        {
            let r = &self.relocations[i];
            assert(self@.relocations[i as int] == r@);
            assert(extract_ok(self@.relocations[i as int].expr, self@.labels, provider_regs(*self)));
            let expr_s = string_from_chars(expr_text_chars(&r.expr).as_slice());
            let diff = is_label_difference_exec(&r.expr);
            let rec = if diff {
                LinkerReloc {
                    addr: r.addr,
                    size: r.size,
                    symbol: None,
                    addend: None,
                    expr: expr_s,
                    kind: String::from_str("DIFF"),
                }
            } else {
                match extract_exec(&r.expr, self) {
                    Some((sym, off)) => LinkerReloc {
                        addr: r.addr,
                        size: r.size,
                        symbol: Some(sym),
                        addend: Some(off),
                        expr: expr_s,
                        kind: String::from_str("SYM_ADD"),
                    },
                    None => LinkerReloc {
                        addr: r.addr,
                        size: r.size,
                        symbol: None,
                        addend: None,
                        expr: expr_s,
                        kind: String::from_str("EXPR"),
                    },
                }
            };
            out.push(rec);
            i = i + 1;
        }
        assert(linkers_view(out@) =~= self@.relocations.map_values(|x: RelocModel| linker_record(x, self@.labels, provider_regs(*self))));
        out
    }

    /// The relocations as a JSON array of `{"addr","size","expr"}` objects.
    pub fn export_relocations_json(&self) -> (r: String)
        ensures
            r@ == "["@ + join_commas(self@.relocations.map_values(|x: RelocModel| reloc_json(x))) + "]"@,
    {
        proof {
            reveal_strlit("[");
            reveal_strlit("]");
            reveal_strlit(",");
        }
        let ghost items = self@.relocations.map_values(|x: RelocModel| reloc_json(x));
        let mut out: Vec<char> = Vec::new();
        out.push('[');
        let mut i: usize = 0;
        assert(items.take(0) =~= Seq::<Seq<char>>::empty());
        while i < self.relocations.len()
            invariant
                i <= self.relocations.len(),
                items == self@.relocations.map_values(|x: RelocModel| reloc_json(x)),
                out@ == seq!['['] + join_commas(items.take(i as int)),
            decreases self.relocations.len() - i,
        {
            let r = &self.relocations[i];
            assert(self@.relocations[i as int] == r@);
            if i > 0 {
                out.push(',');
            }
            push_reloc_json(&mut out, r);
            proof {
                reveal_strlit(",");
                assert(items.take(i + 1).drop_last() =~= items.take(i as int));
                assert(items[i as int] == reloc_json(r@));
                if i > 0 {
                    assert(out@ =~= seq!['['] + (join_commas(items.take(i as int)) + ","@ + items[i as int]));
                } else {
                    assert(items.take(1).len() == 1);
                    assert(out@ =~= seq!['['] + items.take(1)[0]);
                }
            }
            i = i + 1;
        }
        assert(items.take(i as int) =~= items);
        out.push(']');
        string_from_chars(out.as_slice())
    }

    /// The linker records as a JSON array.
    pub fn export_linker_relocs_json(&self) -> (r: String)
        requires
            relocations_ok(*self),
        ensures
            r@ == "["@ + join_commas(self@.relocations.map_values(|x: RelocModel| linker_json(linker_record(x, self@.labels, provider_regs(*self))))) + "]"@,
    {
        proof {
            reveal_strlit("[");
            reveal_strlit("]");
            reveal_strlit(",");
        }
        let recs = self.relocations_to_linker_records();
        assert(recs@.len() == linkers_view(recs@).len());
        let ghost items = self@.relocations.map_values(|x: RelocModel| linker_json(linker_record(x, self@.labels, provider_regs(*self))));
        let mut out: Vec<char> = Vec::new();
        out.push('[');
        let mut i: usize = 0;
        assert(items.take(0) =~= Seq::<Seq<char>>::empty());
        while i < recs.len()
            invariant
                i <= recs.len() == self@.relocations.len(),
                items == self@.relocations.map_values(|x: RelocModel| linker_json(linker_record(x, self@.labels, provider_regs(*self)))),
                linkers_view(recs@) == self@.relocations.map_values(|x: RelocModel| linker_record(x, self@.labels, provider_regs(*self))),
                out@ == seq!['['] + join_commas(items.take(i as int)),
            decreases recs.len() - i,
        {
            let lr = &recs[i];
            assert(linkers_view(recs@)[i as int] == lr@);
            if i > 0 {
                out.push(',');
            }
            push_linker_json(&mut out, lr);
            proof {
                reveal_strlit(",");
                assert(items.take(i + 1).drop_last() =~= items.take(i as int));
                assert(items[i as int] == linker_json(lr@));
                if i > 0 {
                    assert(out@ =~= seq!['['] + (join_commas(items.take(i as int)) + ","@ + items[i as int]));
                } else {
                    assert(items.take(1).len() == 1);
                    assert(out@ =~= seq!['['] + items.take(1)[0]);
                }
            }
            i = i + 1;
        }
        assert(items.take(i as int) =~= items);
        out.push(']');
        string_from_chars(out.as_slice())
    }
}

} // verus!
