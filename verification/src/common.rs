//! Values of the abstract machine: register values, symbolic expressions,
//! comparisons, flags, memory regions and their mathematical models.
use vstd::prelude::*;
use std::collections::HashMap;
use crate::strmap::{Modeled, StrMap};
use crate::text::{fits_i64, int_text, push_int_text, push_str, chars_of, contains_sub, contains_sub_exec, string_from_chars, trim_char, split_char, find_char_range, lemma_find_char, trim_char_range, string_of_range};

verus! {

broadcast use vstd::std_specs::hash::group_hash_axioms;

/// How a register value is known.
#[derive(Debug, Clone, Copy, PartialEq, Eq, Structural)]
pub enum RegisterKind {
    /// An abstract base expression plus an immediate offset.
    RegisterBase,
    /// An unknown number.
    Number,
    /// A known immediate number.
    Immediate,
}

/// Mathematical model of an `AbstractExpression`: names are character sequences.
pub enum ExprModel {
    Empty,
    Immediate(i64),
    Abstract(Seq<char>),
    Register(Box<RegModel>),
    Expression(Seq<char>, Box<ExprModel>, Box<ExprModel>),
}

/// Mathematical model of a `RegisterValue`.
pub struct RegModel {
    pub kind: RegisterKind,
    pub base: Option<ExprModel>,
    pub offset: i64,
    pub known_mask: u64,
    pub known_value: u64,
}

/// A symbolic expression over named abstract values.
#[derive(Debug)]
pub enum AbstractExpression {
    Empty,
    Immediate(i64),
    Abstract(String),
    /// A register value boxed into an expression (used by comparisons).
    Register(Box<RegisterValue>),
    Expression(String, Box<AbstractExpression>, Box<AbstractExpression>),
}

/// The value held by a general purpose register.
#[derive(Debug)]
pub struct RegisterValue {
    pub kind: RegisterKind,
    pub base: Option<AbstractExpression>,
    pub offset: i64,
    /// Bits of the canonical 64-bit register that are known (1 = known).
    pub known_mask: u64,
    /// Values of the known bits (meaningful where `known_mask` has ones).
    pub known_value: u64,
}

pub open spec fn opt_expr_view(o: Option<AbstractExpression>) -> Option<ExprModel> {
    match o {
        Some(e) => Some(e@),
        None => None,
    }
}

impl AbstractExpression {
    pub open spec fn view(&self) -> ExprModel
        decreases self,
    {
        match self {
            AbstractExpression::Empty => ExprModel::Empty,
            AbstractExpression::Immediate(n) => ExprModel::Immediate(*n),
            AbstractExpression::Abstract(s) => ExprModel::Abstract(s@),
            AbstractExpression::Register(r) => ExprModel::Register(Box::new(r.view_rv())),
            AbstractExpression::Expression(op, a, b) => ExprModel::Expression(
                op@,
                Box::new(a.view()),
                Box::new(b.view()),
            ),
        }
    }
}

impl RegisterValue {
    pub open spec fn view_rv(&self) -> RegModel
        decreases self,
    {
        RegModel {
            kind: self.kind,
            base: match &self.base {
                Some(e) => Some(e.view()),
                None => None,
            },
            offset: self.offset,
            known_mask: self.known_mask,
            known_value: self.known_value,
        }
    }

    pub open spec fn view(&self) -> RegModel {
        self.view_rv()
    }
}

/// Exact copy of an expression.
pub fn clone_expr(e: &AbstractExpression) -> (r: AbstractExpression)
    ensures
        r@ == e@,
    decreases e,
{
    match e {
        AbstractExpression::Empty => AbstractExpression::Empty,
        AbstractExpression::Immediate(n) => AbstractExpression::Immediate(*n),
        AbstractExpression::Abstract(s) => AbstractExpression::Abstract(s.clone()),
        AbstractExpression::Register(r) => {
            let c = clone_rv(&**r);
            AbstractExpression::Register(Box::new(c))
        },
        AbstractExpression::Expression(op, a, b) => {
            let ca = clone_expr(&**a);
            let cb = clone_expr(&**b);
            AbstractExpression::Expression(op.clone(), Box::new(ca), Box::new(cb))
        },
    }
}

/// Exact copy of a register value.
pub fn clone_rv(r: &RegisterValue) -> (c: RegisterValue)
    ensures
        c@ == r@,
    decreases r,
{
    let base = match &r.base {
        Some(e) => Some(clone_expr(e)),
        None => None,
    };
    RegisterValue {
        kind: r.kind,
        base,
        offset: r.offset,
        known_mask: r.known_mask,
        known_value: r.known_value,
    }
}

pub fn clone_opt_expr(o: &Option<AbstractExpression>) -> (r: Option<AbstractExpression>)
    ensures
        opt_expr_view(r) == opt_expr_view(*o),
{
    match o {
        Some(e) => Some(clone_expr(e)),
        None => None,
    }
}

/// Whether two expressions have the same model.
pub fn expr_eq(a: &AbstractExpression, b: &AbstractExpression) -> (r: bool)
    ensures
        r == (a@ == b@),
    decreases a,
{
    match (a, b) {
        (AbstractExpression::Empty, AbstractExpression::Empty) => true,
        (AbstractExpression::Immediate(x), AbstractExpression::Immediate(y)) => *x == *y,
        (AbstractExpression::Abstract(x), AbstractExpression::Abstract(y)) => {
            let r = (*x).eq(y);
            proof {
                if !r {
                    assert(a@->Abstract_0 != b@->Abstract_0);
                }
            }
            r
        },
        (AbstractExpression::Register(x), AbstractExpression::Register(y)) => {
            let r = rv_eq(&**x, &**y);
            proof {
                if !r {
                    assert(a@->Register_0 != b@->Register_0);
                }
            }
            r
        },
        (AbstractExpression::Expression(o1, a1, b1), AbstractExpression::Expression(o2, a2, b2)) => {
            if !(*o1).eq(o2) {
                assert(a@->Expression_0 != b@->Expression_0);
                return false;
            }
            if !expr_eq(&**a1, &**a2) {
                assert(*a@->Expression_1 != *b@->Expression_1);
                return false;
            }
            if !expr_eq(&**b1, &**b2) {
                assert(*a@->Expression_2 != *b@->Expression_2);
                return false;
            }
            true
        },
        _ => false,
    }
}

/// Whether two register values have the same model.
pub fn rv_eq(a: &RegisterValue, b: &RegisterValue) -> (r: bool)
    ensures
        r == (a@ == b@),
    decreases a,
{
    if a.kind != b.kind || a.offset != b.offset || a.known_mask != b.known_mask || a.known_value
        != b.known_value {
        return false;
    }
    match (&a.base, &b.base) {
        (None, None) => true,
        (Some(x), Some(y)) => {
            let r = expr_eq(x, y);
            proof {
                if !r {
                    assert(a@.base->0 != b@.base->0);
                }
            }
            r
        },
        _ => false,
    }
}

pub fn opt_expr_eq(a: &Option<AbstractExpression>, b: &Option<AbstractExpression>) -> (r: bool)
    ensures
        r == (opt_expr_view(*a) == opt_expr_view(*b)),
{
    match (a, b) {
        (None, None) => true,
        (Some(x), Some(y)) => expr_eq(x, y),
        _ => false,
    }
}

impl Clone for AbstractExpression {
    fn clone(&self) -> (r: Self)
        ensures
            r@ == self@,
    {
        clone_expr(self)
    }
}

impl Clone for RegisterValue {
    fn clone(&self) -> (r: Self)
        ensures
            r@ == self@,
    {
        clone_rv(self)
    }
}

impl PartialEq for AbstractExpression {
    fn eq(&self, other: &Self) -> (r: bool) {
        expr_eq(self, other)
    }
}

impl vstd::std_specs::cmp::PartialEqSpecImpl for AbstractExpression {
    open spec fn obeys_eq_spec() -> bool {
        true
    }

    open spec fn eq_spec(&self, other: &Self) -> bool {
        self@ == other@
    }
}

impl PartialEq for RegisterValue {
    fn eq(&self, other: &Self) -> (r: bool) {
        rv_eq(self, other)
    }
}

impl vstd::std_specs::cmp::PartialEqSpecImpl for RegisterValue {
    open spec fn obeys_eq_spec() -> bool {
        true
    }

    open spec fn eq_spec(&self, other: &Self) -> bool {
        self@ == other@
    }
}

/// All 64 bits set.
pub open spec fn all_ones() -> u64 {
    0xffff_ffff_ffff_ffffu64
}

/// Model of `RegisterValue::new`: immediates are fully known.
pub open spec fn rv_new_model(kind: RegisterKind, base: Option<ExprModel>, offset: i64) -> RegModel {
    RegModel {
        kind,
        base,
        offset,
        known_mask: if kind == RegisterKind::Immediate {
            all_ones()
        } else {
            0
        },
        known_value: if kind == RegisterKind::Immediate {
            offset as u64
        } else {
            0
        },
    }
}

/// Model of `RegisterValue::set_known_bits`.
pub open spec fn known_bits_model(r: RegModel, mask: u64, value: u64) -> RegModel {
    let kv = (r.known_value & !mask) | (value & mask);
    let km = r.known_mask | mask;
    RegModel {
        kind: if km == all_ones() {
            RegisterKind::Immediate
        } else {
            r.kind
        },
        offset: if km == all_ones() {
            kv as i64
        } else {
            r.offset
        },
        known_mask: km,
        known_value: kv,
        base: r.base,
    }
}

impl RegisterValue {
    /// A value of the given kind; an immediate has all bits known.
    pub fn new(kind: RegisterKind, base: Option<AbstractExpression>, offset: i64) -> (r: Self)
        ensures
            r@ == rv_new_model(kind, opt_expr_view(base), offset),
    {
        let mut kv = RegisterValue { kind, base, offset, known_mask: 0u64, known_value: 0u64 };
        if kv.kind == RegisterKind::Immediate {
            kv.known_mask = 0xffff_ffff_ffff_ffffu64;
            kv.known_value = kv.offset as u64;
        }
        kv
    }

    /// A register holding the abstract value named `name`.
    pub fn new_empty(name: &str) -> (r: Self)
        ensures
            r@ == rv_new_model(RegisterKind::RegisterBase, Some(ExprModel::Abstract(name@)), 0),
    {
        RegisterValue {
            kind: RegisterKind::RegisterBase,
            base: Some(AbstractExpression::Abstract(String::from_str(name))),
            offset: 0,
            known_mask: 0u64,
            known_value: 0u64,
        }
    }

    /// A register holding the immediate `num`, all bits known.
    pub fn new_imm(num: i64) -> (r: Self)
        ensures
            r@ == rv_new_model(RegisterKind::Immediate, None, num),
    {
        RegisterValue {
            kind: RegisterKind::Immediate,
            base: None,
            offset: num,
            known_mask: 0xffff_ffff_ffff_ffffu64,
            known_value: num as u64,
        }
    }

    /// A value with explicit known bits.
    pub fn with_known(
        kind: RegisterKind,
        base: Option<AbstractExpression>,
        offset: i64,
        known_mask: u64,
        known_value: u64,
    ) -> (r: Self)
        ensures
            r@ == (RegModel {
                kind,
                base: opt_expr_view(base),
                offset,
                known_mask,
                known_value,
            }),
    {
        RegisterValue { kind, base, offset, known_mask, known_value }
    }

    /// Overwrites the value; the known bits follow the kind.
    pub fn set(&mut self, kind: RegisterKind, base: Option<AbstractExpression>, offset: i64)
        ensures
            final(self)@ == rv_new_model(kind, opt_expr_view(base), offset),
    {
        self.kind = kind;
        self.base = base;
        self.offset = offset;
        if self.kind == RegisterKind::Immediate {
            self.known_mask = 0xffff_ffff_ffff_ffffu64;
            self.known_value = self.offset as u64;
        } else {
            self.known_mask = 0u64;
            self.known_value = 0u64;
        }
    }

    /// Merges known bits; a fully known value becomes an immediate.
    pub fn set_known_bits(&mut self, mask: u64, value: u64)
        ensures
            final(self)@ == known_bits_model(old(self)@, mask, value),
    {
        self.known_value = (self.known_value & !mask) | (value & mask);
        self.known_mask = self.known_mask | mask;
        if self.known_mask == 0xffff_ffff_ffff_ffffu64 {
            self.kind = RegisterKind::Immediate;
            self.offset = self.known_value as i64;
        }
    }
}

/// Builds `Expression(op, a, b)`.
pub fn generate_expression(op: &str, a: AbstractExpression, b: AbstractExpression) -> (r:
    AbstractExpression)
    ensures
        r@ == ExprModel::Expression(op@, Box::new(a@), Box::new(b@)),
{
    AbstractExpression::Expression(String::from_str(op), Box::new(a), Box::new(b))
}

pub open spec fn opt_or_zero(o: Option<ExprModel>) -> ExprModel {
    match o {
        Some(e) => e,
        None => ExprModel::Immediate(0),
    }
}

/// Model of `generate_expression_from_options`.
pub open spec fn expr_from_options_model(op: Seq<char>, a: Option<ExprModel>, b: Option<ExprModel>)
    -> Option<ExprModel> {
    if a is Some || b is Some {
        Some(ExprModel::Expression(op, Box::new(opt_or_zero(a)), Box::new(opt_or_zero(b))))
    } else {
        None
    }
}

/// Combines two optional operands; a missing one stands for `Immediate(0)`.
pub fn generate_expression_from_options(
    op: &str,
    a: Option<AbstractExpression>,
    b: Option<AbstractExpression>,
) -> (r: Option<AbstractExpression>)
    ensures
        opt_expr_view(r) == expr_from_options_model(op@, opt_expr_view(a), opt_expr_view(b)),
{
    if a.is_some() || b.is_some() {
        let x = match a {
            Some(e) => e,
            None => AbstractExpression::Immediate(0),
        };
        let y = match b {
            Some(e) => e,
            None => AbstractExpression::Immediate(0),
        };
        Some(generate_expression(op, x, y))
    } else {
        None
    }
}

/// Names of the abstract values an expression mentions, left to right.
pub open spec fn abstracts_of(e: ExprModel) -> Seq<Seq<char>>
    decreases e,
{
    match e {
        ExprModel::Abstract(v) => seq![v],
        ExprModel::Register(r) => match r.base {
            Some(b) => abstracts_of(b),
            None => Seq::empty(),
        },
        ExprModel::Expression(_, a, b) => abstracts_of(*a) + abstracts_of(*b),
        _ => Seq::empty(),
    }
}

/// Whether some abstract name of `e` contains `token`.
pub open spec fn expr_contains(e: ExprModel, token: Seq<char>) -> bool
    decreases e,
{
    match e {
        ExprModel::Abstract(v) => contains_sub(v, token),
        ExprModel::Register(r) => match r.base {
            Some(b) => expr_contains(b, token),
            None => false,
        },
        ExprModel::Expression(_, a, b) => expr_contains(*a, token) || expr_contains(*b, token),
        _ => false,
    }
}

/// Whether `sub` occurs in `e` along `Expression` nodes.
pub open spec fn expr_contains_expr(e: ExprModel, sub: ExprModel) -> bool
    decreases e,
{
    e == sub || match e {
        ExprModel::Expression(_, a, b) => expr_contains_expr(*a, sub) || expr_contains_expr(
            *b,
            sub,
        ),
        _ => false,
    }
}

pub open spec fn strings_view(v: Seq<String>) -> Seq<Seq<char>> {
    v.map_values(|s: String| s@)
}

fn append_strings(out: &mut Vec<String>, more: &Vec<String>)
    ensures
        strings_view(final(out)@) == strings_view(old(out)@) + strings_view(more@),
{
    let ghost o = out@;
    let mut i: usize = 0;
    let n = more.len();
    while i < n
        invariant
            i <= n == more.len(),
            out@ == o + more@.take(i as int),
        decreases n - i,
    {
        let s = more[i].clone();
        out.push(s);
        i = i + 1;
        assert(out@ =~= o + more@.take(i as int));
    }
    assert(more@.take(i as int) =~= more@);
    assert(strings_view(out@) =~= strings_view(o) + strings_view(more@));
}

impl AbstractExpression {
    /// Names of the abstract values this expression mentions, left to right.
    pub fn get_abstracts(&self) -> (r: Vec<String>)
        ensures
            strings_view(r@) == abstracts_of(self@),
        decreases self,
    {
        let mut abstracts: Vec<String> = Vec::new();
        match self {
            AbstractExpression::Abstract(value) => {
                abstracts.push(value.clone());
                assert(strings_view(abstracts@) =~= seq![value@]);
            },
            AbstractExpression::Register(reg) => {
                match &reg.base {
                    Some(b) => {
                        assert(reg.view_rv().base == Some(b@));
                        let more = b.get_abstracts();
                        append_strings(&mut abstracts, &more);
                        assert(strings_view(abstracts@) =~= abstracts_of(self@));
                    },
                    None => {
                        assert(reg.view_rv().base is None);
                        assert(strings_view(abstracts@) =~= abstracts_of(self@));
                    },
                }
            },
            AbstractExpression::Expression(_, arg1, arg2) => {
                let m1 = arg1.get_abstracts();
                append_strings(&mut abstracts, &m1);
                let m2 = arg2.get_abstracts();
                append_strings(&mut abstracts, &m2);
                assert(strings_view(abstracts@) =~= abstracts_of(self@));
            },
            _ => {
                assert(strings_view(abstracts@) =~= abstracts_of(self@));
            },
        }
        abstracts
    }

    /// Whether some abstract name of this expression contains `token`.
    pub fn contains(&self, token: &str) -> (r: bool)
        ensures
            r == expr_contains(self@, token@),
        decreases self,
    {
        match self {
            AbstractExpression::Abstract(value) => {
                let v = chars_of(value.as_str());
                let t = chars_of(token);
                assert(v@ == value@);
                contains_sub_exec(&v, &t)
            },
            AbstractExpression::Register(reg) => match &reg.base {
                Some(e) => {
                    assert(reg.view_rv().base == Some(e@));
                    e.contains(token)
                },
                None => {
                    assert(reg.view_rv().base is None);
                    false
                },
            },
            AbstractExpression::Expression(_, arg1, arg2) => {
                arg1.contains(token) || arg2.contains(token)
            },
            _ => false,
        }
    }

    /// Whether `expr` equals this expression or one of its `Expression` operands.
    pub fn contains_expression(&self, expr: &AbstractExpression) -> (r: bool)
        ensures
            r == expr_contains_expr(self@, expr@),
        decreases self,
    {
        if expr_eq(self, expr) {
            return true;
        }
        match self {
            AbstractExpression::Expression(_, arg1, arg2) => {
                arg1.contains_expression(expr) || arg2.contains_expression(expr)
            },
            _ => false,
        }
    }
}

pub open spec fn kind_text(k: RegisterKind) -> Seq<char> {
    match k {
        RegisterKind::RegisterBase => "RegisterBase"@,
        RegisterKind::Number => "Number"@,
        RegisterKind::Immediate => "Immediate"@,
    }
}

pub open spec fn hex_digit(n: int) -> char {
    if n < 10 {
        (('0' as int) + n) as char
    } else {
        (('a' as int) + n - 10) as char
    }
}

/// How `Debug` renders one character inside a string literal.
pub open spec fn char_escape(c: char) -> Seq<char> {
    if c == '\t' {
        "\\t"@
    } else if c == '\r' {
        "\\r"@
    } else if c == '\n' {
        "\\n"@
    } else if c == '\\' {
        "\\\\"@
    } else if c == '"' {
        "\\\""@
    } else if c == '\0' {
        "\\0"@
    } else if (c as int) < 0x20 || (c as int) == 0x7f {
        if (c as int) < 16 {
            "\\u{"@ + seq![hex_digit(c as int)] + "}"@
        } else {
            "\\u{"@ + seq![hex_digit((c as int) / 16), hex_digit((c as int) % 16)] + "}"@
        }
    } else {
        seq![c]
    }
}

pub open spec fn escape_text(s: Seq<char>) -> Seq<char>
    decreases s.len(),
{
    if s.len() == 0 {
        Seq::empty()
    } else {
        escape_text(s.drop_last()) + char_escape(s.last())
    }
}

/// `Debug` rendering of a string.
pub open spec fn str_debug(s: Seq<char>) -> Seq<char> {
    seq!['"'] + escape_text(s) + seq!['"']
}

/// `Debug` rendering of an expression.
pub open spec fn expr_debug(e: ExprModel) -> Seq<char>
    decreases e,
{
    match e {
        ExprModel::Empty => "Empty"@,
        ExprModel::Immediate(v) => "Immediate("@ + int_text(v as int) + ")"@,
        ExprModel::Abstract(s) => "Abstract("@ + str_debug(s) + ")"@,
        ExprModel::Register(r) => "Register("@ + rv_debug(*r) + ")"@,
        ExprModel::Expression(o, a, b) => "Expression("@ + str_debug(o) + ", "@ + expr_debug(*a)
            + ", "@ + expr_debug(*b) + ")"@,
    }
}

/// `Debug` rendering of a register value.
pub open spec fn rv_debug(r: RegModel) -> Seq<char>
    decreases r,
{
    "RegisterValue { kind: "@ + kind_text(r.kind) + ", base: "@ + match r.base {
        Some(b) => "Some("@ + expr_debug(b) + ")"@,
        None => "None"@,
    } + ", offset: "@ + int_text(r.offset as int) + ", known_mask: "@ + int_text(
        r.known_mask as int,
    ) + ", known_value: "@ + int_text(r.known_value as int) + " }"@
}

/// `Display` rendering of an expression.
pub open spec fn expr_text(e: ExprModel) -> Seq<char>
    decreases e,
{
    match e {
        ExprModel::Empty => "Empty"@,
        ExprModel::Immediate(v) => int_text(v as int),
        ExprModel::Abstract(s) => s,
        ExprModel::Register(r) => "("@ + rv_debug(*r) + ")"@,
        ExprModel::Expression(o, a, b) => "("@ + expr_text(*a) + " "@ + o + " "@ + expr_text(*b)
            + ")"@,
    }
}

fn push_lit(out: &mut Vec<char>, s: &str)
    ensures
        final(out)@ == old(out)@ + s@,
{
    push_str(out, s);
}

fn hex_digit_exec(n: u32) -> (c: char)
    requires
        n < 16,
    ensures
        c == hex_digit(n as int),
{
    if n < 10 {
        char_from_u32_small(n + 48)
    } else {
        char_from_u32_small(n + 87)
    }
}

fn char_from_u32_small(n: u32) -> (c: char)
    requires
        48 <= n < 128,
    ensures
        c as int == n,
{
    let ghost nn = n;
    let mut v: u8 = 48;
    let mut c: char = '0';
    while (c as u32) < n
        invariant
            48 <= c as int <= n < 128,
        decreases n - c as u32,
    {
        c = next_ascii(c);
    }
    c
}

fn next_ascii(c: char) -> (r: char)
    requires
        (c as int) < 127,
    ensures
        r as int == c as int + 1,
{
    let n = c as u8 + 1;
    n as char
}

fn push_char_escape(out: &mut Vec<char>, c: char)
    ensures
        final(out)@ == old(out)@ + char_escape(c),
{
    if c == '\t' {
        push_lit(out, "\\t");
    } else if c == '\r' {
        push_lit(out, "\\r");
    } else if c == '\n' {
        push_lit(out, "\\n");
    } else if c == '\\' {
        push_lit(out, "\\\\");
    } else if c == '"' {
        push_lit(out, "\\\"");
    } else if c == '\0' {
        push_lit(out, "\\0");
    } else if (c as u32) < 0x20 || (c as u32) == 0x7f {
        let n = c as u32;
        push_lit(out, "\\u{");
        if n < 16 {
            out.push(hex_digit_exec(n));
        } else {
            out.push(hex_digit_exec(n / 16));
            out.push(hex_digit_exec(n % 16));
        }
        push_lit(out, "}");
        assert(final(out)@ =~= old(out)@ + char_escape(c));
    } else {
        out.push(c);
    }
}

/// Appends the `Debug` rendering of a string.
pub fn push_str_debug(out: &mut Vec<char>, s: &String)
    ensures
        final(out)@ == old(out)@ + str_debug(s@),
{
    let v = chars_of(s.as_str());
    let ghost o = out@;
    out.push('"');
    assert(v@.take(0) =~= Seq::<char>::empty());
    assert(out@ =~= o + seq!['"'] + escape_text(v@.take(0)));
    let mut i: usize = 0;
    while i < v.len()
        invariant
            i <= v.len(),
            v@ == s@,
            out@ == o + seq!['"'] + escape_text(v@.take(i as int)),
        decreases v.len() - i,
    {
        push_char_escape(out, v[i]);
        proof {
            assert(v@.take(i + 1).drop_last() =~= v@.take(i as int));
        }
        i = i + 1;
        assert(out@ =~= o + seq!['"'] + escape_text(v@.take(i as int)));
    }
    out.push('"');
    assert(v@.take(i as int) =~= v@);
    assert(out@ =~= o + str_debug(s@));
}

fn push_kind_text(out: &mut Vec<char>, k: RegisterKind)
    ensures
        final(out)@ == old(out)@ + kind_text(k),
{
    match k {
        RegisterKind::RegisterBase => push_lit(out, "RegisterBase"),
        RegisterKind::Number => push_lit(out, "Number"),
        RegisterKind::Immediate => push_lit(out, "Immediate"),
    }
}

/// Appends the `Debug` rendering of an expression.
pub fn push_expr_debug(out: &mut Vec<char>, e: &AbstractExpression)
    ensures
        final(out)@ == old(out)@ + expr_debug(e@),
    decreases e,
{
    let ghost o = out@;
    match e {
        AbstractExpression::Empty => push_lit(out, "Empty"),
        AbstractExpression::Immediate(v) => {
            push_lit(out, "Immediate(");
            push_int_text(out, *v as i128);
            push_lit(out, ")");
        },
        AbstractExpression::Abstract(s) => {
            push_lit(out, "Abstract(");
            push_str_debug(out, s);
            push_lit(out, ")");
        },
        AbstractExpression::Register(r) => {
            push_lit(out, "Register(");
            push_rv_debug(out, &**r);
            push_lit(out, ")");
        },
        AbstractExpression::Expression(op, a, b) => {
            push_lit(out, "Expression(");
            push_str_debug(out, op);
            push_lit(out, ", ");
            push_expr_debug(out, &**a);
            push_lit(out, ", ");
            push_expr_debug(out, &**b);
            push_lit(out, ")");
        },
    }
    assert(out@ =~= o + expr_debug(e@));
}

/// Appends the `Debug` rendering of a register value.
pub fn push_rv_debug(out: &mut Vec<char>, r: &RegisterValue)
    ensures
        final(out)@ == old(out)@ + rv_debug(r@),
    decreases r,
{
    let ghost o = out@;
    push_lit(out, "RegisterValue { kind: ");
    push_kind_text(out, r.kind);
    push_lit(out, ", base: ");
    match &r.base {
        Some(b) => {
            push_lit(out, "Some(");
            push_expr_debug(out, b);
            push_lit(out, ")");
        },
        None => push_lit(out, "None"),
    }
    push_lit(out, ", offset: ");
    push_int_text(out, r.offset as i128);
    push_lit(out, ", known_mask: ");
    push_int_text(out, r.known_mask as i128);
    push_lit(out, ", known_value: ");
    push_int_text(out, r.known_value as i128);
    push_lit(out, " }");
    assert(out@ =~= o + rv_debug(r@));
}

/// Appends the `Display` rendering of an expression.
pub fn push_expr_text(out: &mut Vec<char>, e: &AbstractExpression)
    ensures
        final(out)@ == old(out)@ + expr_text(e@),
    decreases e,
{
    let ghost o = out@;
    match e {
        AbstractExpression::Empty => push_lit(out, "Empty"),
        AbstractExpression::Immediate(v) => push_int_text(out, *v as i128),
        AbstractExpression::Abstract(s) => push_str(out, s.as_str()),
        AbstractExpression::Register(r) => {
            push_lit(out, "(");
            push_rv_debug(out, &**r);
            push_lit(out, ")");
        },
        AbstractExpression::Expression(op, a, b) => {
            push_lit(out, "(");
            push_expr_text(out, &**a);
            push_lit(out, " ");
            push_str(out, op.as_str());
            push_lit(out, " ");
            push_expr_text(out, &**b);
            push_lit(out, ")");
        },
    }
    assert(out@ =~= o + expr_text(e@));
}

impl AbstractExpression {
    /// The text `Display` would print: `(a op b)`, names, numbers.
    pub fn to_display_string(&self) -> (r: String)
        ensures
            r@ == expr_text(self@),
    {
        let mut out: Vec<char> = Vec::new();
        push_expr_text(&mut out, self);
        assert(out@ =~= expr_text(self@));
        string_from_chars(out.as_slice())
    }
}

/// Whether the string `s` reads exactly `lit`.
pub fn str_is(s: &String, lit: &str) -> (r: bool)
    ensures
        r == (s@ == lit@),
{
    let l = String::from_str(lit);
    s.eq(&l)
}

/// Mathematical model of an `AbstractComparison`.
pub struct CmpModel {
    pub op: Seq<char>,
    pub left: ExprModel,
    pub right: ExprModel,
}

/// A relational constraint `left op right`.
#[derive(Debug)]
pub struct AbstractComparison {
    pub op: String,
    pub left: Box<AbstractExpression>,
    pub right: Box<AbstractExpression>,
}

impl AbstractComparison {
    pub open spec fn view(&self) -> CmpModel {
        CmpModel { op: self.op@, left: self.left@, right: self.right@ }
    }
}

pub fn copy_comparison(c: &AbstractComparison) -> (r: AbstractComparison)
    ensures
        r@ == c@,
{
    AbstractComparison {
        op: c.op.clone(),
        left: Box::new(clone_expr(&*c.left)),
        right: Box::new(clone_expr(&*c.right)),
    }
}

pub fn comparisons_equal(a: &AbstractComparison, b: &AbstractComparison) -> (r: bool)
    ensures
        r == (a@ == b@),
{
    let r = a.op.eq(&b.op) && expr_eq(&*a.left, &*b.left) && expr_eq(&*a.right, &*b.right);
    proof {
        if !r {
            if a.op@ != b.op@ {
                assert(a@.op != b@.op);
            } else if a.left@ != b.left@ {
                assert(a@.left != b@.left);
            } else {
                assert(a@.right != b@.right);
            }
        }
    }
    r
}

impl Clone for AbstractComparison {
    fn clone(&self) -> (r: Self)
        ensures
            r@ == self@,
    {
        copy_comparison(self)
    }
}

impl PartialEq for AbstractComparison {
    fn eq(&self, other: &Self) -> (r: bool) {
        comparisons_equal(self, other)
    }
}

impl vstd::std_specs::cmp::PartialEqSpecImpl for AbstractComparison {
    open spec fn obeys_eq_spec() -> bool {
        true
    }

    open spec fn eq_spec(&self, other: &Self) -> bool {
        self@ == other@
    }
}

/// Builds the comparison `a op b`.
pub fn generate_comparison(op: &str, a: AbstractExpression, b: AbstractExpression) -> (r:
    AbstractComparison)
    ensures
        r@ == (CmpModel { op: op@, left: a@, right: b@ }),
{
    AbstractComparison { op: String::from_str(op), left: Box::new(a), right: Box::new(b) }
}

/// The relational operators a comparison can negate.
pub open spec fn negatable_op(op: Seq<char>) -> bool {
    op == "<"@ || op == ">"@ || op == ">="@ || op == "<="@ || op == "=="@ || op == "!="@
}

/// The operator of the negated comparison.
pub open spec fn negated_op(op: Seq<char>) -> Seq<char> {
    if op == "<"@ {
        ">="@
    } else if op == ">"@ {
        "<="@
    } else if op == ">="@ {
        "<"@
    } else if op == "<="@ {
        ">"@
    } else if op == "=="@ {
        "!="@
    } else {
        "=="@
    }
}

/// Names of the abstract values a comparison mentions, left side first.
pub open spec fn comparison_abstracts(c: CmpModel) -> Seq<Seq<char>> {
    abstracts_of(c.left) + abstracts_of(c.right)
}

impl AbstractComparison {
    pub fn new(op: &str, left: AbstractExpression, right: AbstractExpression) -> (r: Self)
        ensures
            r@ == (CmpModel { op: op@, left: left@, right: right@ }),
    {
        AbstractComparison { op: String::from_str(op), left: Box::new(left), right: Box::new(right) }
    }

    /// The comparison with the opposite relational operator.
    pub fn not(&self) -> (r: Self)
        requires
            negatable_op(self.op@),
        ensures
            r@ == (CmpModel { op: negated_op(self.op@), left: self.left@, right: self.right@ }),
    {
        let left = clone_expr(&*self.left);
        let right = clone_expr(&*self.right);
        if str_is(&self.op, "<") {
            Self::new(">=", left, right)
        } else if str_is(&self.op, ">") {
            Self::new("<=", left, right)
        } else if str_is(&self.op, ">=") {
            Self::new("<", left, right)
        } else if str_is(&self.op, "<=") {
            Self::new(">", left, right)
        } else if str_is(&self.op, "==") {
            Self::new("!=", left, right)
        } else {
            Self::new("==", left, right)
        }
    }

    pub fn get_abstracts(&self) -> (r: Vec<String>)
        ensures
            strings_view(r@) == comparison_abstracts(self@),
    {
        let mut abstracts: Vec<String> = Vec::new();
        let l = self.left.get_abstracts();
        append_strings(&mut abstracts, &l);
        let r = self.right.get_abstracts();
        append_strings(&mut abstracts, &r);
        assert(strings_view(abstracts@) =~= comparison_abstracts(self@));
        abstracts
    }

    pub fn contains(&self, token: &str) -> (r: bool)
        ensures
            r == (expr_contains(self.left@, token@) || expr_contains(self.right@, token@)),
    {
        self.left.contains(token) || self.right.contains(token)
    }

    /// The text `Display` would print: `(op left right)`.
    pub fn to_display_string(&self) -> (r: String)
        ensures
            r@ == seq!['('] + self.op@ + seq![' '] + expr_text(self.left@) + seq![' ']
                + expr_text(self.right@) + seq![')'],
    {
        let mut out: Vec<char> = Vec::new();
        out.push('(');
        push_str(&mut out, self.op.as_str());
        out.push(' ');
        push_expr_text(&mut out, &*self.left);
        out.push(' ');
        push_expr_text(&mut out, &*self.right);
        out.push(')');
        string_from_chars(out.as_slice())
    }
}

/// Kind of access a memory region allows.
#[derive(Debug, Clone, Copy, PartialEq, Eq, Structural)]
pub enum RegionType {
    READ,
    WRITE,
    RW,
}

impl RegionType {
    /// The text `Display` would print.
    pub fn display_name(&self) -> (r: String)
        ensures
            r@ == match *self {
                RegionType::READ => "Read"@,
                RegionType::WRITE => "Write"@,
                RegionType::RW => "Read and Write"@,
            },
    {
        match self {
            RegionType::READ => String::from_str("Read"),
            RegionType::WRITE => String::from_str("Write"),
            RegionType::RW => String::from_str("Read and Write"),
        }
    }
}

/// Model of a `MemoryAccess`.
pub struct AccessModel {
    pub kind: RegionType,
    pub base: Seq<char>,
    pub offset: i64,
}

/// A recorded memory access: region kind, base name and offset.
#[derive(Debug)]
pub struct MemoryAccess {
    pub kind: RegionType,
    pub base: String,
    pub offset: i64,
}

impl MemoryAccess {
    pub open spec fn view(&self) -> AccessModel {
        AccessModel { kind: self.kind, base: self.base@, offset: self.offset }
    }
}

impl Clone for MemoryAccess {
    fn clone(&self) -> (r: Self)
        ensures
            r@ == self@,
    {
        MemoryAccess { kind: self.kind, base: self.base.clone(), offset: self.offset }
    }
}

impl PartialEq for MemoryAccess {
    fn eq(&self, other: &Self) -> (r: bool) {
        let r = self.kind == other.kind && self.base.eq(&other.base) && self.offset == other.offset;
        proof {
            if !r && self.kind == other.kind && self.offset == other.offset {
                assert(self@.base != other@.base);
            }
        }
        r
    }
}

impl vstd::std_specs::cmp::PartialEqSpecImpl for MemoryAccess {
    open spec fn obeys_eq_spec() -> bool {
        true
    }

    open spec fn eq_spec(&self, other: &Self) -> bool {
        self@ == other@
    }
}

/// Model of a `FlagValue`.
pub enum FlagModel {
    Abstract(CmpModel),
    Real(bool),
}

/// A condition flag: either a known boolean or a symbolic comparison.
#[derive(Debug)]
pub enum FlagValue {
    Abstract(AbstractComparison),
    Real(bool),
}

impl FlagValue {
    pub open spec fn view(&self) -> FlagModel {
        match self {
            FlagValue::Abstract(a) => FlagModel::Abstract(a@),
            FlagValue::Real(b) => FlagModel::Real(*b),
        }
    }

    /// The flag as a comparison; known flags become `Empty == Empty` or `Empty != Empty`.
    pub fn to_abstract_expression(&self) -> (r: AbstractComparison)
        ensures
            r@ == match self@ {
                FlagModel::Abstract(a) => a,
                FlagModel::Real(true) => CmpModel {
                    op: "=="@,
                    left: ExprModel::Empty,
                    right: ExprModel::Empty,
                },
                FlagModel::Real(false) => CmpModel {
                    op: "!="@,
                    left: ExprModel::Empty,
                    right: ExprModel::Empty,
                },
            },
    {
        match self {
            FlagValue::Abstract(a) => copy_comparison(a),
            FlagValue::Real(r) => {
                if *r {
                    generate_comparison("==", AbstractExpression::Empty, AbstractExpression::Empty)
                } else {
                    generate_comparison("!=", AbstractExpression::Empty, AbstractExpression::Empty)
                }
            },
        }
    }

    /// The negated flag.
    pub fn not(&self) -> (r: Self)
        requires
            self@ matches FlagModel::Abstract(a) ==> negatable_op(a.op),
        ensures
            r@ == match self@ {
                FlagModel::Abstract(a) => FlagModel::Abstract(
                    CmpModel { op: negated_op(a.op), left: a.left, right: a.right },
                ),
                FlagModel::Real(b) => FlagModel::Real(!b),
            },
    {
        match self {
            FlagValue::Abstract(a) => FlagValue::Abstract(a.not()),
            FlagValue::Real(r) => FlagValue::Real(!*r),
        }
    }
}

impl Clone for FlagValue {
    fn clone(&self) -> (r: Self)
        ensures
            r@ == self@,
    {
        match self {
            FlagValue::Abstract(a) => FlagValue::Abstract(copy_comparison(a)),
            FlagValue::Real(b) => FlagValue::Real(*b),
        }
    }
}

impl PartialEq for FlagValue {
    fn eq(&self, other: &Self) -> (r: bool) {
        match (self, other) {
            (FlagValue::Abstract(a), FlagValue::Abstract(b)) => comparisons_equal(a, b),
            (FlagValue::Real(a), FlagValue::Real(b)) => *a == *b,
            _ => false,
        }
    }
}

impl vstd::std_specs::cmp::PartialEqSpecImpl for FlagValue {
    open spec fn obeys_eq_spec() -> bool {
        true
    }

    open spec fn eq_spec(&self, other: &Self) -> bool {
        self@ == other@
    }
}

/// An error raised by the memory-safety check.
#[derive(Debug)]
pub struct MemorySafetyError {
    details: String,
}

impl MemorySafetyError {
    pub closed spec fn message_view(&self) -> Seq<char> {
        self.details@
    }

    pub fn new(msg: &str) -> (r: MemorySafetyError)
        ensures
            r.message_view() == msg@,
    {
        MemorySafetyError { details: String::from_str(msg) }
    }

    pub fn from_chars(msg: &Vec<char>) -> (r: MemorySafetyError)
        ensures
            r.message_view() == msg@,
    {
        MemorySafetyError { details: string_from_chars(msg.as_slice()) }
    }

    /// The text `Display` would print.
    pub fn message(&self) -> (r: String)
        ensures
            r@ == self.message_view(),
    {
        self.details.clone()
    }
}

impl Clone for MemorySafetyError {
    fn clone(&self) -> (r: Self)
        ensures
            r.message_view() == self.message_view(),
    {
        MemorySafetyError { details: self.details.clone() }
    }
}

/// What `get_register_name_string` returns: the text before the first `,`,
/// with `[` stripped from both ends.
pub open spec fn register_name_of(r: Seq<char>) -> Seq<char> {
    trim_char(split_char(r, ',')[0], '[')
}

/// The register name at the head of an operand list such as `[x0, #8]`.
pub fn get_register_name_string(r: String) -> (n: String)
    ensures
        n@ == register_name_of(r@),
{
    let v = chars_of(r.as_str());
    let end = match find_char_range(&v, 0, v.len(), ',') {
        Some(i) => i,
        None => v.len(),
    };
    proof {
        lemma_find_char(v@, ',');
        assert(v@.subrange(0, v.len() as int) =~= v@);
        assert(v@.take(end as int) =~= v@.subrange(0, end as int));
    }
    let (a, b) = trim_char_range(&v, 0, end, '[');
    string_of_range(&v, a, b)
}

impl Modeled for RegisterValue {
    type M = RegModel;

    open spec fn model(&self) -> RegModel {
        self@
    }

    fn dup(&self) -> (r: Self) {
        clone_rv(self)
    }
}

/// Model of a `MemorySafeRegion`: its kind, declared length and per-byte contents.
pub struct RegionModel {
    pub kind: RegionType,
    pub length: ExprModel,
    pub content: Map<i64, RegModel>,
}

/// A memory region: its access kind, its length in bytes and a per-byte map
/// from offsets to the values stored there.
#[derive(Debug)]
pub struct MemorySafeRegion {
    pub kind: RegionType,
    length: AbstractExpression,
    pub content: HashMap<i64, RegisterValue>,
}

/// The value of a byte nobody wrote: an unknown number.
pub open spec fn unknown_byte() -> RegModel {
    rv_new_model(RegisterKind::Number, None, 0)
}

pub open spec fn content_model(m: Map<i64, RegisterValue>) -> Map<i64, RegModel> {
    m.map_values(|v: RegisterValue| v@)
}

/// Contents of a fresh region of the given length: every byte in range unknown.
pub open spec fn fresh_content(length: ExprModel) -> Map<i64, RegModel> {
    match length {
        ExprModel::Immediate(l) => Map::new(|i: i64| 0 <= i < l, |i: i64| unknown_byte()),
        _ => Map::empty(),
    }
}

/// What `get_length` reports: the number of stored bytes for a concrete
/// length, the declared length otherwise.
pub open spec fn region_length(r: RegionModel) -> ExprModel {
    match r.length {
        ExprModel::Immediate(_) => ExprModel::Immediate(r.content.len() as i64),
        _ => r.length,
    }
}

impl MemorySafeRegion {
    pub closed spec fn view(&self) -> RegionModel {
        RegionModel {
            kind: self.kind,
            length: self.length@,
            content: content_model(self.content@),
        }
    }

    /// A region of `length` bytes; a concrete length gets one unknown entry per byte.
    pub fn new(length: AbstractExpression, kind: RegionType) -> (r: Self)
        ensures
            r@.kind == kind,
            r@.length == length@,
            r@.content == fresh_content(length@),
    {
        let mut content: HashMap<i64, RegisterValue> = HashMap::new();
        if let AbstractExpression::Immediate(l) = length {
            let mut i: i64 = 0;
            while i < l
                invariant
                    0 <= i,
                    i <= l || l < 0,
                    l < 0 ==> i == 0,
                    forall|k: i64| #[trigger] content@.contains_key(k) <==> 0 <= k < i,
                    forall|k: i64| #[trigger] content@.contains_key(k) ==> content@[k]@ == unknown_byte(),
                decreases l - i,
            {
                content.insert(i, RegisterValue::new(RegisterKind::Number, None, 0));
                i = i + 1;
            }
            assert forall|k: i64| #[trigger] content_model(content@).contains_key(k) == fresh_content(length@).contains_key(k) by {}
            assert(content_model(content@) =~= fresh_content(length@));
        } else {
            assert(content_model(content@) =~= fresh_content(length@));
        }
        MemorySafeRegion { kind, length, content }
    }

    /// Stores `value` at byte `address`.
    pub fn insert(&mut self, address: i64, value: RegisterValue)
        ensures
            final(self)@ == (RegionModel {
                content: old(self)@.content.insert(address, value@),
                ..old(self)@
            }),
    {
        let ghost v = value@;
        self.content.insert(address, value);
        assert(content_model(self.content@) =~= old(self)@.content.insert(address, v));
    }

    /// The value at byte `address`; a byte nobody wrote reads as an unknown number.
    pub fn get(&self, address: i64) -> (r: Option<RegisterValue>)
        ensures
            r matches Some(v) && v@ == (if self@.content.contains_key(address) {
                self@.content[address]
            } else {
                unknown_byte()
            }),
    {
        match self.content.get(&address) {
            Some(v) => Some(clone_rv(v)),
            None => Some(RegisterValue::new(RegisterKind::Number, None, 0)),
        }
    }

    /// The access kind of the region.
    pub fn get_kind(&self) -> (r: RegionType)
        ensures
            r == self@.kind,
    {
        self.kind
    }

    /// The length in bytes: the number of stored bytes when the length is concrete.
    pub fn get_length(&self) -> (r: AbstractExpression)
        ensures
            r@ == region_length(self@),
    {
        match &self.length {
            AbstractExpression::Immediate(_) => {
                assert(content_model(self.content@).dom() =~= self.content@.dom());
                AbstractExpression::Immediate(self.content.len() as i64)
            },
            _ => clone_expr(&self.length),
        }
    }
}

impl Modeled for MemorySafeRegion {
    type M = RegionModel;

    open spec fn model(&self) -> RegionModel {
        self@
    }

    fn dup(&self) -> (r: Self) {
        let content = self.content.clone();
        MemorySafeRegion { kind: self.kind, length: clone_expr(&self.length), content }
    }
}

impl Clone for MemorySafeRegion {
    fn clone(&self) -> (r: Self)
        ensures
            r@ == self@,
    {
        self.dup()
    }
}

/// A machine whose registers can be read by name.
pub trait RegisterProvider {
    /// The model of the value a read of register `name` gives.
    spec fn register_model(&self, name: Seq<char>) -> RegModel;

    fn get_register_value(&self, name: &str) -> (r: RegisterValue)
        ensures
            r@ == self.register_model(name@),
    ;
}

/// The integer an expression reduces to, if it does: immediates, known labels,
/// registers holding immediates, and `+ - *` of those.
pub open spec fn resolve(e: ExprModel, labels: Map<Seq<char>, i64>, regs: spec_fn(Seq<char>) -> RegModel) -> Option<int>
    decreases e,
{
    match e {
        ExprModel::Immediate(n) => Some(n as int),
        ExprModel::Abstract(name) => if labels.contains_key(name) {
            Some(labels[name] as int)
        } else if regs(name).kind == RegisterKind::Immediate {
            Some(regs(name).offset as int)
        } else {
            None
        },
        ExprModel::Expression(op, a, b) => match (resolve(*a, labels, regs), resolve(*b, labels, regs)) {
            (Some(x), Some(y)) => if op == "+"@ {
                Some(x + y)
            } else if op == "-"@ {
                Some(x - y)
            } else if op == "*"@ {
                Some(x * y)
            } else {
                None
            },
            _ => None,
        },
        _ => None,
    }
}

/// Every intermediate result of `resolve` fits in an `i64`.
pub open spec fn resolve_fits(e: ExprModel, labels: Map<Seq<char>, i64>, regs: spec_fn(Seq<char>) -> RegModel) -> bool
    decreases e,
{
    match e {
        ExprModel::Expression(op, a, b) => resolve_fits(*a, labels, regs) && resolve_fits(*b, labels, regs)
            && match resolve(e, labels, regs) {
            Some(v) => fits_i64(v),
            None => true,
        },
        _ => true,
    }
}

/// The registers a provider reads, as a function of names.
pub open spec fn provider_regs<P: RegisterProvider>(comp: P) -> spec_fn(Seq<char>) -> RegModel {
    |n: Seq<char>| comp.register_model(n)
}

/// Reduces `expr` to a concrete number using known labels and register immediates.
pub fn try_resolve_expr<P: RegisterProvider>(expr: &AbstractExpression, labels: &StrMap<i64>, comp: &P) -> (r: Option<i64>)
    requires
        resolve_fits(expr@, labels@, provider_regs(*comp)),
    ensures
        r matches Some(v) ==> resolve(expr@, labels@, provider_regs(*comp)) == Some(v as int),
        r is None ==> resolve(expr@, labels@, provider_regs(*comp)) is None,
    decreases expr,
{
    match expr {
        AbstractExpression::Immediate(n) => Some(*n),
        AbstractExpression::Abstract(name) => {
            if let Some(v) = labels.get(name.as_str()) {
                return Some(*v);
            }
            let rv = comp.get_register_value(name.as_str());
            if rv.kind == RegisterKind::Immediate {
                return Some(rv.offset);
            }
            None
        },
        AbstractExpression::Expression(op, a, b) => {
            let ra = try_resolve_expr(&**a, labels, comp);
            let rb = try_resolve_expr(&**b, labels, comp);
            if let (Some(x), Some(y)) = (ra, rb) {
                if str_is(op, "+") {
                    return Some(x + y);
                } else if str_is(op, "-") {
                    return Some(x - y);
                } else if str_is(op, "*") {
                    return Some(x * y);
                } else {
                    return None;
                }
            }
            None
        },
        _ => None,
    }
}

/// Whether resolving `expr` stays within `i64`, and its value when it does.
pub fn resolve_checked<P: RegisterProvider>(expr: &AbstractExpression, labels: &StrMap<i64>, comp: &P) -> (r: (bool, Option<i64>))
    ensures
        r.0 == resolve_fits(expr@, labels@, provider_regs(*comp)),
        r.0 ==> match r.1 {
            Some(v) => resolve(expr@, labels@, provider_regs(*comp)) == Some(v as int),
            None => resolve(expr@, labels@, provider_regs(*comp)) is None,
        },
    decreases expr,
{
    match expr {
        AbstractExpression::Immediate(n) => (true, Some(*n)),
        AbstractExpression::Abstract(name) => {
            if let Some(v) = labels.get(name.as_str()) {
                return (true, Some(*v));
            }
            let rv = comp.get_register_value(name.as_str());
            if rv.kind == RegisterKind::Immediate {
                return (true, Some(rv.offset));
            }
            (true, None)
        },
        AbstractExpression::Expression(op, a, b) => {
            let (fa, va) = resolve_checked(&**a, labels, comp);
            let (fb, vb) = resolve_checked(&**b, labels, comp);
            if !fa || !fb {
                return (false, None);
            }
            match (va, vb) {
                (Some(x), Some(y)) => {
                    let z = if str_is(op, "+") {
                        x.checked_add(y)
                    } else if str_is(op, "-") {
                        x.checked_sub(y)
                    } else if str_is(op, "*") {
                        x.checked_mul(y)
                    } else {
                        return (true, None);
                    };
                    match z {
                        Some(z) => (true, Some(z)),
                        None => (false, None),
                    }
                },
                _ => (true, None),
            }
        },
        _ => (true, None),
    }
}

} // verus!
