//! The x86-64 instruction line parser: an opcode followed by comma separated
//! operands (registers, immediates, memory references, labels).
use vstd::prelude::*;
use crate::text::{
    all_digits, chars_of, ends_with, ends_with_range, find_char, find_char_range, fits_i64,
    is_ws, is_ws_exec, parse_int, parse_int_range, rfind_char, rfind_char_range, split_char,
    split_char_range, starts_with, starts_with_range, string_from_chars, string_of_range, sub_vec,
    trim, trim_char, trim_char_range, trim_range, trim_start_char, trim_start_char_range,
    digit_of,
};

verus! {

/// Whether `char::is_numeric` holds: the Unicode general categories Nd, Nl, No.
pub uninterp spec fn unicode_numeric(c: char) -> bool;

/// Whether `char::is_alphabetic` holds: the Unicode `Alphabetic` property.
pub uninterp spec fn unicode_alphabetic(c: char) -> bool;

pub open spec fn ascii_digit(c: char) -> bool {
    '0' <= c && c <= '9'
}

pub open spec fn ascii_letter(c: char) -> bool {
    ('a' <= c && c <= 'z') || ('A' <= c && c <= 'Z')
}

/// Calls `char::is_numeric`. The contract names the result and states its
/// ASCII part: among ASCII characters exactly the digits are numbers. Which
/// other characters are numbers (Unicode tables) is left unsaid.
#[verifier::external_body]
fn char_is_numeric(c: char) -> (r: bool)
    ensures
        r == unicode_numeric(c),
        (c as u32) < 128 ==> (r == ascii_digit(c)),
{
    c.is_numeric()
}

/// Calls `char::is_alphabetic`. The contract names the result and states its
/// ASCII part: among ASCII characters exactly the letters are alphabetic.
#[verifier::external_body]
fn char_is_alphabetic(c: char) -> (r: bool)
    ensures
        r == unicode_alphabetic(c),
        (c as u32) < 128 ==> (r == ascii_letter(c)),
{
    c.is_alphabetic()
}

/// Calls `char::is_alphanumeric`, which std documents as alphabetic or
/// numeric; the contract says so, and states its ASCII part: among ASCII
/// characters exactly letters and digits qualify.
#[verifier::external_body]
fn char_is_alphanumeric(c: char) -> (r: bool)
    ensures
        r == (unicode_alphabetic(c) || unicode_numeric(c)),
        (c as u32) < 128 ==> (r == (ascii_letter(c) || ascii_digit(c))),
{
    c.is_alphanumeric()
}

/// Whether a character is numeric as `char::is_numeric` says: among ASCII
/// exactly the digits, beyond ASCII as the Unicode tables say.
pub open spec fn numeric_char(c: char) -> bool {
    if (c as u32) < 128 {
        ascii_digit(c)
    } else {
        unicode_numeric(c)
    }
}

/// Whether a character is alphabetic as `char::is_alphabetic` says: among
/// ASCII exactly the letters, beyond ASCII as the Unicode tables say.
pub open spec fn alphabetic_char(c: char) -> bool {
    if (c as u32) < 128 {
        ascii_letter(c)
    } else {
        unicode_alphabetic(c)
    }
}

/// Whether a character is alphanumeric as `char::is_alphanumeric` says:
/// alphabetic or numeric (among ASCII exactly the letters and digits).
pub open spec fn alphanumeric_char(c: char) -> bool {
    alphabetic_char(c) || numeric_char(c)
}

/// Model of an `X86Operand`.
pub enum OperandModel {
    Reg(Seq<char>),
    Imm(i64),
    Mem { base: Option<Seq<char>>, index: Option<Seq<char>>, scale: i64, disp: i64 },
    Label(Seq<char>),
    Other(Seq<char>),
}

/// An operand of an x86 instruction.
#[derive(Debug)]
pub enum X86Operand {
    Reg(String),
    Imm(i64),
    Mem { base: Option<String>, index: Option<String>, scale: i64, disp: i64 },
    Label(String),
    Other(String),
}

/// Model of an `X86Instruction`.
pub struct InstrModel {
    pub opcode: Seq<char>,
    pub operands: Seq<OperandModel>,
}

/// An x86 instruction: its opcode and operands.
#[derive(Debug)]
pub struct X86Instruction {
    pub opcode: String,
    pub operands: Vec<X86Operand>,
}

pub open spec fn opt_str_view(o: Option<String>) -> Option<Seq<char>> {
    match o {
        Some(s) => Some(s@),
        None => None,
    }
}

impl X86Operand {
    pub open spec fn view(&self) -> OperandModel {
        match self {
            X86Operand::Reg(s) => OperandModel::Reg(s@),
            X86Operand::Imm(v) => OperandModel::Imm(*v),
            X86Operand::Mem { base, index, scale, disp } => OperandModel::Mem {
                base: opt_str_view(*base),
                index: opt_str_view(*index),
                scale: *scale,
                disp: *disp,
            },
            X86Operand::Label(s) => OperandModel::Label(s@),
            X86Operand::Other(s) => OperandModel::Other(s@),
        }
    }
}

pub open spec fn operands_view(v: Seq<X86Operand>) -> Seq<OperandModel> {
    v.map_values(|o: X86Operand| o@)
}

impl X86Instruction {
    pub open spec fn view(&self) -> InstrModel {
        InstrModel { opcode: self.opcode@, operands: operands_view(self.operands@) }
    }
}

pub open spec fn opt_operand_view(o: Option<X86Operand>) -> Option<OperandModel> {
    match o {
        Some(x) => Some(x@),
        None => None,
    }
}

pub open spec fn opt_instr_view(o: Option<X86Instruction>) -> Option<InstrModel> {
    match o {
        Some(x) => Some(x@),
        None => None,
    }
}

fn clone_opt_string(o: &Option<String>) -> (r: Option<String>)
    ensures
        opt_str_view(r) == opt_str_view(*o),
{
    match o {
        Some(s) => Some(s.clone()),
        None => None,
    }
}

/// Exact copy of an operand.
pub fn clone_operand(o: &X86Operand) -> (r: X86Operand)
    ensures
        r@ == o@,
{
    match o {
        X86Operand::Reg(s) => X86Operand::Reg(s.clone()),
        X86Operand::Imm(v) => X86Operand::Imm(*v),
        X86Operand::Mem { base, index, scale, disp } => X86Operand::Mem {
            base: clone_opt_string(base),
            index: clone_opt_string(index),
            scale: *scale,
            disp: *disp,
        },
        X86Operand::Label(s) => X86Operand::Label(s.clone()),
        X86Operand::Other(s) => X86Operand::Other(s.clone()),
    }
}

/// Exact copy of an instruction.
pub fn clone_instruction(i: &X86Instruction) -> (r: X86Instruction)
    ensures
        r@ == i@,
{
    let mut ops: Vec<X86Operand> = Vec::new();
    let mut k: usize = 0;
    while k < i.operands.len()
        invariant
            k <= i.operands.len(),
            ops@.len() == k,
            operands_view(ops@) == operands_view(i.operands@).take(k as int),
        decreases i.operands.len() - k,
    {
        let c = clone_operand(&i.operands[k]);
        let ghost prev = ops@;
        ops.push(c);
        assert(ops@ == prev.push(c));
        assert(operands_view(ops@) =~= operands_view(prev).push(c@));
        k = k + 1;
        assert(operands_view(ops@) =~= operands_view(i.operands@).take(k as int));
    }
    assert(operands_view(i.operands@).take(k as int) =~= operands_view(i.operands@));
    X86Instruction { opcode: i.opcode.clone(), operands: ops }
}

impl Clone for X86Operand {
    fn clone(&self) -> (r: Self)
        ensures
            r@ == self@,
    {
        clone_operand(self)
    }
}

impl Clone for X86Instruction {
    fn clone(&self) -> (r: Self)
        ensures
            r@ == self@,
    {
        clone_instruction(self)
    }
}

/// Whether a token starts like a register name (`r`, `e`, `a` or `b`).
pub open spec fn starts_rab(p: Seq<char>) -> bool {
    p.len() > 0 && (p[0] == 'r' || p[0] == 'e' || p[0] == 'a' || p[0] == 'b')
}

/// A number written in hex after `0x`, or in decimal.
pub open spec fn hex_or_dec(p: Seq<char>) -> Option<int> {
    if starts_with(p, "0x"@) {
        parse_int(p.skip(2), 16)
    } else {
        parse_int(p, 10)
    }
}

/// What a memory reference has gathered so far.
pub struct MemState {
    pub base: Option<Seq<char>>,
    pub index: Option<Seq<char>>,
    pub scale: i64,
    pub disp: i64,
}

pub open spec fn mem_init() -> MemState {
    MemState { base: None, index: None, scale: 1, disp: 0 }
}

/// A register or symbol goes to the base, else to the index, else nowhere.
pub open spec fn place(st: MemState, t: Seq<char>) -> MemState {
    if st.base is None {
        MemState { base: Some(t), ..st }
    } else if st.index is None {
        MemState { index: Some(t), ..st }
    } else {
        st
    }
}

/// The scale after `*`: a number, or 1 when it does not parse.
pub open spec fn scale_of(sc: Seq<char>) -> i64 {
    match hex_or_dec(sc) {
        Some(v) => v as i64,
        None => 1,
    }
}

/// One `+`-separated term of a memory reference; `None` where the
/// displacement would overflow.
#[verifier::opaque]
pub open spec fn mem_step(st: MemState, raw: Seq<char>) -> Option<MemState> {
    let p = trim(raw);
    if p.len() == 0 {
        Some(st)
    } else if find_char(p, '*') is Some {
        let pieces = split_char(p, '*');
        let reg = trim(pieces[0]);
        let sc = if pieces.len() > 1 {
            trim(pieces[1])
        } else {
            "1"@
        };
        let ps = scale_of(sc);
        if starts_rab(reg) {
            if st.index is None {
                Some(MemState { index: Some(reg), scale: ps, ..st })
            } else if st.base is None {
                Some(MemState { base: Some(reg), ..st })
            } else {
                Some(st)
            }
        } else {
            match parse_int(reg, 10) {
                Some(v) => {
                    let d = st.disp + v * ps;
                    if fits_i64(v * ps) && fits_i64(d) {
                        Some(MemState { disp: d as i64, ..st })
                    } else {
                        None
                    }
                },
                None => Some(st),
            }
        }
    } else if ends_with(p, "ptr"@) {
        Some(st)
    } else if starts_with(p, "rip"@) || starts_with(p, "RIP"@) {
        Some(MemState { base: Some("rip"@), ..st })
    } else if starts_rab(p) {
        Some(place(st, p))
    } else if starts_with(p, "-"@) || numeric_char(p[0]) || starts_with(p, "0x"@) {
        match hex_or_dec(p) {
            Some(v) => if fits_i64(st.disp + v) {
                Some(MemState { disp: (st.disp + v) as i64, ..st })
            } else {
                None
            },
            None => Some(st),
        }
    } else {
        Some(place(st, p))
    }
}

/// All terms, left to right; `None` if one of them overflows.
pub open spec fn mem_fold(parts: Seq<Seq<char>>) -> Option<MemState>
    decreases parts.len(),
{
    if parts.len() == 0 {
        Some(mem_init())
    } else {
        match mem_fold(parts.drop_last()) {
            Some(st) => mem_step(st, parts.last()),
            None => None,
        }
    }
}

/// `s` with every `-` turned into `+-`, so that a split on `+` keeps signs.
pub open spec fn replace_minus(s: Seq<char>) -> Seq<char>
    decreases s.len(),
{
    if s.len() == 0 {
        Seq::empty()
    } else {
        replace_minus(s.drop_last()) + if s.last() == '-' {
            seq!['+', '-']
        } else {
            seq![s.last()]
        }
    }
}

/// The `+`-separated terms between the first `[` and the last `]`.
pub open spec fn mem_parts(s: Seq<char>) -> Seq<Seq<char>> {
    let l = find_char(s, '[')->0;
    let r = rfind_char(s, ']')->0;
    split_char(replace_minus(s.subrange(l + 1, r)), '+')
}

pub open spec fn has_brackets(s: Seq<char>) -> bool {
    find_char(s, '[') is Some && rfind_char(s, ']') is Some
}

pub open spec fn all_alphanumeric(s: Seq<char>) -> bool {
    forall|i: int| 0 <= i < s.len() ==> alphanumeric_char(#[trigger] s[i])
}

pub open spec fn all_alphabetic(s: Seq<char>) -> bool {
    forall|i: int| 0 <= i < s.len() ==> alphabetic_char(#[trigger] s[i])
}

/// Bytes of `c` in UTF-8.
pub open spec fn utf8_width(c: char) -> int {
    if (c as u32) < 0x80 {
        1
    } else if (c as u32) < 0x800 {
        2
    } else if (c as u32) < 0x10000 {
        3
    } else {
        4
    }
}

/// Bytes of `s` in UTF-8.
pub open spec fn utf8_len(s: Seq<char>) -> int
    decreases s.len(),
{
    if s.len() == 0 {
        0
    } else {
        utf8_len(s.drop_last()) + utf8_width(s.last())
    }
}

pub open spec fn is_e_register(t: Seq<char>) -> bool {
    t == "eax"@ || t == "ebx"@ || t == "ecx"@ || t == "edx"@ || t == "esi"@ || t == "edi"@ || t
        == "esp"@ || t == "ebp"@
}

pub open spec fn is_low_register(t: Seq<char>) -> bool {
    t == "al"@ || t == "ax"@ || t == "bl"@ || t == "bx"@ || t == "cl"@ || t == "cx"@ || t == "dl"@
        || t == "dx"@
}

/// Whether a token looks like an x86 register: `r` and digits, `r` and two
/// or three bytes of letters, an `e`-register, a vector register
/// (`xmm`/`ymm`/`zmm` and digits) or a low register.
pub open spec fn looks_like_register(tok: Seq<char>) -> bool {
    let t = trim(tok);
    let tail = t.drop_first();
    if t.len() > 0 && t[0] == 'r' && ((tail.len() > 0 && all_digits(tail, 10)) || (2 <= utf8_len(tail)
        <= 3 && all_alphabetic(tail))) {
        true
    } else if is_e_register(t) {
        true
    } else if starts_with(t, "xmm"@) || starts_with(t, "ymm"@) || starts_with(t, "zmm"@) {
        t.len() > 3 && all_digits(t.skip(3), 10)
    } else {
        is_low_register(t)
    }
}

/// Whether parsing `s` reaches the memory-reference branch: not empty, not a
/// hex or decimal immediate, and holding a `[` and a `]`.
pub open spec fn reaches_mem(s: Seq<char>) -> bool {
    &&& s.len() > 0
    &&& !(starts_with(s, "0x"@) && parse_int(trim_char(s.skip(2), ','), 16) is Some)
    &&& parse_int(trim_start_char(s, '#'), 10) is None
    &&& has_brackets(s)
}

/// The inputs on which parsing an operand runs without a fault: a `]`
/// standing before the first `[`, or a displacement overflowing `i64`,
/// aborts.
pub open spec fn operand_ok(s: Seq<char>) -> bool {
    reaches_mem(s) ==> (rfind_char(s, ']')->0 > find_char(s, '[')->0 && mem_fold(mem_parts(s)) is Some)
}

/// What parsing one operand gives; `None` for an empty one.
pub open spec fn operand_model(s: Seq<char>) -> Option<OperandModel> {
    if s.len() == 0 {
        None
    } else if starts_with(s, "0x"@) && parse_int(trim_char(s.skip(2), ','), 16) is Some {
        Some(OperandModel::Imm(parse_int(trim_char(s.skip(2), ','), 16)->0 as i64))
    } else if parse_int(trim_start_char(s, '#'), 10) is Some {
        Some(OperandModel::Imm(parse_int(trim_start_char(s, '#'), 10)->0 as i64))
    } else if has_brackets(s) {
        match mem_fold(mem_parts(s)) {
            Some(st) => Some(
                OperandModel::Mem { base: st.base, index: st.index, scale: st.scale, disp: st.disp },
            ),
            None => None,
        }
    } else if all_alphanumeric(s) {
        if looks_like_register(s) {
            Some(OperandModel::Reg(trim(s)))
        } else {
            Some(OperandModel::Label(trim(s)))
        }
    } else if starts_with(s, "."@) || starts_with(s, "_"@) || starts_with(s, "L_"@) {
        Some(OperandModel::Label(trim(s)))
    } else {
        Some(OperandModel::Other(s))
    }
}

/// The operands of a line: the parsed non-empty comma separated parts.
pub open spec fn collect_ops(parts: Seq<Seq<char>>) -> Seq<OperandModel>
    decreases parts.len(),
{
    if parts.len() == 0 {
        Seq::empty()
    } else {
        collect_ops(parts.drop_last()) + match operand_model(trim(parts.last())) {
            Some(o) => seq![o],
            None => Seq::empty(),
        }
    }
}

/// Index of the first whitespace character.
pub open spec fn first_ws(s: Seq<char>) -> Option<int>
    decreases s.len(),
{
    if s.len() == 0 {
        None
    } else if is_ws(s[0]) {
        Some(0)
    } else {
        match first_ws(s.drop_first()) {
            Some(i) => Some(i + 1),
            None => None,
        }
    }
}

/// A line the parser skips: blank, a directive (`.`) or a label (`:`).
pub open spec fn line_skipped(s: Seq<char>) -> bool {
    s.len() == 0 || starts_with(s, "."@) || ends_with(s, ":"@)
}

/// The mnemonic: the trimmed line up to its first whitespace.
pub open spec fn line_opcode(s: Seq<char>) -> Seq<char> {
    match first_ws(s) {
        Some(k) => s.take(k),
        None => s,
    }
}

/// The operand text: what follows the first whitespace.
pub open spec fn line_rest(s: Seq<char>) -> Seq<char> {
    match first_ws(s) {
        Some(k) => s.skip(k + 1),
        None => Seq::empty(),
    }
}

/// The comma separated operand parts of a trimmed line.
pub open spec fn line_parts(s: Seq<char>) -> Seq<Seq<char>> {
    split_char(line_rest(s), ',')
}

/// The lines `parse_x86_line` accepts without a fault.
pub open spec fn line_ok(line: Seq<char>) -> bool {
    let s = trim(line);
    line_skipped(s) || forall|i: int| 0 <= i < line_parts(s).len() ==> operand_ok(trim(#[trigger] line_parts(s)[i]))
}

/// What `parse_x86_line` gives.
pub open spec fn line_model(line: Seq<char>) -> Option<InstrModel> {
    let s = trim(line);
    if line_skipped(s) {
        None
    } else {
        Some(InstrModel { opcode: line_opcode(s), operands: collect_ops(line_parts(s)) })
    }
}

pub proof fn lemma_first_ws_at(s: Seq<char>, k: int)
    requires
        0 <= k <= s.len(),
        forall|i: int| 0 <= i < k ==> !is_ws(#[trigger] s[i]),
        k < s.len() ==> is_ws(s[k]),
    ensures
        first_ws(s) == if k < s.len() {
            Some(k)
        } else {
            None::<int>
        },
    decreases s.len(),
{
    if s.len() > 0 && k > 0 {
        assert(!is_ws(s[0]));
        assert forall|i: int| 0 <= i < k - 1 implies !is_ws(#[trigger] s.drop_first()[i]) by {
            assert(s.drop_first()[i] == s[i + 1]);
        }
        if k < s.len() {
            assert(s.drop_first()[k - 1] == s[k]);
        }
        lemma_first_ws_at(s.drop_first(), k - 1);
    }
}

proof fn lemma_mem_fold_prefix(parts: Seq<Seq<char>>, k: int)
    requires
        0 <= k <= parts.len(),
        mem_fold(parts) is Some,
    ensures
        mem_fold(parts.take(k)) is Some,
    decreases parts.len(),
{
    if k < parts.len() {
        assert(parts.drop_last().take(k) =~= parts.take(k));
        lemma_mem_fold_prefix(parts.drop_last(), k);
    } else {
        assert(parts.take(k) =~= parts);
    }
}

proof fn lemma_mem_fold_next(parts: Seq<Seq<char>>, k: int, st: MemState, st2: MemState)
    requires
        0 <= k < parts.len(),
        mem_fold(parts.take(k)) == Some(st),
        mem_step(st, parts[k]) == Some(st2),
    ensures
        mem_fold(parts.take(k + 1)) == Some(st2),
{
    assert(parts.take(k + 1).drop_last() =~= parts.take(k));
    assert(parts.take(k + 1).last() == parts[k]);
}

proof fn lemma_mem_fold_stops(parts: Seq<Seq<char>>, k: int, st: MemState)
    requires
        0 <= k < parts.len(),
        mem_fold(parts.take(k)) == Some(st),
        mem_step(st, parts[k]) is None,
    ensures
        mem_fold(parts) is None,
{
    assert(parts.take(k + 1).drop_last() =~= parts.take(k));
    assert(parts.take(k + 1).last() == parts[k]);
    assert(mem_fold(parts.take(k + 1)) is None);
    if mem_fold(parts) is Some {
        lemma_mem_fold_prefix(parts, k + 1);
    }
}

proof fn lemma_split_char_len(s: Seq<char>, c: char)
    ensures
        split_char(s, c).len() >= 1,
        find_char(s, c) is Some ==> split_char(s, c).len() >= 2,
{
    crate::text::lemma_find_char(s, c);
    match find_char(s, c) {
        Some(i) => {
            let t = s.skip(i + 1);
            crate::text::lemma_find_char(t, c);
            assert(split_char(t, c).len() >= 1);
        },
        None => {},
    }
}

/// The executable counterpart of `MemState`.
struct MemAcc {
    base: Option<String>,
    index: Option<String>,
    scale: i64,
    disp: i64,
}

impl MemAcc {
    spec fn view(&self) -> MemState {
        MemState { base: opt_str_view(self.base), index: opt_str_view(self.index), scale: self.scale, disp: self.disp }
    }
}

fn place_exec(st: MemAcc, t: String) -> (r: MemAcc)
    ensures
        r@ == place(st@, t@),
{
    let MemAcc { base, index, scale, disp } = st;
    if base.is_none() {
        MemAcc { base: Some(t), index, scale, disp }
    } else if index.is_none() {
        MemAcc { base, index: Some(t), scale, disp }
    } else {
        MemAcc { base, index, scale, disp }
    }
}

fn starts_rab_exec(w: &Vec<char>, lo: usize, hi: usize) -> (r: bool)
    requires
        lo <= hi <= w.len(),
    ensures
        r == starts_rab(w@.subrange(lo as int, hi as int)),
{
    lo < hi && (w[lo] == 'r' || w[lo] == 'e' || w[lo] == 'a' || w[lo] == 'b')
}

fn hex_or_dec_exec(w: &Vec<char>, lo: usize, hi: usize) -> (r: Option<i64>)
    requires
        lo <= hi <= w.len(),
    ensures
        r matches Some(v) ==> hex_or_dec(w@.subrange(lo as int, hi as int)) == Some(v as int),
        r is None ==> hex_or_dec(w@.subrange(lo as int, hi as int)) is None,
{
    if starts_with_range(w, lo, hi, "0x") {
        proof {
            reveal_strlit("0x");
            assert(w@.subrange(lo as int, hi as int).skip(2) =~= w@.subrange(lo + 2, hi as int));
        }
        parse_int_range(w, lo + 2, hi, 16)
    } else {
        parse_int_range(w, lo, hi, 10)
    }
}

fn mem_step_exec(w: &Vec<char>, x: usize, y: usize, st: MemAcc) -> (r: Option<MemAcc>)
    requires
        x <= y <= w.len(),
    ensures
        r matches Some(a) ==> mem_step(st@, w@.subrange(x as int, y as int)) == Some(a@),
        r is None ==> mem_step(st@, w@.subrange(x as int, y as int)) is None,
{
    reveal(mem_step);
    let (p, q) = trim_range(w, x, y);
    let ghost pm = w@.subrange(p as int, q as int);
    if p == q {
        return Some(st);
    }
    if find_char_range(w, p, q, '*').is_some() {
        let pieces = split_char_range(w, p, q, '*');
        proof {
            lemma_split_char_len(pm, '*');
        }
        let (a0, b0) = pieces[0];
        let (r0, r1) = trim_range(w, a0, b0);
        let (a1, b1) = pieces[1];
        let (s0, s1) = trim_range(w, a1, b1);
        let ps: i64 = match hex_or_dec_exec(w, s0, s1) {
            Some(v) => v,
            None => 1,
        };
        if starts_rab_exec(w, r0, r1) {
            let reg = string_of_range(w, r0, r1);
            let MemAcc { base, index, scale, disp } = st;
            if index.is_none() {
                Some(MemAcc { base, index: Some(reg), scale: ps, disp })
            } else if base.is_none() {
                Some(MemAcc { base: Some(reg), index, scale, disp })
            } else {
                Some(MemAcc { base, index, scale, disp })
            }
        } else {
            match parse_int_range(w, r0, r1, 10) {
                Some(v) => {
                    let MemAcc { base, index, scale, disp } = st;
                    match v.checked_mul(ps) {
                        Some(m) => match disp.checked_add(m) {
                            Some(d) => Some(MemAcc { base, index, scale, disp: d }),
                            None => None,
                        },
                        None => None,
                    }
                },
                None => Some(st),
            }
        }
    } else if ends_with_range(w, p, q, "ptr") {
        Some(st)
    } else if starts_with_range(w, p, q, "rip") || starts_with_range(w, p, q, "RIP") {
        let MemAcc { base, index, scale, disp } = st;
        Some(MemAcc { base: Some(String::from_str("rip")), index, scale, disp })
    } else if starts_rab_exec(w, p, q) {
        Some(place_exec(st, string_of_range(w, p, q)))
    } else if starts_with_range(w, p, q, "-") || char_is_numeric(w[p]) || starts_with_range(w, p, q, "0x") {
        match hex_or_dec_exec(w, p, q) {
            Some(v) => {
                let MemAcc { base, index, scale, disp } = st;
                match disp.checked_add(v) {
                    Some(d) => Some(MemAcc { base, index, scale, disp: d }),
                    None => None,
                }
            },
            None => Some(st),
        }
    } else {
        Some(place_exec(st, string_of_range(w, p, q)))
    }
}

/// Parses the memory reference between `s[l]` (`[`) and `s[r]` (`]`);
/// `None` where the displacement overflows.
fn parse_mem(v: &Vec<char>, l: usize, r: usize) -> (res: Option<X86Operand>)
    requires
        l < r <= v.len(),
    ensures
        ({
            let f = mem_fold(split_char(replace_minus(v@.subrange(l + 1, r as int)), '+'));
            match res {
                Some(o) => f matches Some(st) && o@ == OperandModel::Mem {
                    base: st.base,
                    index: st.index,
                    scale: st.scale,
                    disp: st.disp,
                },
                None => f is None,
            }
        }),
{
    let mut w: Vec<char> = Vec::new();
    let mut i = l + 1;
    assert(v@.subrange(l + 1, l + 1) =~= Seq::<char>::empty());
    while i < r
        invariant
            l < i <= r <= v.len(),
            w@ == replace_minus(v@.subrange(l + 1, i as int)),
        decreases r - i,
    {
        assert(v@.subrange(l + 1, i + 1).drop_last() =~= v@.subrange(l + 1, i as int));
        if v[i] == '-' {
            w.push('+');
            w.push('-');
        } else {
            w.push(v[i]);
        }
        i = i + 1;
        assert(w@ =~= replace_minus(v@.subrange(l + 1, i as int)));
    }
    let ghost parts = split_char(w@, '+');
    assert(w@.subrange(0, w.len() as int) =~= w@);
    let ranges = split_char_range(&w, 0, w.len(), '+');
    let mut st = MemAcc { base: None, index: None, scale: 1, disp: 0 };
    let mut k: usize = 0;
    assert(parts.take(0) =~= Seq::<Seq<char>>::empty());
    while k < ranges.len()
        invariant
            k <= ranges.len() == parts.len(),
            parts == split_char(w@, '+'),
            w@ == replace_minus(v@.subrange(l + 1, r as int)),
            forall|j: int| 0 <= j < ranges.len() ==> 0 <= (#[trigger] ranges[j]).0 <= ranges[j].1 <= w.len()
                && w@.subrange(ranges[j].0 as int, ranges[j].1 as int) == parts[j],
            mem_fold(parts.take(k as int)) == Some(st@),
        decreases ranges.len() - k,
    {
        let (x, y) = ranges[k];
        match mem_step_exec(&w, x, y, st) {
            Some(n) => {
                proof {
                    lemma_mem_fold_next(parts, k as int, st@, n@);
                }
                st = n;
            },
            None => {
                proof {
                    lemma_mem_fold_stops(parts, k as int, st@);
                }
                return None;
            },
        }
        k = k + 1;
    }
    assert(parts.take(k as int) =~= parts);
    let MemAcc { base, index, scale, disp } = st;
    Some(X86Operand::Mem { base, index, scale, disp })
}

fn all_digits_range(w: &Vec<char>, lo: usize, hi: usize) -> (r: bool)
    requires
        lo <= hi <= w.len(),
    ensures
        r == all_digits(w@.subrange(lo as int, hi as int), 10),
{
    let ghost t = w@.subrange(lo as int, hi as int);
    let mut i = lo;
    while i < hi
        invariant
            lo <= i <= hi <= w.len(),
            t == w@.subrange(lo as int, hi as int),
            forall|j: int| 0 <= j < i - lo ==> digit_of(#[trigger] t[j], 10) >= 0,
        decreases hi - i,
    {
        if !('0' <= w[i] && w[i] <= '9') {
            assert(digit_of(t[i - lo], 10) < 0);
            return false;
        }
        i = i + 1;
    }
    true
}

fn all_alphabetic_range(w: &Vec<char>, lo: usize, hi: usize) -> (r: bool)
    requires
        lo <= hi <= w.len(),
    ensures
        r == all_alphabetic(w@.subrange(lo as int, hi as int)),
{
    let ghost t = w@.subrange(lo as int, hi as int);
    let mut i = lo;
    while i < hi
        invariant
            lo <= i <= hi <= w.len(),
            t == w@.subrange(lo as int, hi as int),
            forall|j: int| 0 <= j < i - lo ==> alphabetic_char(#[trigger] t[j]),
        decreases hi - i,
    {
        if !char_is_alphabetic(w[i]) {
            assert(!alphabetic_char(t[i - lo]));
            return false;
        }
        i = i + 1;
    }
    true
}

proof fn lemma_utf8_len_mono(s: Seq<char>, k: int)
    requires
        0 <= k <= s.len(),
    ensures
        utf8_len(s.take(k)) <= utf8_len(s),
    decreases s.len(),
{
    if k < s.len() {
        assert(s.drop_last().take(k) =~= s.take(k));
        lemma_utf8_len_mono(s.drop_last(), k);
    } else {
        assert(s.take(k) =~= s);
    }
}

fn utf8_width_exec(c: char) -> (r: usize)
    ensures
        r == utf8_width(c),
{
    let n = c as u32;
    if n < 0x80 {
        1
    } else if n < 0x800 {
        2
    } else if n < 0x10000 {
        3
    } else {
        4
    }
}

/// The UTF-8 length of `w[lo..hi]`, counted up to 4.
pub fn utf8_len_capped(w: &Vec<char>, lo: usize, hi: usize) -> (r: usize)
    requires
        lo <= hi <= w.len(),
    ensures
        r == if utf8_len(w@.subrange(lo as int, hi as int)) < 4 {
            utf8_len(w@.subrange(lo as int, hi as int))
        } else {
            4
        },
{
    let ghost t = w@.subrange(lo as int, hi as int);
    let mut acc: usize = 0;
    let mut i = lo;
    assert(t.take(0) =~= Seq::<char>::empty());
    while i < hi && acc <= 3
        invariant
            lo <= i <= hi <= w.len(),
            t == w@.subrange(lo as int, hi as int),
            acc == utf8_len(t.take(i - lo)),
            acc <= 7,
        decreases hi - i,
    {
        assert(t.take(i - lo + 1).drop_last() =~= t.take(i - lo));
        acc = acc + utf8_width_exec(w[i]);
        i = i + 1;
    }
    proof {
        lemma_utf8_len_mono(t, i - lo);
        if i == hi {
            assert(t.take(i - lo) =~= t);
        }
    }
    if acc < 4 {
        acc
    } else {
        4
    }
}

/// Whether `w[lo..hi]` reads exactly `lit`.
pub fn seq_is(w: &Vec<char>, lo: usize, hi: usize, lit: &str) -> (r: bool)
    requires
        lo <= hi <= w.len(),
    ensures
        r == (w@.subrange(lo as int, hi as int) == lit@),
{
    let s = string_of_range(w, lo, hi);
    crate::common::str_is(&s, lit)
}

fn looks_like_register_exec(w: &Vec<char>) -> (r: bool)
    ensures
        r == looks_like_register(w@),
{
    let (a, b) = trim_range(w, 0, w.len());
    assert(w@.subrange(0, w.len() as int) =~= w@);
    let ghost t = w@.subrange(a as int, b as int);
    if a < b && w[a] == 'r' {
        assert(t.drop_first() =~= w@.subrange(a + 1, b as int));
        if a + 1 < b && all_digits_range(w, a + 1, b) {
            return true;
        }
        let ul = utf8_len_capped(w, a + 1, b);
        if 2 <= ul && ul <= 3 && all_alphabetic_range(w, a + 1, b) {
            return true;
        }
    }
    if seq_is(w, a, b, "eax") || seq_is(w, a, b, "ebx") || seq_is(w, a, b, "ecx") || seq_is(w, a, b, "edx")
        || seq_is(w, a, b, "esi") || seq_is(w, a, b, "edi") || seq_is(w, a, b, "esp") || seq_is(w, a, b, "ebp") {
        return true;
    }
    if starts_with_range(w, a, b, "xmm") || starts_with_range(w, a, b, "ymm") || starts_with_range(w, a, b, "zmm") {
        proof {
            reveal_strlit("xmm");
            reveal_strlit("ymm");
            reveal_strlit("zmm");
            assert(t.skip(3) =~= w@.subrange(a + 3, b as int));
        }
        return a + 3 < b && all_digits_range(w, a + 3, b);
    }
    seq_is(w, a, b, "al") || seq_is(w, a, b, "ax") || seq_is(w, a, b, "bl") || seq_is(w, a, b, "bx")
        || seq_is(w, a, b, "cl") || seq_is(w, a, b, "cx") || seq_is(w, a, b, "dl") || seq_is(w, a, b, "dx")
}

fn all_alphanumeric_vec(w: &Vec<char>) -> (r: bool)
    ensures
        r == all_alphanumeric(w@),
{
    let mut i: usize = 0;
    while i < w.len()
        invariant
            i <= w.len(),
            forall|j: int| 0 <= j < i ==> alphanumeric_char(#[trigger] w@[j]),
        decreases w.len() - i,
    {
        if !char_is_alphanumeric(w[i]) {
            return false;
        }
        i = i + 1;
    }
    true
}

/// Parses one operand, given as characters; `None` on the inputs on which
/// parsing would abort (see `operand_ok`).
pub fn parse_operand_checked(v: &Vec<char>) -> (r: Option<Option<X86Operand>>)
    ensures
        r is None <==> !operand_ok(v@),
        r matches Some(x) ==> opt_operand_view(x) == operand_model(v@),
{
    let n = v.len();
    assert(v@.subrange(0, n as int) =~= v@);
    if n == 0 {
        return Some(None);
    }
    if starts_with_range(v, 0, n, "0x") {
        proof {
            reveal_strlit("0x");
            assert(v@.skip(2) =~= v@.subrange(2, n as int));
        }
        let (a, b) = trim_char_range(v, 2, n, ',');
        if let Some(x) = parse_int_range(v, a, b, 16) {
            return Some(Some(X86Operand::Imm(x)));
        }
    }
    let a = trim_start_char_range(v, 0, n, '#');
    if let Some(x) = parse_int_range(v, a, n, 10) {
        return Some(Some(X86Operand::Imm(x)));
    }
    let lb = find_char_range(v, 0, n, '[');
    let rb = rfind_char_range(v, 0, n, ']');
    if let (Some(l), Some(r)) = (lb, rb) {
        proof {
            crate::text::lemma_find_char(v@, '[');
            crate::text::lemma_rfind_char(v@, ']');
        }
        if r <= l {
            return None;
        }
        return match parse_mem(v, l, r) {
            Some(o) => Some(Some(o)),
            None => None,
        };
    }
    if all_alphanumeric_vec(v) {
        let (a, b) = trim_range(v, 0, n);
        let t = string_of_range(v, a, b);
        if looks_like_register_exec(v) {
            return Some(Some(X86Operand::Reg(t)));
        }
        return Some(Some(X86Operand::Label(t)));
    }
    if starts_with_range(v, 0, n, ".") || starts_with_range(v, 0, n, "_") || starts_with_range(v, 0, n, "L_") {
        let (a, b) = trim_range(v, 0, n);
        return Some(Some(X86Operand::Label(string_of_range(v, a, b))));
    }
    Some(Some(X86Operand::Other(string_from_chars(v.as_slice()))))
}

/// Parses one operand, given as characters.
pub fn parse_operand_chars(v: &Vec<char>) -> (r: Option<X86Operand>)
    requires
        operand_ok(v@),
    ensures
        opt_operand_view(r) == operand_model(v@),
{
    match parse_operand_checked(v) {
        Some(x) => x,
        None => None,
    }
}

/// The first whitespace position in `v[a..b]` (or `b`).
pub fn first_ws_range(v: &Vec<char>, a: usize, b: usize) -> (k: usize)
    requires
        a <= b <= v@.len(),
    ensures
        a <= k <= b,
        first_ws(v@.subrange(a as int, b as int)) == if k < b {
            Some(k - a)
        } else {
            None::<int>
        },
{
    let ghost s = v@.subrange(a as int, b as int);
    let mut k = a;
    while k < b && !is_ws_exec(v[k])
        invariant
            a <= k <= b <= v@.len(),
            s == v@.subrange(a as int, b as int),
            forall|i: int| 0 <= i < k - a ==> !is_ws(#[trigger] s[i]),
        decreases b - k,
    {
        k = k + 1;
    }
    proof {
        lemma_first_ws_at(s, k - a);
    }
    k
}

/// Parses one line as `parse_x86_line` does, and answers `None` on the lines
/// on which that would abort (see `line_ok`).
pub fn parse_x86_line_checked(line: &str) -> (r: Option<Option<X86Instruction>>)
    ensures
        r is None <==> !line_ok(line@),
        r matches Some(x) ==> opt_instr_view(x) == line_model(line@),
{
    let v = chars_of(line);
    let n = v.len();
    assert(v@.subrange(0, n as int) =~= v@);
    let (a, b) = trim_range(&v, 0, n);
    let ghost s = v@.subrange(a as int, b as int);
    if a == b {
        return Some(None);
    }
    if starts_with_range(&v, a, b, ".") || ends_with_range(&v, a, b, ":") {
        return Some(None);
    }
    let mut k = a;
    while k < b && !is_ws_exec(v[k])
        invariant
            a <= k <= b <= n == v.len(),
            s == v@.subrange(a as int, b as int),
            forall|i: int| 0 <= i < k - a ==> !is_ws(#[trigger] s[i]),
        decreases b - k,
    {
        k = k + 1;
    }
    proof {
        lemma_first_ws_at(s, k - a);
    }
    let opcode = string_of_range(&v, a, k);
    assert(s.take(k - a) =~= v@.subrange(a as int, k as int));
    let rs = if k < b {
        k + 1
    } else {
        b
    };
    assert(line_rest(s) =~= v@.subrange(rs as int, b as int));
    let ghost parts = line_parts(s);
    let ranges = split_char_range(&v, rs, b, ',');
    let mut ops: Vec<X86Operand> = Vec::new();
    let mut j: usize = 0;
    assert(parts.take(0) =~= Seq::<Seq<char>>::empty());
    while j < ranges.len()
        invariant
            j <= ranges.len() == parts.len(),
            parts == line_parts(s),
            s == trim(line@),
            !line_skipped(s),
            forall|q: int| 0 <= q < ranges.len() ==> rs <= (#[trigger] ranges[q]).0 <= ranges[q].1 <= b
                && v@.subrange(ranges[q].0 as int, ranges[q].1 as int) == parts[q],
            b <= v.len(),
            forall|q: int| 0 <= q < j ==> operand_ok(trim(#[trigger] parts[q])),
            operands_view(ops@) == collect_ops(parts.take(j as int)),
        decreases ranges.len() - j,
    {
        let (x, y) = ranges[j];
        let (p, q) = trim_range(&v, x, y);
        let sub = sub_vec(&v, p, q);
        assert(parts.take(j + 1).drop_last() =~= parts.take(j as int));
        let ghost prev = ops@;
        match parse_operand_checked(&sub) {
            Some(Some(o)) => {
                ops.push(o);
                assert(operands_view(ops@) =~= operands_view(prev).push(o@));
            },
            Some(None) => {},
            None => {
                return None;
            },
        }
        j = j + 1;
        assert(operands_view(ops@) =~= collect_ops(parts.take(j as int)));
    }
    assert(parts.take(j as int) =~= parts);
    Some(Some(X86Instruction { opcode, operands: ops }))
}

/// Parses one line of Intel-syntax assembly into an opcode and operands.
/// Blank lines, directives (`.`) and labels (`:`) give `None`.
pub fn parse_x86_line(line: &str) -> (r: Option<X86Instruction>)
    requires
        line_ok(line@),
    ensures
        opt_instr_view(r) == line_model(line@),
{
    match parse_x86_line_checked(line) {
        Some(x) => x,
        None => None,
    }
}


/// How many of `parts` are non-empty once trimmed.
pub open spec fn count_nonempty(parts: Seq<Seq<char>>) -> nat
    decreases parts.len(),
{
    if parts.len() == 0 {
        0
    } else {
        count_nonempty(parts.drop_last()) + if trim(parts.last()).len() > 0 {
            1nat
        } else {
            0nat
        }
    }
}

proof fn lemma_collect_ops_len(parts: Seq<Seq<char>>)
    requires
        forall|i: int| 0 <= i < parts.len() ==> operand_ok(trim(#[trigger] parts[i])),
    ensures
        collect_ops(parts).len() == count_nonempty(parts),
    decreases parts.len(),
{
    if parts.len() > 0 {
        let ps = parts.drop_last();
        assert forall|i: int| 0 <= i < ps.len() implies operand_ok(trim(#[trigger] ps[i])) by {
            assert(ps[i] == parts[i]);
        }
        lemma_collect_ops_len(ps);
        assert(operand_ok(trim(parts[parts.len() - 1])));
    }
}

/// The operands of a parsed line are its comma separated parts that are
/// non-empty once trimmed, one operand for each, in order: their number is
/// the number of such parts.
pub proof fn law_operands_are_nonempty_parts(line: Seq<char>)
    requires
        line_ok(line),
        !line_skipped(trim(line)),
    ensures
        line_model(line) is Some,
        line_model(line)->Some_0.operands.len() == count_nonempty(line_parts(trim(line))),
{
    let s = trim(line);
    lemma_collect_ops_len(line_parts(s));
}

} // verus!
