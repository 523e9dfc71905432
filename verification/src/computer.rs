//! The x86-64 machine state: general purpose registers with their partial
//! aliases, vector registers, memory regions, data labels, pending
//! relocations, and the formulas asserted on the current path.
use vstd::prelude::*;
use crate::common::{
    AbstractComparison, AbstractExpression, CmpModel, ExprModel, MemorySafeRegion, RegModel,
    RegionModel, RegionType, RegisterKind, RegisterProvider, RegisterValue, all_ones, copy_comparison,
    clone_expr, clone_rv, fresh_content, known_bits_model, rv_new_model,
};
use crate::parser::{seq_is, utf8_len, utf8_len_capped};
use crate::strmap::{Modeled, StrMap};
use crate::text::{
    chars_of, ends_with, ends_with_range, int_text, push_int_text, push_str, starts_with,
    starts_with_range, string_from_chars, string_of_range, trim, trim_range, is_ws, lead_ws, trail_ws,
};

verus! {

pub open spec fn lanes_view(v: Seq<RegisterValue>) -> Seq<RegModel> {
    v.map_values(|r: RegisterValue| r@)
}

impl Modeled for Vec<RegisterValue> {
    type M = Seq<RegModel>;

    open spec fn model(&self) -> Seq<RegModel> {
        lanes_view(self@)
    }

    fn dup(&self) -> (r: Self) {
        let mut out: Vec<RegisterValue> = Vec::new();
        let mut i: usize = 0;
        while i < self.len()
            invariant
                i <= self.len(),
                out@.len() == i,
                lanes_view(out@) == lanes_view(self@).take(i as int),
            decreases self.len() - i,
        {
            let c = clone_rv(&self[i]);
            let ghost prev = out@;
            out.push(c);
            assert(lanes_view(out@) =~= lanes_view(prev).push(c@));
            i = i + 1;
            assert(lanes_view(out@) =~= lanes_view(self@).take(i as int));
        }
        assert(lanes_view(self@).take(i as int) =~= lanes_view(self@));
        out
    }
}

/// Model of a `Relocation`.
pub struct RelocModel {
    pub addr: i64,
    pub expr: ExprModel,
    pub size: usize,
}

/// A data value whose expression could not be resolved when it was emitted.
#[derive(Debug)]
pub struct Relocation {
    pub addr: i64,
    pub expr: AbstractExpression,
    pub size: usize,
}

impl Relocation {
    pub open spec fn view(&self) -> RelocModel {
        RelocModel { addr: self.addr, expr: self.expr@, size: self.size }
    }
}

impl Clone for Relocation {
    fn clone(&self) -> (r: Self)
        ensures
            r@ == self@,
    {
        Relocation { addr: self.addr, expr: clone_expr(&self.expr), size: self.size }
    }
}

pub open spec fn relocs_view(v: Seq<Relocation>) -> Seq<RelocModel> {
    v.map_values(|r: Relocation| r@)
}

pub open spec fn formulas_view(v: Seq<AbstractComparison>) -> Seq<CmpModel> {
    v.map_values(|c: AbstractComparison| c@)
}

/// A relocation in linker terms: a symbol and addend where the expression
/// has that form, and its kind (`SYM_ADD`, `DIFF` or `EXPR`).
#[derive(Debug)]
pub struct LinkerReloc {
    pub addr: i64,
    pub size: usize,
    pub symbol: Option<String>,
    pub addend: Option<i64>,
    pub expr: String,
    pub kind: String,
}

/// Model of the machine state.
pub struct X86Model {
    pub registers: Map<Seq<char>, RegModel>,
    pub simd: Map<Seq<char>, Seq<RegModel>>,
    pub memory: Map<Seq<char>, RegionModel>,
    pub memory_order: Seq<Seq<char>>,
    pub labels: Map<Seq<char>, i64>,
    pub label_order: Seq<Seq<char>>,
    pub relocations: Seq<RelocModel>,
    pub assertions: Seq<CmpModel>,
}

/// An x86-64 machine: registers by canonical name, vector registers as 32
/// byte lanes, memory regions by name, data labels, relocations still to be
/// resolved, and the formulas asserted on the current path.
pub struct X86Computer {
    pub registers: StrMap<RegisterValue>,
    pub simd_registers: StrMap<Vec<RegisterValue>>,
    pub memory: StrMap<MemorySafeRegion>,
    pub memory_labels: StrMap<i64>,
    pub relocations: Vec<Relocation>,
    pub assertions: Vec<AbstractComparison>,
}

/// The sixteen general purpose registers.
pub open spec fn gp_names() -> Seq<Seq<char>> {
    seq![
        "rax"@, "rbx"@, "rcx"@, "rdx"@, "rsi"@, "rdi"@, "r8"@, "r9"@, "r10"@, "r11"@, "r12"@,
        "r13"@, "r14"@, "r15"@, "rsp"@, "rbp"@,
    ]
}

/// The value a register holds before anything is written: its own name.
pub open spec fn named_value(n: Seq<char>) -> RegModel {
    rv_new_model(RegisterKind::RegisterBase, Some(ExprModel::Abstract(n)), 0)
}

pub open spec fn initial_registers() -> Map<Seq<char>, RegModel> {
    Map::new(|k: Seq<char>| gp_names().contains(k), |k: Seq<char>| named_value(k))
}

/// The sixteen vector registers `ymm0` .. `ymm15`.
pub open spec fn simd_name(i: int) -> Seq<char> {
    "ymm"@ + int_text(i)
}

pub open spec fn initial_lanes() -> Seq<RegModel> {
    Seq::new(32, |i: int| named_value("v"@))
}

pub open spec fn initial_simd() -> Map<Seq<char>, Seq<RegModel>> {
    Map::new(|k: Seq<char>| exists|i: int| 0 <= i < 16 && k == simd_name(i), |k: Seq<char>| initial_lanes())
}

/// The stack region every machine starts with.
pub open spec fn stack_region() -> RegionModel {
    RegionModel {
        kind: RegionType::RW,
        length: ExprModel::Abstract("STACK_MAX"@),
        content: Map::empty(),
    }
}

/// What `normalize_register_name` gives: the canonical 64-bit register of
/// an alias (`r11d` -> `r11`, `eax` -> `rax`, `al` -> `rax`, `sil` -> `rsi`).
pub open spec fn normalize_name(name: Seq<char>) -> Seq<char> {
    let n = trim(name);
    if starts_with(n, "r"@) && utf8_len(n) > 2 && (n.last() == 'd' || n.last() == 'w' || n.last()
        == 'b') {
        n.drop_last()
    } else if utf8_len(n) == 3 && starts_with(n, "e"@) {
        seq!['r'] + n.drop_first()
    } else if n == "al"@ || n == "ax"@ {
        "rax"@
    } else if n == "bl"@ || n == "bx"@ {
        "rbx"@
    } else if n == "cl"@ || n == "cx"@ {
        "rcx"@
    } else if n == "dl"@ || n == "dx"@ {
        "rdx"@
    } else if n == "sil"@ {
        "rsi"@
    } else if n == "dil"@ {
        "rdi"@
    } else if n == "spl"@ {
        "rsp"@
    } else if n == "bpl"@ {
        "rbp"@
    } else {
        n
    }
}

/// Reading the low bits selected by `mask`: an immediate where those bits
/// are known, an unknown number otherwise.
pub open spec fn alias_read(r: RegModel, mask: u64) -> RegModel {
    if r.known_mask == all_ones() || r.known_mask & mask == mask {
        RegModel { offset: (r.known_value & mask) as i64, kind: RegisterKind::Immediate, ..r }
    } else {
        rv_new_model(RegisterKind::Number, None, 0)
    }
}

pub open spec fn is_low8(n: Seq<char>) -> bool {
    n == "al"@ || n == "bl"@ || n == "cl"@ || n == "dl"@ || n == "sil"@ || n == "dil"@ || n
        == "spl"@ || n == "bpl"@
}

pub open spec fn is_low16(n: Seq<char>) -> bool {
    n == "ax"@ || n == "bx"@ || n == "cx"@ || n == "dx"@
}

/// What reading register `name` gives, aliases included; a register the
/// machine does not have reads as the abstract value of its canonical name.
pub open spec fn read_register(regs: Map<Seq<char>, RegModel>, name: Seq<char>) -> RegModel {
    let n = trim(name);
    let key = normalize_name(n);
    if regs.contains_key(key) {
        let out = regs[key];
        if is_low8(n) {
            alias_read(out, 0xff)
        } else if is_low16(n) {
            alias_read(out, 0xffff)
        } else if ends_with(n, "b"@) {
            alias_read(out, 0xff)
        } else if ends_with(n, "w"@) {
            alias_read(out, 0xffff)
        } else if ends_with(n, "d"@) || starts_with(n, "e"@) {
            alias_read(out, 0xffff_ffff)
        } else {
            out
        }
    } else {
        named_value(key)
    }
}

/// Overwrites the canonical register of `name`, if the machine has it.
pub open spec fn put_register(regs: Map<Seq<char>, RegModel>, name: Seq<char>, v: RegModel) -> Map<Seq<char>, RegModel> {
    let key = normalize_name(name);
    if regs.contains_key(key) {
        regs.insert(key, v)
    } else {
        regs
    }
}

pub open spec fn is_dword_alias(name: Seq<char>) -> bool {
    ends_with(name, "d"@) || starts_with(name, "e"@)
}

/// An 8 or 16 bit alias of the low bits: a name ending in `b` or `w`, or
/// one of `al`..`dl`, `sil`, `dil`, `spl`, `bpl`, `ax`..`dx`.
pub open spec fn is_narrow_alias(name: Seq<char>) -> bool {
    ends_with(name, "b"@) || ends_with(name, "w"@) || is_low8(name) || is_low16(name)
}

pub open spec fn narrow_mask(name: Seq<char>) -> u64 {
    if ends_with(name, "b"@) || is_low8(name) {
        0xff
    } else {
        0xffff
    }
}

/// The high byte registers `ah`, `bh`, `ch`, `dh`.
pub open spec fn is_high8(n: Seq<char>) -> bool {
    n == "ah"@ || n == "bh"@ || n == "ch"@ || n == "dh"@
}

/// The register whose bits 8..16 a high byte register names.
pub open spec fn high8_key(n: Seq<char>) -> Seq<char> {
    if n == "ah"@ {
        "rax"@
    } else if n == "bh"@ {
        "rbx"@
    } else if n == "ch"@ {
        "rcx"@
    } else {
        "rdx"@
    }
}

/// Writing a high byte register: its register becomes an unknown number.
pub open spec fn write_high8_model(regs: Map<Seq<char>, RegModel>, name: Seq<char>) -> Map<Seq<char>, RegModel> {
    if regs.contains_key(high8_key(name)) {
        regs.insert(high8_key(name), rv_new_model(RegisterKind::Number, None, 0))
    } else {
        regs
    }
}

/// Model of `write_register_from_imm`: a 32-bit alias zero-extends, an 8 or
/// 16 bit alias of the low bits sets those known bits, a high byte register
/// makes its register unknown, a full register takes the value.
pub open spec fn write_imm_model(regs: Map<Seq<char>, RegModel>, name: Seq<char>, val: i64) -> Map<Seq<char>, RegModel> {
    let key = normalize_name(name);
    if is_dword_alias(name) {
        put_register(regs, name, rv_new_model(RegisterKind::Immediate, None, (val as u32) as i64))
    } else if is_high8(name) {
        write_high8_model(regs, name)
    } else if is_narrow_alias(name) {
        if regs.contains_key(key) {
            let mask = narrow_mask(name);
            regs.insert(key, known_bits_model(regs[key], mask, (val as u64) & mask))
        } else {
            regs
        }
    } else {
        put_register(regs, name, rv_new_model(RegisterKind::Immediate, None, val))
    }
}

/// Model of `write_register_from_value`.
pub open spec fn write_value_model(regs: Map<Seq<char>, RegModel>, name: Seq<char>, value: RegModel) -> Map<Seq<char>, RegModel> {
    let key = normalize_name(name);
    let unknown = rv_new_model(RegisterKind::Number, None, 0);
    if is_dword_alias(name) {
        if value.kind == RegisterKind::Immediate && (value.offset as u32) as i64 == value.offset {
            put_register(regs, name, rv_new_model(RegisterKind::Immediate, None, value.offset))
        } else {
            put_register(regs, name, unknown)
        }
    } else if is_high8(name) {
        write_high8_model(regs, name)
    } else if is_narrow_alias(name) {
        if regs.contains_key(key) {
            let mask = narrow_mask(name);
            let r = regs[key];
            if value.kind == RegisterKind::Immediate {
                regs.insert(key, known_bits_model(r, mask, (value.offset as u64) & mask))
            } else if r.known_mask & !mask == 0 {
                regs.insert(key, unknown)
            } else {
                regs.insert(key, RegModel { known_mask: r.known_mask & !mask, ..r })
            }
        } else {
            regs
        }
    } else {
        put_register(regs, name, value)
    }
}

/// The machine a shallow copy holds: the same state, no asserted formulas.
pub open spec fn shallow_clone(m: X86Model) -> X86Model {
    X86Model { assertions: Seq::empty(), ..m }
}

impl X86Computer {
    pub open spec fn view(&self) -> X86Model {
        X86Model {
            registers: self.registers@,
            simd: self.simd_registers@,
            memory: self.memory@,
            memory_order: self.memory.key_seq(),
            labels: self.memory_labels@,
            label_order: self.memory_labels.key_seq(),
            relocations: relocs_view(self.relocations@),
            assertions: formulas_view(self.assertions@),
        }
    }
}

fn gp_name(i: usize) -> (r: &'static str)
    requires
        i < 16,
    ensures
        r@ == gp_names()[i as int],
{
    match i {
        0 => "rax",
        1 => "rbx",
        2 => "rcx",
        3 => "rdx",
        4 => "rsi",
        5 => "rdi",
        6 => "r8",
        7 => "r9",
        8 => "r10",
        9 => "r11",
        10 => "r12",
        11 => "r13",
        12 => "r14",
        13 => "r15",
        14 => "rsp",
        _ => "rbp",
    }
}

fn simd_name_exec(i: usize) -> (r: String)
    ensures
        r@ == simd_name(i as int),
{
    let mut out: Vec<char> = Vec::new();
    push_str(&mut out, "ymm");
    push_int_text(&mut out, i as i128);
    string_from_chars(out.as_slice())
}

fn initial_lanes_exec() -> (r: Vec<RegisterValue>)
    ensures
        lanes_view(r@) == initial_lanes(),
{
    let mut v: Vec<RegisterValue> = Vec::new();
    let mut i: usize = 0;
    while i < 32
        invariant
            i <= 32,
            v@.len() == i,
            forall|j: int| 0 <= j < i ==> (#[trigger] v@[j])@ == named_value("v"@),
        decreases 32 - i,
    {
        v.push(RegisterValue::new_empty("v"));
        i = i + 1;
    }
    assert(lanes_view(v@) =~= initial_lanes());
    v
}

impl X86Computer {
    /// A fresh machine: every general purpose register holds its own name,
    /// every vector lane the abstract value `v`, a read-write stack region
    /// `sp` of length `STACK_MAX`, no labels, relocations or assertions.
    pub fn new() -> (r: Self)
        ensures
            r@.registers == initial_registers(),
            r@.simd == initial_simd(),
            r@.memory == map![("sp"@) => stack_region()],
            r@.memory_order == seq!["sp"@],
            r@.labels == Map::<Seq<char>, i64>::empty(),
            r@.label_order == Seq::<Seq<char>>::empty(),
            r@.relocations == Seq::<RelocModel>::empty(),
            r@.assertions == Seq::<CmpModel>::empty(),
    {
        let mut registers: StrMap<RegisterValue> = StrMap::new();
        let mut i: usize = 0;
        while i < 16
            invariant
                i <= 16,
                forall|k: Seq<char>| #[trigger] registers@.contains_key(k) <==> exists|q: int| 0 <= q < i && k == gp_names()[q],
                forall|k: Seq<char>| #[trigger] registers@.contains_key(k) ==> registers@[k] == named_value(k),
            decreases 16 - i,
        {
            let n = gp_name(i);
            registers.insert(String::from_str(n), RegisterValue::new_empty(n));
            i = i + 1;
        }
        assert forall|k: Seq<char>| #[trigger] registers@.contains_key(k) == initial_registers().contains_key(k) by {
            if gp_names().contains(k) {
                let q = choose|q: int| 0 <= q < gp_names().len() && gp_names()[q] == k;
                assert(registers@.contains_key(gp_names()[q]));
            }
        }
        assert(registers@ =~= initial_registers());
        let mut simd_registers: StrMap<Vec<RegisterValue>> = StrMap::new();
        let mut j: usize = 0;
        while j < 16
            invariant
                j <= 16,
                forall|k: Seq<char>| #[trigger] simd_registers@.contains_key(k) <==> exists|q: int| 0 <= q < j && k == simd_name(q),
                forall|k: Seq<char>| #[trigger] simd_registers@.contains_key(k) ==> simd_registers@[k] == initial_lanes(),
            decreases 16 - j,
        {
            let n = simd_name_exec(j);
            let lanes = initial_lanes_exec();
            simd_registers.insert(n, lanes);
            proof {
                assert forall|k: Seq<char>| #[trigger] simd_registers@.contains_key(k) implies exists|q: int| 0 <= q < j + 1 && k == simd_name(q) by {
                    if k == simd_name(j as int) {
                    }
                }
            }
            j = j + 1;
        }
        assert(simd_registers@ =~= initial_simd());
        let mut memory: StrMap<MemorySafeRegion> = StrMap::new();
        let stack = MemorySafeRegion::new(AbstractExpression::Abstract(String::from_str("STACK_MAX")), RegionType::RW);
        memory.insert(String::from_str("sp"), stack);
        assert(memory@ =~= map![("sp"@) => stack_region()]);
        assert(memory.key_seq() =~= seq!["sp"@]);
        X86Computer {
            registers,
            simd_registers,
            memory,
            memory_labels: StrMap::new(),
            relocations: Vec::new(),
            assertions: Vec::new(),
        }
    }
}

/// The key order of a name-keyed map after inserting `k`.
pub open spec fn order_after_insert<V>(order: Seq<Seq<char>>, m: Map<Seq<char>, V>, k: Seq<char>) -> Seq<Seq<char>> {
    if m.contains_key(k) {
        order
    } else {
        order.push(k)
    }
}

/// An immediate byte value as memory stores it.
pub open spec fn imm_value(v: i64) -> RegModel {
    rv_new_model(RegisterKind::Immediate, None, v)
}

/// The address at which the data of a program is laid out in the region
/// `memory`.
pub open spec fn data_start() -> i64 {
    4
}

/// Memory after storing `v` at `addr` of region `region`; a missing region
/// is created empty, read-write, of length 0.
pub open spec fn store_value(mem: Map<Seq<char>, RegionModel>, region: Seq<char>, addr: i64, v: RegModel) -> Map<Seq<char>, RegionModel> {
    if mem.contains_key(region) {
        mem.insert(region, RegionModel { content: mem[region].content.insert(addr, v), ..mem[region] })
    } else {
        mem.insert(
            region,
            RegionModel {
                kind: RegionType::RW,
                length: ExprModel::Immediate(0),
                content: Map::empty().insert(addr, v),
            },
        )
    }
}

fn alias_read_exec(out: RegisterValue, mask: u64) -> (r: RegisterValue)
    ensures
        r@ == alias_read(out@, mask),
{
    if out.known_mask == 0xffff_ffff_ffff_ffffu64 || (out.known_mask & mask) == mask {
        let RegisterValue { kind: _, base, offset: _, known_mask, known_value } = out;
        RegisterValue {
            kind: RegisterKind::Immediate,
            base,
            offset: (known_value & mask) as i64,
            known_mask,
            known_value,
        }
    } else {
        RegisterValue::new(RegisterKind::Number, None, 0)
    }
}

impl X86Computer {
    /// The canonical 64-bit register an alias names.
    pub fn normalize_register_name(name: &str) -> (r: String)
        ensures
            r@ == normalize_name(name@),
    {
        let w = chars_of(name);
        assert(w@.subrange(0, w.len() as int) =~= w@);
        let (a, b) = trim_range(&w, 0, w.len());
        let ghost n = w@.subrange(a as int, b as int);
        proof {
            reveal_strlit("r");
            reveal_strlit("e");
        }
        let ul = utf8_len_capped(&w, a, b);
        if starts_with_range(&w, a, b, "r") && ul > 2 && (w[b - 1] == 'd' || w[b - 1] == 'w' || w[b
            - 1] == 'b') {
            assert(n.last() == w@[b - 1]);
            assert(n.drop_last() =~= w@.subrange(a as int, b - 1));
            return string_of_range(&w, a, b - 1);
        }
        if ul == 3 && starts_with_range(&w, a, b, "e") {
            let mut out: Vec<char> = Vec::new();
            out.push('r');
            let mut i = a + 1;
            while i < b
                invariant
                    a + 1 <= i <= b <= w.len(),
                    out@ == seq!['r'] + w@.subrange(a + 1, i as int),
                decreases b - i,
            {
                out.push(w[i]);
                i = i + 1;
                assert(out@ =~= seq!['r'] + w@.subrange(a + 1, i as int));
            }
            assert(n.drop_first() =~= w@.subrange(a + 1, b as int));
            return string_from_chars(out.as_slice());
        }
        if seq_is(&w, a, b, "al") || seq_is(&w, a, b, "ax") {
            return String::from_str("rax");
        }
        if seq_is(&w, a, b, "bl") || seq_is(&w, a, b, "bx") {
            return String::from_str("rbx");
        }
        if seq_is(&w, a, b, "cl") || seq_is(&w, a, b, "cx") {
            return String::from_str("rcx");
        }
        if seq_is(&w, a, b, "dl") || seq_is(&w, a, b, "dx") {
            return String::from_str("rdx");
        }
        if seq_is(&w, a, b, "sil") {
            return String::from_str("rsi");
        }
        if seq_is(&w, a, b, "dil") {
            return String::from_str("rdi");
        }
        if seq_is(&w, a, b, "spl") {
            return String::from_str("rsp");
        }
        if seq_is(&w, a, b, "bpl") {
            return String::from_str("rbp");
        }
        string_of_range(&w, a, b)
    }

    /// The value of register `name`: 8, 16 and 32 bit aliases read the low
    /// bits when they are known and an unknown number otherwise; a register
    /// the machine does not have reads as the abstract value of its name.
    pub fn get_register_value(&self, name: &str) -> (r: RegisterValue)
        ensures
            r@ == read_register(self@.registers, name@),
    {
        let w = chars_of(name);
        assert(w@.subrange(0, w.len() as int) =~= w@);
        let (a, b) = trim_range(&w, 0, w.len());
        let n = string_of_range(&w, a, b);
        let key = Self::normalize_register_name(n.as_str());
        match self.registers.get(key.as_str()) {
            Some(r) => {
                let out = clone_rv(r);
                if seq_is(&w, a, b, "al") || seq_is(&w, a, b, "bl") || seq_is(&w, a, b, "cl") || seq_is(&w, a, b, "dl")
                    || seq_is(&w, a, b, "sil") || seq_is(&w, a, b, "dil") || seq_is(&w, a, b, "spl") || seq_is(&w, a, b, "bpl") {
                    return alias_read_exec(out, 0xff);
                }
                if seq_is(&w, a, b, "ax") || seq_is(&w, a, b, "bx") || seq_is(&w, a, b, "cx") || seq_is(&w, a, b, "dx") {
                    return alias_read_exec(out, 0xffff);
                }
                if ends_with_range(&w, a, b, "b") {
                    return alias_read_exec(out, 0xff);
                }
                if ends_with_range(&w, a, b, "w") {
                    return alias_read_exec(out, 0xffff);
                }
                if ends_with_range(&w, a, b, "d") || starts_with_range(&w, a, b, "e") {
                    return alias_read_exec(out, 0xffff_ffff);
                }
                out
            },
            None => RegisterValue::new(RegisterKind::RegisterBase, Some(AbstractExpression::Abstract(key)), 0),
        }
    }

    fn put_register_exec(&mut self, name: &str, v: RegisterValue)
        ensures
            final(self)@ == (X86Model { registers: put_register(old(self)@.registers, name@, v@), ..old(self)@ }),
    {
        let key = Self::normalize_register_name(name);
        if self.registers.contains_key(key.as_str()) {
            self.registers.insert(key, v);
        }
    }

    /// Sets the canonical register of `name` to the immediate `val`.
    pub fn set_register_imm(&mut self, name: &str, val: i64)
        ensures
            final(self)@ == (X86Model { registers: put_register(old(self)@.registers, name@, imm_value(val)), ..old(self)@ }),
    {
        self.put_register_exec(name, RegisterValue::new(RegisterKind::Immediate, None, val));
    }

    /// Overwrites the canonical register of `name` with `value`.
    pub fn set_register_value(&mut self, name: &str, value: RegisterValue)
        ensures
            final(self)@ == (X86Model { registers: put_register(old(self)@.registers, name@, value@), ..old(self)@ }),
    {
        self.put_register_exec(name, value);
    }

    /// Sets the canonical register of `name` to `base + offset`.
    pub fn set_register_abstract(&mut self, name: &str, base: Option<AbstractExpression>, offset: i64)
        ensures
            final(self)@ == (X86Model {
                registers: put_register(
                    old(self)@.registers,
                    name@,
                    rv_new_model(RegisterKind::RegisterBase, crate::common::opt_expr_view(base), offset),
                ),
                ..old(self)@
            }),
    {
        self.put_register_exec(name, RegisterValue::new(RegisterKind::RegisterBase, base, offset));
    }

    /// Marks the canonical register of `name` as an unknown number.
    pub fn set_register_unknown(&mut self, name: &str)
        ensures
            final(self)@ == (X86Model {
                registers: put_register(old(self)@.registers, name@, rv_new_model(RegisterKind::Number, None, 0)),
                ..old(self)@
            }),
    {
        self.put_register_exec(name, RegisterValue::new(RegisterKind::Number, None, 0));
    }

    /// Writes an immediate as x86 does for the width of `name`: a 32-bit
    /// alias zero-extends, an 8 or 16 bit alias of the low bits (`al`,
    /// `ax`, `r8b`, ...) sets those bits, a high byte register (`ah`..`dh`)
    /// makes its register unknown, a full register takes the value.
    pub fn write_register_from_imm(&mut self, name: &str, val: i64)
        ensures
            final(self)@ == (X86Model { registers: write_imm_model(old(self)@.registers, name@, val), ..old(self)@ }),
    {
        let w = chars_of(name);
        assert(w@.subrange(0, w.len() as int) =~= w@);
        let n = w.len();
        if ends_with_range(&w, 0, n, "d") || starts_with_range(&w, 0, n, "e") {
            let imm64 = (val as u32) as i64;
            self.set_register_imm(name, imm64);
            return;
        }
        if is_high8_exec(&w) {
            self.write_high8(&w);
            return;
        }
        if ends_with_range(&w, 0, n, "b") || ends_with_range(&w, 0, n, "w") || is_low8_exec(&w) || is_low16_exec(&w) {
            let key = Self::normalize_register_name(name);
            match self.registers.get(key.as_str()) {
                Some(r) => {
                    let mask: u64 = if ends_with_range(&w, 0, n, "b") || is_low8_exec(&w) {
                        0xff
                    } else {
                        0xffff
                    };
                    let mut nr = clone_rv(r);
                    nr.set_known_bits(mask, (val as u64) & mask);
                    self.registers.insert(key, nr);
                },
                None => {},
            }
            return;
        }
        self.set_register_imm(name, val);
    }

    /// Writes a value as x86 does for the width of `name`: a 32-bit alias
    /// takes only an immediate that fits in 32 bits (otherwise the register
    /// becomes unknown); an 8 or 16 bit alias of the low bits merges known
    /// low bits, or forgets them for an abstract value; a high byte register
    /// makes its register unknown; a full register takes the value.
    pub fn write_register_from_value(&mut self, name: &str, value: RegisterValue)
        ensures
            final(self)@ == (X86Model { registers: write_value_model(old(self)@.registers, name@, value@), ..old(self)@ }),
    {
        let w = chars_of(name);
        assert(w@.subrange(0, w.len() as int) =~= w@);
        let n = w.len();
        if ends_with_range(&w, 0, n, "d") || starts_with_range(&w, 0, n, "e") {
            if value.kind == RegisterKind::Immediate {
                let imm32 = (value.offset as u32) as i64;
                if imm32 != value.offset {
                    self.set_register_unknown(name);
                    return;
                }
                self.set_register_imm(name, imm32);
                return;
            }
            self.set_register_unknown(name);
            return;
        }
        if is_high8_exec(&w) {
            self.write_high8(&w);
            return;
        }
        if ends_with_range(&w, 0, n, "b") || ends_with_range(&w, 0, n, "w") || is_low8_exec(&w) || is_low16_exec(&w) {
            let key = Self::normalize_register_name(name);
            match self.registers.get(key.as_str()) {
                Some(r) => {
                    let mask: u64 = if ends_with_range(&w, 0, n, "b") || is_low8_exec(&w) {
                        0xff
                    } else {
                        0xffff
                    };
                    let mut nr = clone_rv(r);
                    if value.kind == RegisterKind::Immediate {
                        nr.set_known_bits(mask, (value.offset as u64) & mask);
                    } else {
                        nr.known_mask = nr.known_mask & !mask;
                        if nr.known_mask == 0 {
                            nr.set(RegisterKind::Number, None, 0);
                        }
                    }
                    self.registers.insert(key, nr);
                },
                None => {},
            }
            return;
        }
        self.set_register_value(name, value);
    }

    /// Adds (or replaces) the region `name`.
    pub fn add_memory_region(&mut self, name: String, ty: RegionType, length: AbstractExpression)
        ensures
            final(self)@ == (X86Model {
                memory: old(self)@.memory.insert(
                    name@,
                    RegionModel { kind: ty, length: length@, content: fresh_content(length@) },
                ),
                memory_order: order_after_insert(old(self)@.memory_order, old(self)@.memory, name@),
                ..old(self)@
            }),
    {
        let r = MemorySafeRegion::new(length, ty);
        self.memory.insert(name, r);
    }

    fn store_exec(&mut self, region: String, address: i64, v: RegisterValue)
        ensures
            final(self)@ == (X86Model {
                memory: store_value(old(self)@.memory, region@, address, v@),
                memory_order: order_after_insert(old(self)@.memory_order, old(self)@.memory, region@),
                ..old(self)@
            }),
    {
        match self.memory.index_of(region.as_str()) {
            Some(i) => {
                let placeholder = MemorySafeRegion::new(AbstractExpression::Immediate(0), RegionType::RW);
                let ghost old_mem = self.memory@;
                let mut reg = self.memory.replace_at(i, placeholder);
                let ghost mid = self.memory@;
                reg.insert(address, v);
                let ghost newreg = reg@;
                let _ = self.memory.replace_at(i, reg);
                assert(self.memory@ == mid.insert(region@, newreg));
                assert(self.memory@ =~= old_mem.insert(region@, newreg));
            },
            None => {
                let mut m = MemorySafeRegion::new(AbstractExpression::Immediate(0), RegionType::RW);
                m.insert(address, v);
                assert(fresh_content(ExprModel::Immediate(0)) =~= Map::<i64, RegModel>::empty());
                self.memory.insert(region, m);
            },
        }
    }

    /// Stores the immediate `value` at byte `address` of `region`, creating
    /// the region (read-write, length 0) if needed.
    pub fn add_memory_value(&mut self, region: String, address: i64, value: i64)
        ensures
            final(self)@ == (X86Model {
                memory: store_value(old(self)@.memory, region@, address, imm_value(value)),
                memory_order: order_after_insert(old(self)@.memory_order, old(self)@.memory, region@),
                ..old(self)@
            }),
    {
        self.store_exec(region, address, RegisterValue::new(RegisterKind::Immediate, None, value));
    }

    /// Stores the abstract `value` at byte `address` of `region`, creating
    /// the region (read-write, length 0) if needed.
    pub fn add_memory_value_abstract(&mut self, region: String, address: i64, value: AbstractExpression)
        ensures
            final(self)@ == (X86Model {
                memory: store_value(
                    old(self)@.memory,
                    region@,
                    address,
                    rv_new_model(RegisterKind::RegisterBase, Some(value@), 0),
                ),
                memory_order: order_after_insert(old(self)@.memory_order, old(self)@.memory, region@),
                ..old(self)@
            }),
    {
        self.store_exec(region, address, RegisterValue::new(RegisterKind::RegisterBase, Some(value), 0));
    }

    /// Records that label `name` sits at address `offset`.
    pub fn add_memory_label(&mut self, name: String, offset: i64)
        ensures
            final(self)@ == (X86Model {
                labels: old(self)@.labels.insert(name@, offset),
                label_order: order_after_insert(old(self)@.label_order, old(self)@.labels, name@),
                ..old(self)@
            }),
    {
        self.memory_labels.insert(name, offset);
    }

    /// Records a relocation.
    pub fn add_relocation(&mut self, addr: i64, expr: AbstractExpression, size: usize)
        ensures
            final(self)@ == (X86Model {
                relocations: old(self)@.relocations.push(RelocModel { addr, expr: expr@, size }),
                ..old(self)@
            }),
    {
        let ghost e = expr@;
        self.relocations.push(Relocation { addr, expr, size });
        assert(relocs_view(self.relocations@) =~= relocs_view(old(self).relocations@).push(RelocModel { addr, expr: e, size }));
    }

    /// Hands back the recorded relocations and clears them.
    pub fn take_relocations(&mut self) -> (r: Vec<Relocation>)
        ensures
            relocs_view(r@) == old(self)@.relocations,
            final(self)@ == (X86Model { relocations: Seq::empty(), ..old(self)@ }),
    {
        let mut out: Vec<Relocation> = Vec::new();
        std::mem::swap(&mut out, &mut self.relocations);
        assert(relocs_view(self.relocations@) =~= Seq::<RelocModel>::empty());
        out
    }

    /// A copy of the machine with no asserted formulas.
    pub fn clone_shallow(&self) -> (r: Self)
        ensures
            r@ == shallow_clone(self@),
    {
        let mut relocations: Vec<Relocation> = Vec::new();
        let mut i: usize = 0;
        while i < self.relocations.len()
            invariant
                i <= self.relocations.len(),
                relocations@.len() == i,
                relocs_view(relocations@) == relocs_view(self.relocations@).take(i as int),
            decreases self.relocations.len() - i,
        {
            let c = self.relocations[i].clone();
            let ghost prev = relocations@;
            relocations.push(c);
            assert(relocs_view(relocations@) =~= relocs_view(prev).push(c@));
            i = i + 1;
            assert(relocs_view(relocations@) =~= relocs_view(self.relocations@).take(i as int));
        }
        assert(relocs_view(self.relocations@).take(i as int) =~= relocs_view(self.relocations@));
        let assertions: Vec<AbstractComparison> = Vec::new();
        assert(formulas_view(assertions@) =~= Seq::<CmpModel>::empty());
        X86Computer {
            registers: self.registers.dup_map(),
            simd_registers: self.simd_registers.dup_map(),
            memory: self.memory.dup_map(),
            memory_labels: self.memory_labels.dup_map(),
            relocations,
            assertions,
        }
    }
}

impl RegisterProvider for X86Computer {
    open spec fn register_model(&self, name: Seq<char>) -> RegModel {
        read_register(self.registers@, name)
    }

    fn get_register_value(&self, name: &str) -> (r: RegisterValue) {
        X86Computer::get_register_value(self, name)
    }
}


/// A canonical register name that reads back without aliasing.
pub open spec fn plain_register_name(k: Seq<char>) -> bool {
    &&& trim(k) == k
    &&& normalize_name(k) == k
    &&& !is_low8(k)
    &&& !is_low16(k)
    &&& !is_high8(k)
    &&& !ends_with(k, "b"@)
    &&& !ends_with(k, "w"@)
    &&& !ends_with(k, "d"@)
    &&& !starts_with(k, "e"@)
}

/// A name that starts with `r` and ends in neither whitespace nor an alias
/// suffix is its own canonical register, read and written without aliasing.
pub proof fn lemma_plain_r_name(n: Seq<char>)
    requires
        n.len() >= 2,
        n[0] == 'r',
        !is_ws(n[0]),
        !is_ws(n.last()),
        n.last() != 'd',
        n.last() != 'w',
        n.last() != 'b',
    ensures
        plain_register_name(n),
{
    reveal_strlit("r");
    reveal_strlit("e");
    reveal_strlit("b");
    reveal_strlit("w");
    reveal_strlit("d");
    assert(lead_ws(n) == 0);
    assert(n.skip(0) =~= n);
    assert(trail_ws(n) == 0);
    assert(n.take(n.len() as int) =~= n);
    assert(trim(n) == n);
    assert(n.take(1) =~= "r"@);
    assert(!starts_with(n, "e"@)) by {
        if starts_with(n, "e"@) {
            assert(n.take(1)[0] == n[0]);
        }
    }
    assert(!ends_with(n, "b"@) && !ends_with(n, "w"@) && !ends_with(n, "d"@)) by {
        if n.len() >= 1 {
            assert(n.skip(n.len() - 1)[0] == n.last());
        }
    }
    reveal_strlit("al");
    reveal_strlit("bl");
    reveal_strlit("cl");
    reveal_strlit("dl");
    reveal_strlit("sil");
    reveal_strlit("dil");
    reveal_strlit("spl");
    reveal_strlit("bpl");
    reveal_strlit("ax");
    reveal_strlit("bx");
    reveal_strlit("cx");
    reveal_strlit("dx");
    reveal_strlit("ah");
    reveal_strlit("bh");
    reveal_strlit("ch");
    reveal_strlit("dh");
}

/// Each of the sixteen general registers is a plain register name.
pub proof fn lemma_gp_names_plain(i: int)
    requires
        0 <= i < gp_names().len(),
    ensures
        plain_register_name(gp_names()[i]),
{
    reveal_strlit("rax");
    reveal_strlit("rbx");
    reveal_strlit("rcx");
    reveal_strlit("rdx");
    reveal_strlit("rsi");
    reveal_strlit("rdi");
    reveal_strlit("r8");
    reveal_strlit("r9");
    reveal_strlit("r10");
    reveal_strlit("r11");
    reveal_strlit("r12");
    reveal_strlit("r13");
    reveal_strlit("r14");
    reveal_strlit("r15");
    reveal_strlit("rsp");
    reveal_strlit("rbp");
    lemma_plain_r_name(gp_names()[i]);
}

/// Writing an immediate into a full register and reading it back gives
/// the immediate.
pub proof fn law_full_write_reads_back(regs: Map<Seq<char>, RegModel>, k: Seq<char>, v: i64)
    requires
        plain_register_name(k),
        regs.contains_key(k),
    ensures
        read_register(write_imm_model(regs, k, v), k) == imm_value(v),
{
}

/// Writing an immediate through a 32-bit alias (such as `eax`) zero-extends
/// it: the full register then reads as the low 32 bits of the value.
pub proof fn law_dword_write_zero_extends(regs: Map<Seq<char>, RegModel>, name: Seq<char>, v: i64)
    requires
        is_dword_alias(name),
        regs.contains_key(normalize_name(name)),
        plain_register_name(normalize_name(name)),
    ensures
        read_register(write_imm_model(regs, name, v), normalize_name(name)) == imm_value((v as u32) as i64),
{
}


fn is_low8_exec(w: &Vec<char>) -> (r: bool)
    ensures
        r == is_low8(w@),
{
    let n = w.len();
    assert(w@.subrange(0, n as int) =~= w@);
    seq_is(w, 0, n, "al") || seq_is(w, 0, n, "bl") || seq_is(w, 0, n, "cl") || seq_is(w, 0, n, "dl")
        || seq_is(w, 0, n, "sil") || seq_is(w, 0, n, "dil") || seq_is(w, 0, n, "spl") || seq_is(w, 0, n, "bpl")
}

fn is_low16_exec(w: &Vec<char>) -> (r: bool)
    ensures
        r == is_low16(w@),
{
    let n = w.len();
    assert(w@.subrange(0, n as int) =~= w@);
    seq_is(w, 0, n, "ax") || seq_is(w, 0, n, "bx") || seq_is(w, 0, n, "cx") || seq_is(w, 0, n, "dx")
}

fn is_high8_exec(w: &Vec<char>) -> (r: bool)
    ensures
        r == is_high8(w@),
{
    let n = w.len();
    assert(w@.subrange(0, n as int) =~= w@);
    seq_is(w, 0, n, "ah") || seq_is(w, 0, n, "bh") || seq_is(w, 0, n, "ch") || seq_is(w, 0, n, "dh")
}

fn high8_key_exec(w: &Vec<char>) -> (r: String)
    ensures
        r@ == high8_key(w@),
{
    let n = w.len();
    assert(w@.subrange(0, n as int) =~= w@);
    if seq_is(w, 0, n, "ah") {
        String::from_str("rax")
    } else if seq_is(w, 0, n, "bh") {
        String::from_str("rbx")
    } else if seq_is(w, 0, n, "ch") {
        String::from_str("rcx")
    } else {
        String::from_str("rdx")
    }
}

impl X86Computer {
    fn write_high8(&mut self, w: &Vec<char>)
        ensures
            final(self)@ == (X86Model { registers: write_high8_model(old(self)@.registers, w@), ..old(self)@ }),
    {
        let key = high8_key_exec(w);
        if self.registers.contains_key(key.as_str()) {
            self.registers.insert(key, RegisterValue::new(RegisterKind::Number, None, 0));
        }
    }
}

} // verus!
