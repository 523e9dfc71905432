//! Laying out data: addresses for labels and directives (from address 4 on),
//! then the bytes they put in the region `memory`, little-endian, with
//! label expressions resolved where possible and recorded as relocations
//! (and zero-filled) where not.
use vstd::prelude::*;
use crate::common::{AbstractExpression, ExprModel, RegModel, RegionModel, provider_regs, resolve, resolve_checked, resolve_fits, try_resolve_expr};
use crate::computer::{
    RelocModel, X86Computer, X86Model, data_start, imm_value, initial_registers, order_after_insert,
    read_register, store_value,
};
use crate::data::{DataDirective, DataItem, DataToken, DirectiveModel, ItemModel, TokenModel, data_tokens_view};
use crate::text::{chars_of, utf8_bytes, utf8_encode};

verus! {

/// Model of an `Emission`.
pub enum EmitModel {
    Bytes(i64, Seq<i64>),
    Expr(i64, ExprModel, usize),
}

/// Bytes to write at an address, or an expression to write there as `size`
/// little-endian bytes once labels are known.
#[derive(Debug)]
pub enum Emission {
    Bytes { addr: i64, bytes: Vec<i64> },
    Expr { addr: i64, expr: AbstractExpression, size: usize },
}

impl Emission {
    pub open spec fn view(&self) -> EmitModel {
        match self {
            Emission::Bytes { addr, bytes } => EmitModel::Bytes(*addr, bytes@),
            Emission::Expr { addr, expr, size } => EmitModel::Expr(*addr, expr@, *size),
        }
    }
}

pub open spec fn emissions_view(v: Seq<Emission>) -> Seq<EmitModel> {
    v.map_values(|e: Emission| e@)
}

/// Byte `i` (least significant first) of `u`.
pub open spec fn le_byte(u: u64, i: u64) -> i64 {
    ((u >> ((8 * i) as u64)) & 0xff) as i64
}

/// The low `n` bytes of `u`, least significant first.
pub open spec fn le_bytes(u: u64, n: nat) -> Seq<i64> {
    Seq::new(n, |i: int| le_byte(u, i as u64))
}

/// What the layout has built so far: the next address, the labels with
/// their addresses (and insertion order), and the emissions.
pub struct LayoutModel {
    pub address: int,
    pub labels: Map<Seq<char>, i64>,
    pub label_order: Seq<Seq<char>>,
    pub emissions: Seq<EmitModel>,
}

pub open spec fn layout_init() -> LayoutModel {
    LayoutModel { address: data_start() as int, labels: Map::empty(), label_order: Seq::empty(), emissions: Seq::empty() }
}

/// A label at the current address.
pub open spec fn layout_label(st: LayoutModel, l: Seq<char>) -> LayoutModel {
    LayoutModel {
        labels: st.labels.insert(l, st.address as i64),
        label_order: order_after_insert(st.label_order, st.labels, l),
        ..st
    }
}

/// The bytes of a number of width 1, 2, 4 or 8.
pub open spec fn number_bytes(n: i64, width: nat) -> Seq<i64> {
    if width == 1 {
        seq![n]
    } else if width == 2 {
        seq![n & 0xff, (n >> 8u32) & 0xff]
    } else {
        le_bytes(n as u64, width)
    }
}

pub open spec fn layout_token(st: LayoutModel, t: TokenModel, width: nat) -> LayoutModel {
    let a = st.address as i64;
    LayoutModel {
        address: st.address + width,
        emissions: st.emissions.push(
            match t {
                TokenModel::Num(n) => EmitModel::Bytes(a, number_bytes(n, width)),
                TokenModel::Expr(e) => EmitModel::Expr(a, e, width as usize),
            },
        ),
        ..st
    }
}

pub open spec fn layout_tokens(st: LayoutModel, ts: Seq<TokenModel>, width: nat) -> LayoutModel
    decreases ts.len(),
{
    if ts.len() == 0 {
        st
    } else {
        layout_token(layout_tokens(st, ts.drop_last(), width), ts.last(), width)
    }
}

/// The bytes of a string directive: its UTF-8 bytes, and a zero for `.asciz`.
pub open spec fn string_bytes(s: Seq<char>, zero: bool) -> Seq<i64> {
    let b = utf8_encode(s).map_values(|x: u8| x as i64);
    if zero {
        b.push(0)
    } else {
        b
    }
}

/// One data item of the layout.
pub open spec fn layout_item(st: LayoutModel, it: ItemModel) -> LayoutModel {
    match it {
        ItemModel::Label(l) => layout_label(st, l),
        ItemModel::Directive(d) => match d {
            DirectiveModel::Align(n) => if n > 0 && st.address % (n as int) != 0 {
                LayoutModel { address: st.address + n - st.address % (n as int), ..st }
            } else {
                st
            },
            DirectiveModel::Byte(ts) => layout_tokens(st, ts, 1),
            DirectiveModel::Long(ts) => layout_tokens(st, ts, 4),
            DirectiveModel::Quad(ts) => layout_tokens(st, ts, 8),
            DirectiveModel::Halfword(ts) => layout_tokens(st, ts, 2),
            DirectiveModel::StringLit(s, z) => {
                let b = string_bytes(s, z);
                if b.len() > 0 {
                    LayoutModel {
                        address: st.address + b.len(),
                        emissions: st.emissions.push(EmitModel::Bytes(st.address as i64, b)),
                        ..st
                    }
                } else {
                    st
                }
            },
            DirectiveModel::Globl(name) => layout_label(st, name),
            _ => st,
        },
    }
}

/// The layout of all items.
pub open spec fn layout_items(items: Seq<ItemModel>) -> LayoutModel
    decreases items.len(),
{
    if items.len() == 0 {
        layout_init()
    } else {
        layout_item(layout_items(items.drop_last()), items.last())
    }
}

/// Every address the layout reaches stays within `i64`.
pub open spec fn layout_fits(items: Seq<ItemModel>) -> bool
    decreases items.len(),
{
    if items.len() == 0 {
        true
    } else {
        layout_fits(items.drop_last()) && layout_items(items).address <= i64::MAX
    }
}

pub proof fn lemma_layout_tokens_address(st: LayoutModel, ts: Seq<TokenModel>, width: nat)
    ensures
        layout_tokens(st, ts, width).address == st.address + width * ts.len(),
        layout_tokens(st, ts, width).labels == st.labels,
        layout_tokens(st, ts, width).label_order == st.label_order,
    decreases ts.len(),
{
    if ts.len() > 0 {
        lemma_layout_tokens_address(st, ts.drop_last(), width);
        assert(width * (ts.len() - 1) + width == width * ts.len()) by (nonlinear_arith);
    }
}

/// The layout being built.
pub struct Layout {
    pub address: i64,
    pub labels: crate::strmap::StrMap<i64>,
    pub emissions: Vec<Emission>,
}

impl Layout {
    pub open spec fn view(&self) -> LayoutModel {
        LayoutModel {
            address: self.address as int,
            labels: self.labels@,
            label_order: self.labels.key_seq(),
            emissions: emissions_view(self.emissions@),
        }
    }

    fn push_emission(&mut self, e: Emission)
        ensures
            final(self)@ == (LayoutModel { emissions: old(self)@.emissions.push(e@), ..old(self)@ }),
    {
        let ghost ev = e@;
        self.emissions.push(e);
        assert(emissions_view(self.emissions@) =~= emissions_view(old(self).emissions@).push(ev));
    }

    fn label(&mut self, l: String)
        ensures
            final(self)@ == layout_label(old(self)@, l@),
    {
        let a = self.address;
        self.labels.insert(l, a);
    }

    fn token(&mut self, t: &DataToken, width: usize)
        requires
            width == 1 || width == 2 || width == 4 || width == 8,
            old(self).address + width <= i64::MAX,
        ensures
            final(self)@ == layout_token(old(self)@, t@, width as nat),
    {
        let a = self.address;
        let e = match t {
            DataToken::Num(n) => {
                let n = *n;
                let bytes: Vec<i64> = if width == 1 {
                    let v = vec![n];
                    assert(v@ =~= number_bytes(n, 1));
                    v
                } else if width == 2 {
                    let v = vec![n & 0xff, (n >> 8u32) & 0xff];
                    assert(v@ =~= number_bytes(n, 2));
                    v
                } else {
                    let u = n as u64;
                    let mut v: Vec<i64> = Vec::new();
                    let mut i: u64 = 0;
                    while i < width as u64
                        invariant
                            i <= width,
                            width == 4 || width == 8,
                            u == n as u64,
                            v@ == le_bytes(u, width as nat).take(i as int),
                        decreases width - i,
                    {
                        v.push(((u >> (8 * i)) & 0xff) as i64);
                        i = i + 1;
                        assert(v@ =~= le_bytes(u, width as nat).take(i as int));
                    }
                    assert(le_bytes(u, width as nat).take(i as int) =~= le_bytes(u, width as nat));
                    v
                };
                Emission::Bytes { addr: a, bytes }
            },
            DataToken::Expr(e) => Emission::Expr { addr: a, expr: crate::common::clone_expr(e), size: width },
        };
        self.push_emission(e);
        self.address = a + width as i64;
    }

    fn tokens(&mut self, ts: &Vec<DataToken>, width: usize)
        requires
            width == 1 || width == 2 || width == 4 || width == 8,
            layout_tokens(old(self)@, data_tokens_view(ts@), width as nat).address <= i64::MAX,
        ensures
            final(self)@ == layout_tokens(old(self)@, data_tokens_view(ts@), width as nat),
    {
        let ghost st0 = self@;
        let ghost tv = data_tokens_view(ts@);
        proof {
            lemma_layout_tokens_address(st0, tv, width as nat);
        }
        let mut i: usize = 0;
        assert(tv.take(0) =~= Seq::<TokenModel>::empty());
        while i < ts.len()
            invariant
                i <= ts@.len() == tv.len(),
                width == 1 || width == 2 || width == 4 || width == 8,
                tv == data_tokens_view(ts@),
                self@ == layout_tokens(st0, tv.take(i as int), width as nat),
                st0.address + width * tv.len() <= i64::MAX,
            decreases ts@.len() - i,
        {
            proof {
                lemma_layout_tokens_address(st0, tv.take(i as int), width as nat);
                assert(width * i + width <= width * tv.len()) by (nonlinear_arith)
                    requires i < tv.len();
                assert(tv.take(i + 1).drop_last() =~= tv.take(i as int));
                assert(tv.take(i + 1).last() == ts@[i as int]@);
            }
            self.token(&ts[i], width);
            i = i + 1;
        }
        assert(tv.take(i as int) =~= tv);
    }

    /// Lays out one data item.
    fn item(&mut self, it: &DataItem)
        requires
            layout_item(old(self)@, it@).address <= i64::MAX,
            old(self).address >= 0,
        ensures
            final(self)@ == layout_item(old(self)@, it@),
    {
        match it {
            DataItem::Label(l) => self.label(l.clone()),
            DataItem::Directive(d) => match d {
                DataDirective::Align(n) => {
                    let n = *n;
                    if n > 0 {
                        let rem = self.address % n;
                        if rem != 0 {
                            self.address = self.address + (n - rem);
                        }
                    }
                },
                DataDirective::Byte(ts) => self.tokens(ts, 1),
                DataDirective::Long(ts) => self.tokens(ts, 4),
                DataDirective::Quad(ts) => self.tokens(ts, 8),
                DataDirective::Halfword(ts) => self.tokens(ts, 2),
                DataDirective::StringLit(s, z) => {
                    let cv = chars_of(s.as_str());
                    let raw = utf8_bytes(&cv);
                    let mut bytes: Vec<i64> = Vec::new();
                    let mut i: usize = 0;
                    while i < raw.len()
                        invariant
                            i <= raw@.len(),
                            bytes@ == raw@.take(i as int).map_values(|x: u8| x as i64),
                        decreases raw@.len() - i,
                    {
                        bytes.push(raw[i] as i64);
                        i = i + 1;
                        assert(bytes@ =~= raw@.take(i as int).map_values(|x: u8| x as i64));
                    }
                    assert(raw@.take(i as int) =~= raw@);
                    if *z {
                        bytes.push(0);
                    }
                    assert(bytes@ =~= string_bytes(s@, *z));
                    if bytes.len() > 0 {
                        let a = self.address;
                        let n = bytes.len() as i64;
                        self.push_emission(Emission::Bytes { addr: a, bytes });
                        self.address = a + n;
                    }
                },
                DataDirective::Globl(name) => self.label(name.clone()),
                _ => {},
            },
        }
    }
}

/// The items of a list of data definitions: each line that reads as one.
pub open spec fn items_of(defs: Seq<Seq<char>>) -> Seq<ItemModel>
    decreases defs.len(),
{
    if defs.len() == 0 {
        Seq::empty()
    } else {
        items_of(defs.drop_last()) + match crate::data::data_def(defs.last()) {
            Some(it) => seq![it],
            None => Seq::empty(),
        }
    }
}

pub proof fn lemma_layout_address_nonneg(items: Seq<ItemModel>)
    ensures
        layout_items(items).address >= 4,
    decreases items.len(),
{
    if items.len() > 0 {
        lemma_layout_address_nonneg(items.drop_last());
        let st = layout_items(items.drop_last());
        match items.last() {
            ItemModel::Directive(DirectiveModel::Byte(ts)) => lemma_layout_tokens_address(st, ts, 1),
            ItemModel::Directive(DirectiveModel::Long(ts)) => lemma_layout_tokens_address(st, ts, 4),
            ItemModel::Directive(DirectiveModel::Quad(ts)) => lemma_layout_tokens_address(st, ts, 8),
            ItemModel::Directive(DirectiveModel::Halfword(ts)) => lemma_layout_tokens_address(st, ts, 2),
            ItemModel::Directive(DirectiveModel::Align(n)) => {
                if n > 0 {
                    assert(st.address % (n as int) < n);
                }
            },
            _ => {},
        }
    }
}

/// Lays out the data items: label addresses and emissions.
pub fn layout_data(items: &Vec<DataItem>) -> (r: Layout)
    requires
        layout_fits(items@.map_values(|i: DataItem| i@)),
    ensures
        r@ == layout_items(items@.map_values(|i: DataItem| i@)),
{
    let ghost iv = items@.map_values(|i: DataItem| i@);
    let mut st = Layout { address: 4, labels: crate::strmap::StrMap::new(), emissions: Vec::new() };
    assert(emissions_view(st.emissions@) =~= Seq::<EmitModel>::empty());
    assert(iv.take(0) =~= Seq::<ItemModel>::empty());
    let mut i: usize = 0;
    while i < items.len()
        invariant
            i <= items@.len() == iv.len(),
            iv == items@.map_values(|i: DataItem| i@),
            layout_fits(iv),
            st@ == layout_items(iv.take(i as int)),
        decreases items@.len() - i,
    {
        proof {
            assert(iv.take(i + 1).drop_last() =~= iv.take(i as int));
            assert(iv.take(i + 1).last() == items@[i as int]@);
            lemma_layout_fits_prefix(iv, i + 1);
            lemma_layout_address_nonneg(iv.take(i as int));
        }
        st.item(&items[i]);
        i = i + 1;
    }
    assert(iv.take(i as int) =~= iv);
    st
}

pub proof fn lemma_layout_fits_prefix(items: Seq<ItemModel>, k: int)
    requires
        0 <= k <= items.len(),
        layout_fits(items),
    ensures
        layout_fits(items.take(k)),
        k > 0 ==> layout_items(items.take(k)).address <= i64::MAX,
    decreases items.len(),
{
    if k < items.len() {
        assert(items.drop_last().take(k) =~= items.take(k));
        lemma_layout_fits_prefix(items.drop_last(), k);
    } else {
        assert(items.take(k) =~= items);
    }
}

/// Stores the immediate `v` at address `a` of the region `memory`.
pub open spec fn store_one(m: X86Model, a: i64, v: i64) -> X86Model {
    X86Model {
        memory: store_value(m.memory, "memory"@, a, imm_value(v)),
        memory_order: order_after_insert(m.memory_order, m.memory, "memory"@),
        ..m
    }
}

/// Stores `bs` at consecutive addresses from `addr` on.
pub open spec fn store_seq(m: X86Model, addr: i64, bs: Seq<i64>) -> X86Model
    decreases bs.len(),
{
    if bs.len() == 0 {
        m
    } else {
        store_one(store_seq(m, addr, bs.drop_last()), (addr + bs.len() - 1) as i64, bs.last())
    }
}

/// The registers of a freshly loaded machine, as a function of names.
pub open spec fn load_regs() -> spec_fn(Seq<char>) -> RegModel {
    |n: Seq<char>| read_register(initial_registers(), n)
}

/// Writes one emission: bytes as they are; an expression as the
/// little-endian bytes of its value, or, when labels cannot resolve it, as
/// zeros plus a relocation.
pub open spec fn fill_emission(m: X86Model, em: EmitModel) -> X86Model {
    match em {
        EmitModel::Bytes(a, bs) => store_seq(m, a, bs),
        EmitModel::Expr(a, e, size) => match resolve(e, m.labels, load_regs()) {
            Some(v) => store_seq(m, a, le_bytes(v as i64 as u64, size as nat)),
            None => {
                let m2 = store_seq(m, a, Seq::new(size as nat, |i: int| 0i64));
                X86Model { relocations: m2.relocations.push(RelocModel { addr: a, expr: e, size }), ..m2 }
            },
        },
    }
}

pub open spec fn fill_all(m: X86Model, ems: Seq<EmitModel>) -> X86Model
    decreases ems.len(),
{
    if ems.len() == 0 {
        m
    } else {
        fill_emission(fill_all(m, ems.drop_last()), ems.last())
    }
}

pub open spec fn emission_len(em: EmitModel) -> int {
    match em {
        EmitModel::Bytes(_, bs) => bs.len() as int,
        EmitModel::Expr(_, _, size) => size as int,
    }
}

pub open spec fn emission_addr(em: EmitModel) -> i64 {
    match em {
        EmitModel::Bytes(a, _) => a,
        EmitModel::Expr(a, _, _) => a,
    }
}

/// The emissions can be written without a fault: addresses stay within
/// `i64`, sizes are at most 8, and label expressions resolve without
/// overflow.
pub open spec fn fill_ok(labels: Map<Seq<char>, i64>, ems: Seq<EmitModel>) -> bool {
    forall|i: int| 0 <= i < ems.len() ==> {
        &&& emission_addr(#[trigger] ems[i]) + emission_len(ems[i]) <= i64::MAX
        &&& emission_addr(ems[i]) >= 0
        &&& ems[i] matches EmitModel::Expr(_, e, size) ==> resolve_fits(e, labels, load_regs()) && size <= 8
    }
}

proof fn lemma_store_seq_labels(m: X86Model, addr: i64, bs: Seq<i64>)
    ensures
        store_seq(m, addr, bs).labels == m.labels,
        store_seq(m, addr, bs).registers == m.registers,
        store_seq(m, addr, bs).relocations == m.relocations,
    decreases bs.len(),
{
    if bs.len() > 0 {
        lemma_store_seq_labels(m, addr, bs.drop_last());
    }
}

fn store_bytes(comp: &mut X86Computer, addr: i64, bs: &Vec<i64>)
    requires
        addr + bs@.len() <= i64::MAX,
        addr >= 0,
    ensures
        final(comp)@ == store_seq(old(comp)@, addr, bs@),
{
    let ghost m0 = comp@;
    let mut i: usize = 0;
    assert(bs@.take(0) =~= Seq::<i64>::empty());
    while i < bs.len()
        invariant
            i <= bs@.len(),
            addr + bs@.len() <= i64::MAX,
            addr >= 0,
            comp@ == store_seq(m0, addr, bs@.take(i as int)),
        decreases bs@.len() - i,
    {
        proof {
            assert(bs@.take(i + 1).drop_last() =~= bs@.take(i as int));
            assert(bs@.take(i + 1).last() == bs@[i as int]);
        }
        comp.add_memory_value(String::from_str("memory"), addr + i as i64, bs[i]);
        proof {
            reveal_strlit("memory");
        }
        i = i + 1;
    }
    assert(bs@.take(i as int) =~= bs@);
}

/// Writes all emissions into the machine's memory, in order.
pub fn fill_memory(comp: &mut X86Computer, ems: &Vec<Emission>)
    requires
        old(comp)@.registers == initial_registers(),
        fill_ok(old(comp)@.labels, emissions_view(ems@)),
    ensures
        final(comp)@ == fill_all(old(comp)@, emissions_view(ems@)),
{
    let ghost ev = emissions_view(ems@);
    let ghost m0 = comp@;
    let mut k: usize = 0;
    assert(ev.take(0) =~= Seq::<EmitModel>::empty());
    while k < ems.len()
        invariant
            k <= ems@.len() == ev.len(),
            ev == emissions_view(ems@),
            comp@ == fill_all(m0, ev.take(k as int)),
            comp@.registers == initial_registers(),
            comp@.labels == m0.labels,
            fill_ok(m0.labels, ev),
        decreases ems@.len() - k,
    {
        proof {
            assert(ev.take(k + 1).drop_last() =~= ev.take(k as int));
            assert(ev.take(k + 1).last() == ems@[k as int]@);
            assert(ev[k as int] == ems@[k as int]@);
        }
        let ghost before = comp@;
        match &ems[k] {
            Emission::Bytes { addr, bytes } => {
                store_bytes(comp, *addr, bytes);
                proof {
                    lemma_store_seq_labels(before, *addr, bytes@);
                }
            },
            Emission::Expr { addr, expr, size } => {
                assert(provider_regs(*comp) =~= load_regs());
                let resolved = try_resolve_expr(expr, &comp.memory_labels, &*comp);
                match resolved {
                    Some(val) => {
                        let u = val as u64;
                        let mut bs: Vec<i64> = Vec::new();
                        let mut i: u64 = 0;
                        while i < *size as u64
                            invariant
                                i <= *size <= 8,
                                bs@ == le_bytes(u, *size as nat).take(i as int),
                            decreases *size - i,
                        {
                            bs.push(((u >> (8 * i)) & 0xff) as i64);
                            i = i + 1;
                            assert(bs@ =~= le_bytes(u, *size as nat).take(i as int));
                        }
                        assert(le_bytes(u, *size as nat).take(i as int) =~= le_bytes(u, *size as nat));
                        store_bytes(comp, *addr, &bs);
                        proof {
                            lemma_store_seq_labels(before, *addr, bs@);
                        }
                    },
                    None => {
                        let mut zs: Vec<i64> = Vec::new();
                        let mut i: usize = 0;
                        while i < *size
                            invariant
                                i <= *size,
                                zs@ == Seq::new(*size as nat, |j: int| 0i64).take(i as int),
                            decreases *size - i,
                        {
                            zs.push(0);
                            i = i + 1;
                            assert(zs@ =~= Seq::new(*size as nat, |j: int| 0i64).take(i as int));
                        }
                        assert(Seq::new(*size as nat, |j: int| 0i64).take(i as int) =~= Seq::new(*size as nat, |j: int| 0i64));
                        store_bytes(comp, *addr, &zs);
                        proof {
                            lemma_store_seq_labels(before, *addr, zs@);
                        }
                        comp.add_relocation(*addr, crate::common::clone_expr(expr), *size);
                    },
                }
            },
        }
        k = k + 1;
    }
    assert(ev.take(k as int) =~= ev);
}


/// The address after one item, from the address before it.
pub open spec fn next_address(a: int, it: ItemModel) -> int {
    match it {
        ItemModel::Directive(d) => match d {
            DirectiveModel::Align(n) => if n > 0 && a % (n as int) != 0 {
                a + n - a % (n as int)
            } else {
                a
            },
            DirectiveModel::Byte(ts) => a + ts.len(),
            DirectiveModel::Long(ts) => a + 4 * ts.len(),
            DirectiveModel::Quad(ts) => a + 8 * ts.len(),
            DirectiveModel::Halfword(ts) => a + 2 * ts.len(),
            DirectiveModel::StringLit(s, z) => a + string_bytes(s, z).len(),
            _ => a,
        },
        _ => a,
    }
}

proof fn lemma_next_address(st: LayoutModel, it: ItemModel)
    ensures
        layout_item(st, it).address == next_address(st.address, it),
{
    match it {
        ItemModel::Directive(DirectiveModel::Byte(ts)) => lemma_layout_tokens_address(st, ts, 1),
        ItemModel::Directive(DirectiveModel::Long(ts)) => lemma_layout_tokens_address(st, ts, 4),
        ItemModel::Directive(DirectiveModel::Quad(ts)) => lemma_layout_tokens_address(st, ts, 8),
        ItemModel::Directive(DirectiveModel::Halfword(ts)) => lemma_layout_tokens_address(st, ts, 2),
        _ => {},
    }
}

/// The address after `it`, from an address `a` with `4 <= a <= i64::MAX`.
fn next_address_exec(a: i128, it: &DataItem) -> (r: i128)
    requires
        4 <= a <= i64::MAX,
    ensures
        r == next_address(a as int, it@),
{
    match it {
        DataItem::Directive(d) => match d {
            DataDirective::Align(n) => {
                if *n > 0 {
                    let rem = a % (*n as i128);
                    if rem != 0 {
                        return a + (*n as i128 - rem);
                    }
                }
                a
            },
            DataDirective::Byte(ts) => a + ts.len() as i128,
            DataDirective::Long(ts) => a + 4 * (ts.len() as i128),
            DataDirective::Quad(ts) => a + 8 * (ts.len() as i128),
            DataDirective::Halfword(ts) => a + 2 * (ts.len() as i128),
            DataDirective::StringLit(s, z) => {
                let cv = chars_of(s.as_str());
                let raw = utf8_bytes(&cv);
                assert(string_bytes(s@, *z).len() == raw@.len() + if *z { 1int } else { 0int });
                if *z {
                    a + raw.len() as i128 + 1
                } else {
                    a + raw.len() as i128
                }
            },
            _ => a,
        },
        _ => a,
    }
}

/// Whether every address the layout of `items` reaches stays within `i64`.
pub fn layout_fits_exec(items: &Vec<DataItem>) -> (r: bool)
    ensures
        r == layout_fits(items@.map_values(|i: DataItem| i@)),
{
    let ghost iv = items@.map_values(|i: DataItem| i@);
    let mut a: i128 = 4;
    let mut i: usize = 0;
    assert(iv.take(0) =~= Seq::<ItemModel>::empty());
    while i < items.len()
        invariant
            i <= items@.len() == iv.len(),
            iv == items@.map_values(|i: DataItem| i@),
            4 <= a <= i64::MAX,
            a == layout_items(iv.take(i as int)).address,
            layout_fits(iv.take(i as int)),
        decreases items@.len() - i,
    {
        let ghost st = layout_items(iv.take(i as int));
        proof {
            assert(iv.take(i + 1).drop_last() =~= iv.take(i as int));
            assert(iv.take(i + 1).last() == items@[i as int]@);
            lemma_next_address(st, items@[i as int]@);
            lemma_layout_address_nonneg(iv.take(i + 1));
        }
        let n = next_address_exec(a, &items[i]);
        if n > i64::MAX as i128 {
            proof {
                if layout_fits(iv) {
                    lemma_layout_fits_prefix(iv, i + 1);
                }
            }
            return false;
        }
        a = n;
        i = i + 1;
    }
    assert(iv.take(i as int) =~= iv);
    true
}

/// Whether the emissions can be written into `comp` without a fault.
pub fn fill_ok_exec(comp: &X86Computer, ems: &Vec<Emission>) -> (r: bool)
    requires
        comp@.registers == initial_registers(),
    ensures
        r == fill_ok(comp@.labels, emissions_view(ems@)),
{
    let ghost ev = emissions_view(ems@);
    assert(provider_regs(*comp) =~= load_regs());
    let mut k: usize = 0;
    while k < ems.len()
        invariant
            k <= ems@.len() == ev.len(),
            ev == emissions_view(ems@),
            provider_regs(*comp) == load_regs(),
            forall|i: int| 0 <= i < k ==> {
                &&& emission_addr(#[trigger] ev[i]) + emission_len(ev[i]) <= i64::MAX
                &&& emission_addr(ev[i]) >= 0
                &&& ev[i] matches EmitModel::Expr(_, e, size) ==> resolve_fits(e, comp@.labels, load_regs()) && size <= 8
            },
        decreases ems@.len() - k,
    {
        assert(ev[k as int] == ems@[k as int]@);
        let good = match &ems[k] {
            Emission::Bytes { addr, bytes } => *addr >= 0 && (*addr as i128) + (bytes.len() as i128) <= i64::MAX as i128,
            Emission::Expr { addr, expr, size } => {
                let (fits, _) = resolve_checked(expr, &comp.memory_labels, comp);
                *addr >= 0 && (*addr as i128) + (*size as i128) <= i64::MAX as i128 && fits && *size <= 8
            },
        };
        if !good {
            return false;
        }
        k = k + 1;
    }
    true
}


/// `.align n` rounds the address up to the next multiple of `n`: the new
/// address is a multiple of `n`, not below the old one, and less than `n`
/// beyond it.
pub proof fn law_align_rounds_up(a: int, n: i64)
    requires
        a >= 0,
        n > 0,
    ensures
        next_address(a, ItemModel::Directive(DirectiveModel::Align(n))) % (n as int) == 0,
        a <= next_address(a, ItemModel::Directive(DirectiveModel::Align(n))) < a + n,
{
    let r = a % (n as int);
    if r != 0 {
        let q = a / (n as int);
        vstd::arithmetic::div_mod::lemma_fundamental_div_mod(a, n as int);
        assert(a + n - r == (q + 1) * (n as int)) by (nonlinear_arith)
            requires
                a == (n as int) * q + r;
        vstd::arithmetic::div_mod::lemma_mod_multiples_basic(q + 1, n as int);
    }
}

/// The little-endian bytes of a 64-bit number put back together give the
/// number.
pub proof fn law_le_bytes_recombine(u: u64)
    ensures
        (le_byte(u, 0) as u64) | ((le_byte(u, 1) as u64) << 8u64) | ((le_byte(u, 2) as u64) << 16u64)
            | ((le_byte(u, 3) as u64) << 24u64) | ((le_byte(u, 4) as u64) << 32u64) | ((le_byte(u, 5) as u64)
            << 40u64) | ((le_byte(u, 6) as u64) << 48u64) | ((le_byte(u, 7) as u64) << 56u64) == u,
{
    assert(((u >> 0u64) & 0xff) | (((u >> 8u64) & 0xff) << 8u64) | (((u >> 16u64) & 0xff) << 16u64) | (((u
        >> 24u64) & 0xff) << 24u64) | (((u >> 32u64) & 0xff) << 32u64) | (((u >> 40u64) & 0xff) << 40u64) | (((u
        >> 48u64) & 0xff) << 48u64) | (((u >> 56u64) & 0xff) << 56u64) == u) by (bit_vector);
    assert forall|i: u64| i < 8 implies (le_byte(u, i) as u64) == (u >> ((8 * i) as u64)) & 0xff by {
        let x = (u >> ((8 * i) as u64)) & 0xff;
        assert(x <= 0xff) by (bit_vector)
            requires x == (u >> ((8 * i) as u64)) & 0xff;
    }
    assert(le_byte(u, 0) as u64 == (u >> 0u64) & 0xff);
    assert(le_byte(u, 1) as u64 == (u >> 8u64) & 0xff);
    assert(le_byte(u, 2) as u64 == (u >> 16u64) & 0xff);
    assert(le_byte(u, 3) as u64 == (u >> 24u64) & 0xff);
    assert(le_byte(u, 4) as u64 == (u >> 32u64) & 0xff);
    assert(le_byte(u, 5) as u64 == (u >> 40u64) & 0xff);
    assert(le_byte(u, 6) as u64 == (u >> 48u64) & 0xff);
    assert(le_byte(u, 7) as u64 == (u >> 56u64) & 0xff);
}

/// What a read gives back of a write: after storing bytes from `addr` on,
/// the region `memory` holds byte `i` at `addr + i` as an immediate.
pub proof fn law_stored_bytes_read_back(m: X86Model, addr: i64, bs: Seq<i64>, i: int)
    requires
        0 <= i < bs.len(),
        addr >= 0,
        addr + bs.len() <= i64::MAX,
    ensures
        store_seq(m, addr, bs).memory.contains_key("memory"@),
        store_seq(m, addr, bs).memory["memory"@].content.contains_key((addr + i) as i64),
        store_seq(m, addr, bs).memory["memory"@].content[(addr + i) as i64] == imm_value(bs[i]),
    decreases bs.len(),
{
    if i < bs.len() - 1 {
        law_stored_bytes_read_back(m, addr, bs.drop_last(), i);
        assert(bs.drop_last()[i] == bs[i]);
    }
}


/// An expression whose labels are not all known is written as zero bytes
/// at its address, and recorded as a relocation.
pub proof fn law_unresolved_expression_writes_zeros(m: X86Model, a: i64, e: ExprModel, size: usize, i: int)
    requires
        resolve(e, m.labels, load_regs()) is None,
        0 <= i < size,
        a >= 0,
        a + size <= i64::MAX,
    ensures
        fill_emission(m, EmitModel::Expr(a, e, size)).memory["memory"@].content[(a + i) as i64] == imm_value(0),
        fill_emission(m, EmitModel::Expr(a, e, size)).relocations == m.relocations.push(RelocModel { addr: a, expr: e, size }),
{
    let zs = Seq::new(size as nat, |j: int| 0i64);
    law_stored_bytes_read_back(m, a, zs, i);
    lemma_store_seq_labels(m, a, zs);
}

/// An expression whose labels are all known (also labels defined further
/// down the file) is written as the little-endian bytes of its value.
pub proof fn law_resolved_expression_writes_value(m: X86Model, a: i64, e: ExprModel, size: usize, v: int, i: int)
    requires
        resolve(e, m.labels, load_regs()) == Some(v),
        0 <= i < size,
        a >= 0,
        a + size <= i64::MAX,
    ensures
        fill_emission(m, EmitModel::Expr(a, e, size)).memory["memory"@].content[(a + i) as i64] == imm_value(
            le_byte(v as i64 as u64, i as u64),
        ),
        fill_emission(m, EmitModel::Expr(a, e, size)).relocations == m.relocations,
{
    let bs = le_bytes(v as i64 as u64, size as nat);
    law_stored_bytes_read_back(m, a, bs, i);
    lemma_store_seq_labels(m, a, bs);
}


/// Digit `i` of `n` in base 256, least significant first.
pub open spec fn base256_digit(n: int, i: nat) -> int
    decreases i,
{
    if i == 0 {
        n % 256
    } else {
        base256_digit(n / 256, (i - 1) as nat)
    }
}

proof fn lemma_le_byte_digit(u: u64, i: u64)
    requires
        i < 8,
    ensures
        le_byte(u, i) as int == base256_digit(u as int, i as nat),
    decreases i,
{
    let sh: u64 = (8 * i) as u64;
    let b: u64 = (u >> sh) & 0xff;
    assert(b <= 0xff) by (bit_vector)
        requires
            b == (u >> sh) & 0xff,
    ;
    assert(le_byte(u, i) as int == b as int);
    if i == 0 {
        assert(b == u % 256) by (bit_vector)
            requires
                b == (u >> sh) & 0xff,
                sh == 0u64,
        ;
    } else {
        let w: u64 = u >> 8u64;
        assert(w == u / 256) by (bit_vector)
            requires
                w == u >> 8u64,
        ;
        lemma_le_byte_digit(w, (i - 1) as u64);
        let sh2: u64 = (8 * (i - 1)) as u64;
        assert(sh == sh2 + 8 && sh2 < 56);
        assert(b == (w >> sh2) & 0xff) by (bit_vector)
            requires
                b == (u >> sh) & 0xff,
                w == u >> 8u64,
                sh == sh2 + 8,
                sh2 < 56u64,
        ;
    }
}

/// `.byte n` stores the number as written: the region `memory` then holds
/// the immediate `n` at the byte's address.
pub proof fn law_byte_stores_number(st: LayoutModel, n: i64, m: X86Model)
    requires
        0 <= st.address,
        st.address + 1 <= i64::MAX,
    ensures
        ({
            let em = layout_token(st, TokenModel::Num(n), 1).emissions.last();
            &&& em is Bytes
            &&& fill_emission(m, em).memory["memory"@].content[st.address as i64] == imm_value(n)
        }),
{
    law_stored_bytes_read_back(m, st.address as i64, number_bytes(n, 1), 0);
}

/// A nonnegative number written with `.byte` (below 256), `.hword`,
/// `.long` or `.quad` is stored little-endian: the byte at the address
/// plus `i` is digit `i` of the number in base 256.
pub proof fn law_number_stored_little_endian(st: LayoutModel, n: i64, width: nat, m: X86Model, i: int)
    requires
        width == 1 || width == 2 || width == 4 || width == 8,
        0 <= n,
        width == 1 ==> n < 256,
        0 <= i < width,
        0 <= st.address,
        st.address + width <= i64::MAX,
    ensures
        ({
            let em = layout_token(st, TokenModel::Num(n), width).emissions.last();
            &&& em is Bytes
            &&& em->Bytes_0 == st.address as i64
            &&& em->Bytes_1.len() == width
            &&& fill_emission(m, em).memory["memory"@].content[(st.address + i) as i64] == imm_value(
                base256_digit(n as int, i as nat) as i64,
            )
        }),
{
    let bs = number_bytes(n, width);
    if width == 1 {
        assert(base256_digit(n as int, 0) == n % 256);
    } else if width == 2 {
        let u = n as u64;
        assert(u as int == n as int);
        assert((n & 0xff) == (u & 0xff) as i64 && ((n >> 8u32) & 0xff) == ((u >> 8u64) & 0xff) as i64) by (bit_vector)
            requires
                u == n as u64,
        ;
        lemma_le_byte_digit(u, i as u64);
        assert(le_byte(u, 0) == (u & 0xff) as i64) by {
            assert((u >> 0u64) == u) by (bit_vector);
        }
        assert(bs[i] == le_byte(u, i as u64));
    } else {
        let u = n as u64;
        assert(u as int == n as int);
        lemma_le_byte_digit(u, i as u64);
        assert(bs[i] == le_byte(u, i as u64));
    }
    law_stored_bytes_read_back(m, st.address as i64, bs, i);
}

} // verus!
