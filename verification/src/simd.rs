//! A 128-bit vector register held byte by byte: each byte has an optional
//! symbolic base and a concrete value.
use vstd::prelude::*;
use crate::arm::Arrangement;
use crate::common::{
    AbstractExpression, ExprModel, RegModel, RegisterKind, RegisterValue, clone_expr, clone_opt_expr,
    expr_from_options_model, generate_expression, generate_expression_from_options, opt_expr_view,
};
use crate::text::{int_text, push_int_text, push_str, string_from_chars};

verus! {

/// Model of a `SimdRegister`: the kind, and per byte a base and a value.
pub struct SimdModel {
    pub kind: RegisterKind,
    pub base: Seq<Option<ExprModel>>,
    pub offset: Seq<u8>,
}

/// A vector register, byte 0 first.
#[derive(Debug)]
pub struct SimdRegister {
    pub kind: RegisterKind,
    pub base: [Option<AbstractExpression>; 16],
    pub offset: [u8; 16],
}

pub open spec fn bases_view(b: Seq<Option<AbstractExpression>>) -> Seq<Option<ExprModel>> {
    b.map_values(|o: Option<AbstractExpression>| opt_expr_view(o))
}

/// `old` with the elements of `new` written from position `pos` on.
pub open spec fn lane_write<A>(old: Seq<A>, pos: int, new: Seq<A>) -> Seq<A> {
    old.subrange(0, pos) + new + old.subrange(pos + new.len(), old.len() as int)
}

/// 256 to the power `k`, for `k` up to 8.
pub open spec fn weight(k: int) -> int {
    if k <= 0 {
        1
    } else if k == 1 {
        0x100
    } else if k == 2 {
        0x1_0000
    } else if k == 3 {
        0x100_0000
    } else if k == 4 {
        0x1_0000_0000
    } else if k == 5 {
        0x100_0000_0000
    } else if k == 6 {
        0x1_0000_0000_0000
    } else if k == 7 {
        0x100_0000_0000_0000
    } else {
        0x1_0000_0000_0000_0000
    }
}

/// Byte `k` (most significant first) of the low `width` bytes of `v`.
pub open spec fn be_byte(v: int, width: int, k: int) -> u8 {
    (((v % weight(width)) / weight(width - 1 - k)) % 256) as u8
}

/// Sixteen bytes made of `v`'s low `width` bytes, big-endian, repeated.
pub open spec fn repeated_be(v: int, width: int) -> Seq<u8> {
    Seq::new(16, |j: int| be_byte(v, width, j % width))
}

/// The big-endian unsigned value of a byte sequence.
pub open spec fn be_value(s: Seq<u8>) -> int
    decreases s.len(),
{
    if s.len() == 0 {
        0
    } else {
        be_value(s.drop_last()) * 256 + s.last() as int
    }
}

/// The `i64` whose two's complement bytes, big-endian, are `s` (eight bytes).
pub open spec fn be_i64(s: Seq<u8>) -> i64 {
    let u = be_value(s);
    if u < 0x8000_0000_0000_0000 {
        u as i64
    } else {
        (u - 0x1_0000_0000_0000_0000) as i64
    }
}

/// Bases `lo .. lo + n` paired up into a balanced tree of `,` expressions.
pub open spec fn base_tree(b: Seq<Option<ExprModel>>, lo: int, n: int) -> Option<ExprModel>
    decreases n,
{
    if n <= 1 {
        b[lo]
    } else {
        expr_from_options_model(","@, base_tree(b, lo, n / 2), base_tree(b, lo + n / 2, n / 2))
    }
}

/// The name a byte lane gets in a `B8`/`B16` broadcast: arrangement and index.
pub open spec fn arrangement_name(a: Arrangement) -> Seq<char> {
    match a {
        Arrangement::B8 => "B8"@,
        Arrangement::B16 => "B16"@,
        Arrangement::H4 => "H4"@,
        Arrangement::H8 => "H8"@,
        Arrangement::S2 => "S2"@,
        Arrangement::S4 => "S4"@,
        Arrangement::D1 => "D1"@,
        Arrangement::D2 => "D2"@,
        Arrangement::B => "B"@,
        Arrangement::H => "H"@,
        Arrangement::S => "S"@,
        Arrangement::D => "D"@,
    }
}

/// The arrangements `set_from_register` handles.
pub open spec fn arrangement_supported(a: Arrangement) -> bool {
    a == Arrangement::B16 || a == Arrangement::B8 || a == Arrangement::H8 || a == Arrangement::S4
        || a == Arrangement::D2 || a == Arrangement::S || a == Arrangement::D
}

/// The base of byte `i` in a byte broadcast of `b`: `name_i & b`.
pub open spec fn lane_base(a: Arrangement, i: int, b: ExprModel) -> ExprModel {
    ExprModel::Expression(
        "&"@,
        Box::new(ExprModel::Abstract(arrangement_name(a) + int_text(i))),
        Box::new(b),
    )
}

/// Model of `set_from_register`.
pub open spec fn set_from_register_model(
    old: SimdModel,
    a: Arrangement,
    kind: RegisterKind,
    base: Option<ExprModel>,
    offset: u128,
) -> SimdModel {
    let nones = Seq::new(16, |j: int| None::<ExprModel>);
    if a == Arrangement::B16 || a == Arrangement::B8 {
        SimdModel {
            kind,
            base: match base {
                Some(b) => Seq::new(16, |j: int| if j < 15 { Some(lane_base(a, j, b)) } else { old.base[15] }),
                None => nones,
            },
            offset: repeated_be(offset as int, 1),
        }
    } else if a == Arrangement::H8 {
        SimdModel { kind, base: nones, offset: repeated_be(offset as int, 2) }
    } else if a == Arrangement::S4 {
        SimdModel { kind, base: nones, offset: repeated_be(offset as int, 4) }
    } else if a == Arrangement::D2 {
        SimdModel { kind, base: nones, offset: repeated_be(offset as int, 8) }
    } else if a == Arrangement::S {
        SimdModel {
            kind,
            base: lane_write(old.base, 0, nones.take(4)),
            offset: lane_write(old.offset, 0, repeated_be(offset as int, 4).take(4)),
        }
    } else {
        SimdModel {
            kind,
            base: lane_write(old.base, 0, nones.take(8)),
            offset: lane_write(old.offset, 0, repeated_be(offset as int, 8).take(8)),
        }
    }
}

fn weight_exec(k: usize) -> (r: u128)
    requires
        k <= 8,
    ensures
        r == weight(k as int),
{
    if k == 0 {
        1
    } else if k == 1 {
        0x100
    } else if k == 2 {
        0x1_0000
    } else if k == 3 {
        0x100_0000
    } else if k == 4 {
        0x1_0000_0000
    } else if k == 5 {
        0x100_0000_0000
    } else if k == 6 {
        0x1_0000_0000_0000
    } else if k == 7 {
        0x100_0000_0000_0000
    } else {
        0x1_0000_0000_0000_0000
    }
}

fn be_byte_exec(v: u128, width: usize, k: usize) -> (r: u8)
    requires
        1 <= width <= 8,
        k < width,
    ensures
        r == be_byte(v as int, width as int, k as int),
{
    let w = weight_exec(width);
    let d = weight_exec(width - 1 - k);
    (((v % w) / d) % 256) as u8
}

fn repeated_be_exec(v: u128, width: usize) -> (r: [u8; 16])
    requires
        1 <= width <= 8,
    ensures
        r@ == repeated_be(v as int, width as int),
{
    let mut out: [u8; 16] = [0u8; 16];
    let mut j: usize = 0;
    while j < 16
        invariant
            j <= 16,
            1 <= width <= 8,
            out@.len() == 16,
            forall|i: int| 0 <= i < j ==> out@[i] == be_byte(v as int, width as int, i % (width as int)),
        decreases 16 - j,
    {
        out[j] = be_byte_exec(v, width, j % width);
        j = j + 1;
    }
    assert(out@ =~= repeated_be(v as int, width as int));
    out
}

fn none_bases() -> (r: [Option<AbstractExpression>; 16])
    ensures
        bases_view(r@) == Seq::new(16, |j: int| None::<ExprModel>),
{
    let r: [Option<AbstractExpression>; 16] = [
        None, None, None, None, None, None, None, None, None, None, None, None, None, None, None, None,
    ];
    assert(bases_view(r@) =~= Seq::new(16, |j: int| None::<ExprModel>));
    r
}

fn lane_name(a: Arrangement, i: usize) -> (r: String)
    ensures
        r@ == arrangement_name(a) + int_text(i as int),
{
    let mut out: Vec<char> = Vec::new();
    let n = match a {
        Arrangement::B8 => "B8",
        Arrangement::B16 => "B16",
        Arrangement::H4 => "H4",
        Arrangement::H8 => "H8",
        Arrangement::S2 => "S2",
        Arrangement::S4 => "S4",
        Arrangement::D1 => "D1",
        Arrangement::D2 => "D2",
        Arrangement::B => "B",
        Arrangement::H => "H",
        Arrangement::S => "S",
        Arrangement::D => "D",
    };
    assert(n@ == arrangement_name(a));
    push_str(&mut out, n);
    push_int_text(&mut out, i as i128);
    string_from_chars(out.as_slice())
}

impl SimdRegister {
    pub open spec fn view(&self) -> SimdModel {
        SimdModel { kind: self.kind, base: bases_view(self.base@), offset: self.offset@ }
    }

    /// An unknown vector: no bases, all bytes zero.
    pub fn new(_name: &str) -> (r: Self)
        ensures
            r@ == (SimdModel {
                kind: RegisterKind::Number,
                base: Seq::new(16, |j: int| None::<ExprModel>),
                offset: Seq::new(16, |j: int| 0u8),
            }),
    {
        let r = SimdRegister { kind: RegisterKind::Number, base: none_bases(), offset: [0u8; 16] };
        assert(r.offset@ =~= Seq::new(16, |j: int| 0u8));
        r
    }

    /// Byte `index`.
    pub fn get_byte(&self, index: usize) -> (r: (Option<AbstractExpression>, u8))
        requires
            index < 16,
        ensures
            opt_expr_view(r.0) == self@.base[index as int],
            r.1 == self@.offset[index as int],
    {
        (clone_opt_expr(&self.base[index]), self.offset[index])
    }

    /// Halfword `index`: bytes `2 * index` and `2 * index + 1`.
    pub fn get_halfword(&self, index: usize) -> (r: ([Option<AbstractExpression>; 2], [u8; 2]))
        requires
            index < 8,
        ensures
            bases_view(r.0@) == self@.base.subrange(2 * index as int, 2 * index + 2),
            r.1@ == self@.offset.subrange(2 * index as int, 2 * index + 2),
    {
        let i = index * 2;
        let b = [clone_opt_expr(&self.base[i]), clone_opt_expr(&self.base[i + 1])];
        let o = [self.offset[i], self.offset[i + 1]];
        assert(bases_view(b@) =~= self@.base.subrange(2 * index as int, 2 * index + 2));
        assert(o@ =~= self@.offset.subrange(2 * index as int, 2 * index + 2));
        (b, o)
    }

    /// Word `index`: bytes `4 * index .. 4 * index + 4`.
    pub fn get_word(&self, index: usize) -> (r: ([Option<AbstractExpression>; 4], [u8; 4]))
        requires
            index < 4,
        ensures
            bases_view(r.0@) == self@.base.subrange(4 * index as int, 4 * index + 4),
            r.1@ == self@.offset.subrange(4 * index as int, 4 * index + 4),
    {
        let i = index * 4;
        let b = [
            clone_opt_expr(&self.base[i]),
            clone_opt_expr(&self.base[i + 1]),
            clone_opt_expr(&self.base[i + 2]),
            clone_opt_expr(&self.base[i + 3]),
        ];
        let o = [self.offset[i], self.offset[i + 1], self.offset[i + 2], self.offset[i + 3]];
        assert(bases_view(b@) =~= self@.base.subrange(4 * index as int, 4 * index + 4));
        assert(o@ =~= self@.offset.subrange(4 * index as int, 4 * index + 4));
        (b, o)
    }

    /// Doubleword `index`: bytes `8 * index .. 8 * index + 8`.
    pub fn get_double(&self, index: usize) -> (r: ([Option<AbstractExpression>; 8], [u8; 8]))
        requires
            index < 2,
        ensures
            bases_view(r.0@) == self@.base.subrange(8 * index as int, 8 * index + 8),
            r.1@ == self@.offset.subrange(8 * index as int, 8 * index + 8),
    {
        let i = index * 8;
        let b = [
            clone_opt_expr(&self.base[i]),
            clone_opt_expr(&self.base[i + 1]),
            clone_opt_expr(&self.base[i + 2]),
            clone_opt_expr(&self.base[i + 3]),
            clone_opt_expr(&self.base[i + 4]),
            clone_opt_expr(&self.base[i + 5]),
            clone_opt_expr(&self.base[i + 6]),
            clone_opt_expr(&self.base[i + 7]),
        ];
        let o = [
            self.offset[i],
            self.offset[i + 1],
            self.offset[i + 2],
            self.offset[i + 3],
            self.offset[i + 4],
            self.offset[i + 5],
            self.offset[i + 6],
            self.offset[i + 7],
        ];
        assert(bases_view(b@) =~= self@.base.subrange(8 * index as int, 8 * index + 8));
        assert(o@ =~= self@.offset.subrange(8 * index as int, 8 * index + 8));
        (b, o)
    }

    fn write_lanes(&mut self, pos: usize, base: &[Option<AbstractExpression>], offset: &[u8])
        requires
            base@.len() == offset@.len(),
            pos + base@.len() <= 16,
        ensures
            final(self)@ == (SimdModel {
                kind: old(self)@.kind,
                base: lane_write(old(self)@.base, pos as int, bases_view(base@)),
                offset: lane_write(old(self)@.offset, pos as int, offset@),
            }),
    {
        let ghost ob = old(self)@.base;
        let ghost oo = old(self)@.offset;
        let mut k: usize = 0;
        while k < base.len()
            invariant
                k <= base@.len() == offset@.len(),
                pos + base@.len() <= 16,
                self.kind == old(self).kind,
                self@.base.len() == 16,
                self@.offset.len() == 16,
                forall|j: int| 0 <= j < 16 ==> #[trigger] self@.base[j] == if pos <= j < pos + k {
                    opt_expr_view(base@[j - pos])
                } else {
                    ob[j]
                },
                forall|j: int| 0 <= j < 16 ==> #[trigger] self@.offset[j] == if pos <= j < pos + k {
                    offset@[j - pos]
                } else {
                    oo[j]
                },
            decreases base@.len() - k,
        {
            let ghost prev = self.base@;
            let x = clone_opt_expr(&base[k]);
            let ghost xv = opt_expr_view(x);
            self.base[pos + k] = x;
            assert(self.base@ == prev.update(pos + k, x));
            assert(bases_view(self.base@) =~= bases_view(prev).update(pos + k, xv));
            self.offset[pos + k] = offset[k];
            k = k + 1;
        }
        assert(self@.base =~= lane_write(ob, pos as int, bases_view(base@)));
        assert(self@.offset =~= lane_write(oo, pos as int, offset@));
    }

    /// Sets byte `index`.
    pub fn set_byte(&mut self, index: usize, base: Option<AbstractExpression>, offset: u8)
        requires
            index < 16,
        ensures
            final(self)@ == (SimdModel {
                kind: old(self)@.kind,
                base: old(self)@.base.update(index as int, opt_expr_view(base)),
                offset: old(self)@.offset.update(index as int, offset),
            }),
    {
        let ghost b = opt_expr_view(base);
        self.base[index] = base;
        self.offset[index] = offset;
        assert(self@.base =~= old(self)@.base.update(index as int, b));
    }

    /// Sets halfword `index`.
    pub fn set_halfword(&mut self, index: usize, base: [Option<AbstractExpression>; 2], offset: [u8; 2])
        requires
            index < 8,
        ensures
            final(self)@ == (SimdModel {
                kind: old(self)@.kind,
                base: lane_write(old(self)@.base, 2 * index as int, bases_view(base@)),
                offset: lane_write(old(self)@.offset, 2 * index as int, offset@),
            }),
    {
        self.write_lanes(index * 2, base.as_slice(), offset.as_slice());
    }

    /// Sets word `index`.
    pub fn set_word(&mut self, index: usize, base: [Option<AbstractExpression>; 4], offset: [u8; 4])
        requires
            index < 4,
        ensures
            final(self)@ == (SimdModel {
                kind: old(self)@.kind,
                base: lane_write(old(self)@.base, 4 * index as int, bases_view(base@)),
                offset: lane_write(old(self)@.offset, 4 * index as int, offset@),
            }),
    {
        self.write_lanes(index * 4, base.as_slice(), offset.as_slice());
    }

    /// Sets doubleword `index`.
    pub fn set_double(&mut self, index: usize, base: [Option<AbstractExpression>; 8], offset: [u8; 8])
        requires
            index < 2,
        ensures
            final(self)@ == (SimdModel {
                kind: old(self)@.kind,
                base: lane_write(old(self)@.base, 8 * index as int, bases_view(base@)),
                offset: lane_write(old(self)@.offset, 8 * index as int, offset@),
            }),
    {
        self.write_lanes(index * 8, base.as_slice(), offset.as_slice());
    }
}

fn base_tree_exec(b: &[Option<AbstractExpression>; 16], lo: usize, n: usize) -> (r: Option<AbstractExpression>)
    requires
        n == 1 || n == 2 || n == 4 || n == 8 || n == 16,
        lo + n <= 16,
    ensures
        opt_expr_view(r) == base_tree(bases_view(b@), lo as int, n as int),
    decreases n,
{
    if n <= 1 {
        clone_opt_expr(&b[lo])
    } else {
        let h = n / 2;
        let left = base_tree_exec(b, lo, h);
        let right = base_tree_exec(b, lo + h, h);
        generate_expression_from_options(",", left, right)
    }
}

proof fn lemma_be_value_step(s: Seq<u8>, i: int)
    requires
        0 <= i < s.len(),
    ensures
        be_value(s.take(i + 1)) == be_value(s.take(i)) * 256 + s[i] as int,
{
    assert(s.take(i + 1).drop_last() =~= s.take(i));
}

impl SimdRegister {
    /// Fills the register from a scalar as the arrangement says: a byte
    /// broadcast names each lane after the arrangement; wider lanes repeat the
    /// scalar's big-endian bytes; `S` and `D` write the lowest lane only.
    pub fn set_from_register(
        &mut self,
        arrangement: Arrangement,
        kind: RegisterKind,
        base: Option<AbstractExpression>,
        offset: u128,
    )
        requires
            arrangement_supported(arrangement),
        ensures
            final(self)@ == set_from_register_model(old(self)@, arrangement, kind, opt_expr_view(base), offset),
    {
        let ghost old_base = old(self)@.base;
        self.kind = kind;
        if arrangement == Arrangement::B16 || arrangement == Arrangement::B8 {
            match base {
                Some(b) => {
                    let ghost bm = b@;
                    let mut i: usize = 0;
                    while i < 15
                        invariant
                            i <= 15,
                            b@ == bm,
                            self.kind == kind,
                            self.offset == old(self).offset,
                            self.base@.len() == 16,
                            forall|j: int| 0 <= j < 16 ==> #[trigger] bases_view(self.base@)[j] == if j < i {
                                Some(lane_base(arrangement, j, bm))
                            } else {
                                old_base[j]
                            },
                        decreases 15 - i,
                    {
                        let name = lane_name(arrangement, i);
                        let e = generate_expression("&", AbstractExpression::Abstract(name), clone_expr(&b));
                        let ghost prev = self.base@;
                        let ghost ev = e@;
                        self.base[i] = Some(e);
                        assert(bases_view(self.base@) =~= bases_view(prev).update(i as int, Some(ev)));
                        i = i + 1;
                    }
                    assert(bases_view(self.base@) =~= Seq::new(16, |j: int| if j < 15 { Some(lane_base(arrangement, j, bm)) } else { old_base[15] }));
                    assert(opt_expr_view(base) == Some(bm));
                },
                None => {
                    self.base = none_bases();
                },
            }
            self.offset = repeated_be_exec(offset, 1);
        } else if arrangement == Arrangement::H8 {
            self.base = none_bases();
            self.offset = repeated_be_exec(offset, 2);
        } else if arrangement == Arrangement::S4 {
            self.base = none_bases();
            self.offset = repeated_be_exec(offset, 4);
        } else if arrangement == Arrangement::D2 {
            self.base = none_bases();
            self.offset = repeated_be_exec(offset, 8);
        } else if arrangement == Arrangement::S {
            let b = repeated_be_exec(offset, 4);
            let nb: [Option<AbstractExpression>; 4] = [None, None, None, None];
            let ob: [u8; 4] = [b[0], b[1], b[2], b[3]];
            assert(bases_view(nb@) =~= Seq::new(16, |j: int| None::<ExprModel>).take(4));
            assert(ob@ =~= repeated_be(offset as int, 4).take(4));
            self.set_word(0, nb, ob);
        } else {
            let b = repeated_be_exec(offset, 8);
            let nb: [Option<AbstractExpression>; 8] = [None, None, None, None, None, None, None, None];
            let ob: [u8; 8] = [b[0], b[1], b[2], b[3], b[4], b[5], b[6], b[7]];
            assert(bases_view(nb@) =~= Seq::new(16, |j: int| None::<ExprModel>).take(8));
            assert(ob@ =~= repeated_be(offset as int, 8).take(8));
            self.set_double(0, nb, ob);
        }
    }

    /// The register read as a scalar: bytes 0..8 as a big-endian `i64`, and
    /// all sixteen bases paired into one `,` expression; no bits known.
    pub fn get_as_register(&self) -> (r: RegisterValue)
        ensures
            r@ == (RegModel {
                kind: self.kind,
                base: base_tree(self@.base, 0, 16),
                offset: be_i64(self@.offset.take(8)),
                known_mask: 0,
                known_value: 0,
            }),
    {
        let mut acc: u64 = 0;
        let mut i: usize = 0;
        assert(self@.offset.take(0) =~= Seq::<u8>::empty());
        while i < 8
            invariant
                i <= 8,
                self@.offset.len() == 16,
                acc as int == be_value(self@.offset.take(i as int)),
                (acc as int) < weight(i as int),
            decreases 8 - i,
        {
            proof {
                lemma_be_value_step(self@.offset, i as int);
                assert(weight(i + 1) == weight(i as int) * 256);
            }
            acc = acc * 256 + self.offset[i] as u64;
            i = i + 1;
        }
        let offset: i64 = if acc < 0x8000_0000_0000_0000u64 {
            acc as i64
        } else {
            ((acc - 0x8000_0000_0000_0000u64) as i64) + i64::MIN
        };
        let base = base_tree_exec(&self.base, 0, 16);
        let mut rv = RegisterValue::new(self.kind, base, offset);
        rv.known_mask = 0u64;
        rv.known_value = 0u64;
        rv
    }
}


proof fn lemma_be_prefix(v: int, k: int)
    requires
        0 <= v,
        0 <= k <= 8,
    ensures
        be_value(repeated_be(v, 8).take(k)) == (v % weight(8)) / weight(8 - k),
    decreases k,
{
    let m = v % weight(8);
    let s = repeated_be(v, 8);
    if k == 0 {
        assert(s.take(0) =~= Seq::<u8>::empty());
        vstd::arithmetic::div_mod::lemma_basic_div(m, weight(8));
    } else {
        lemma_be_prefix(v, k - 1);
        assert(s.take(k).drop_last() =~= s.take(k - 1));
        assert(s.take(k).last() == s[k - 1]);
        let a = weight(8 - k);
        assert(weight(8 - (k - 1)) == a * 256);
        let q = m / a;
        assert(s[k - 1] == be_byte(v, 8, k - 1));
        assert(be_byte(v, 8, k - 1) == (q % 256) as u8);
        assert(0 <= q % 256 < 256);
        vstd::arithmetic::div_mod::lemma_div_denominator(m, a, 256);
        vstd::arithmetic::div_mod::lemma_fundamental_div_mod(q, 256);
        assert(be_value(s.take(k)) == (q / 256) * 256 + q % 256);
    }
}

/// Broadcasting a 64-bit value over both doubles of a register and reading
/// the register as a scalar gives the value back: the kind is the one
/// written and the offset is the low 64 bits of the value, as an `i64`.
pub proof fn law_double_broadcast_reads_back(
    r: SimdModel,
    kind: RegisterKind,
    base: Option<ExprModel>,
    offset: u128,
)
    ensures
        set_from_register_model(r, Arrangement::D2, kind, base, offset).kind == kind,
        be_value(set_from_register_model(r, Arrangement::D2, kind, base, offset).offset.take(8)) == offset as int
            % 0x1_0000_0000_0000_0000,
        be_i64(set_from_register_model(r, Arrangement::D2, kind, base, offset).offset.take(8)) == (offset as u64) as i64,
{
    lemma_be_prefix(offset as int, 8);
    assert(weight(0) == 1);
    assert((offset as u64) as u128 == offset % 0x1_0000_0000_0000_0000u128) by (bit_vector);
    let w = offset as u64;
    assert(w < 0x8000_0000_0000_0000u64 ==> (w as i64) as int == w as int) by (bit_vector);
    assert(w >= 0x8000_0000_0000_0000u64 ==> (w as i64) as int == w as int - 0x1_0000_0000_0000_0000int) by (bit_vector);
}

} // verus!
