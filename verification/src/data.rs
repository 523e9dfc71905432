//! Data definitions of an assembly file: labels and the directives that
//! lay out bytes (`.byte`, `.hword`, `.word`, `.long`, `.quad`, strings,
//! `.align`), with their operands read as numbers or label expressions.
use vstd::prelude::*;
use crate::common::{AbstractExpression, ExprModel, generate_expression};
use crate::numeric::{numeric_ok, numeric_token_ok, numeric_value, parse_numeric_token};
use crate::parser::{first_ws, first_ws_range, line_opcode, line_rest, seq_is};
use crate::text::{
    chars_of, ends_with, ends_with_range, parse_int, parse_int_range, rfind_char, rfind_char_range,
    split_char, split_char_range, starts_with, starts_with_range, string_from_chars,
    string_of_range, sub_vec, tokens, tokens_range, trim, trim_char, trim_char_range, trim_range,
    utf8_bytes, utf8_encode,
};
use crate::numeric::bytes_text;

verus! {

/// Model of a `DataToken`.
pub enum TokenModel {
    Num(i64),
    Expr(ExprModel),
}

/// An operand of a data directive: a number, or an expression over labels.
#[derive(Debug)]
pub enum DataToken {
    Num(i64),
    Expr(AbstractExpression),
}

impl DataToken {
    pub open spec fn view(&self) -> TokenModel {
        match self {
            DataToken::Num(n) => TokenModel::Num(*n),
            DataToken::Expr(e) => TokenModel::Expr(e@),
        }
    }
}

pub open spec fn data_tokens_view(v: Seq<DataToken>) -> Seq<TokenModel> {
    v.map_values(|t: DataToken| t@)
}

/// `s` without one pair of surrounding parentheses.
pub open spec fn strip_parens(s: Seq<char>) -> Seq<char> {
    if starts_with(s, "("@) && ends_with(s, ")"@) {
        s.subrange(1, s.len() - 1)
    } else {
        s
    }
}

/// The rightmost `+` or `-` of `s`, with the operator.
pub open spec fn last_operator(s: Seq<char>) -> Option<(int, char)> {
    match (rfind_char(s, '+'), rfind_char(s, '-')) {
        (Some(p), Some(m)) => if p > m {
            Some((p, '+'))
        } else {
            Some((m, '-'))
        },
        (Some(p), None) => Some((p, '+')),
        (None, Some(m)) => Some((m, '-')),
        _ => None,
    }
}

/// The left label and the right operand of `label op operand`, split at
/// the rightmost operator, with one pair of parentheses stripped from each.
pub open spec fn arith_sides(s: Seq<char>, pos: int) -> (Seq<char>, Seq<char>) {
    (strip_parens(trim(s.take(pos))), strip_parens(trim(s.skip(pos + 1))))
}

/// What `parse_label_arith_token` gives: `label op number` or
/// `label op label` split at the rightmost `+`/`-`, when both sides are
/// non-empty.
pub open spec fn label_arith(tok: Seq<char>) -> Option<TokenModel> {
    let s = trim(tok);
    match last_operator(s) {
        Some((pos, op)) => if trim(s.skip(pos + 1)).len() == 0 || trim(s.take(pos)).len() == 0 {
            None
        } else {
            let (l, r) = arith_sides(s, pos);
            match numeric_value(r) {
                Some(n) => Some(
                    TokenModel::Expr(
                        ExprModel::Expression(
                            seq![op],
                            Box::new(ExprModel::Abstract(trim(l))),
                            Box::new(ExprModel::Immediate(n)),
                        ),
                    ),
                ),
                None => Some(
                    TokenModel::Expr(
                        ExprModel::Expression(
                            seq![op],
                            Box::new(ExprModel::Abstract(trim(l))),
                            Box::new(ExprModel::Abstract(trim(r))),
                        ),
                    ),
                ),
            }
        },
        None => None,
    }
}

/// The tokens on which `parse_label_arith_token` runs without a fault.
pub open spec fn label_arith_ok(tok: Seq<char>) -> bool {
    let s = trim(tok);
    match last_operator(s) {
        Some((pos, op)) => (trim(s.skip(pos + 1)).len() == 0 || trim(s.take(pos)).len() == 0) || numeric_ok(
            arith_sides(s, pos).1,
        ),
        None => true,
    }
}

/// One comma separated operand: a label expression, a number, or a bare name.
pub open spec fn data_token(t: Seq<char>) -> TokenModel {
    match label_arith(t) {
        Some(x) => x,
        None => match numeric_value(t) {
            Some(n) => TokenModel::Num(n),
            None => TokenModel::Expr(ExprModel::Abstract(t)),
        },
    }
}

pub open spec fn data_token_ok(t: Seq<char>) -> bool {
    label_arith_ok(t) && (label_arith(t) is None ==> numeric_ok(t))
}

/// The operands of a directive: its non-empty trimmed comma separated parts.
pub open spec fn data_tokens_of(parts: Seq<Seq<char>>) -> Seq<TokenModel>
    decreases parts.len(),
{
    if parts.len() == 0 {
        Seq::empty()
    } else {
        let t = trim(parts.last());
        data_tokens_of(parts.drop_last()) + if t.len() == 0 {
            Seq::empty()
        } else {
            seq![data_token(t)]
        }
    }
}

pub open spec fn data_tokens(tail: Seq<char>) -> Seq<TokenModel> {
    data_tokens_of(split_char(tail, ','))
}

pub open spec fn data_tokens_ok(tail: Seq<char>) -> bool {
    forall|i: int| 0 <= i < split_char(tail, ',').len() ==> {
        let t = trim(#[trigger] split_char(tail, ',')[i]);
        t.len() > 0 ==> data_token_ok(t)
    }
}

fn strip_parens_range(v: &Vec<char>, a: usize, b: usize) -> (r: (usize, usize))
    requires
        a <= b <= v@.len(),
    ensures
        a <= r.0 <= r.1 <= b,
        v@.subrange(r.0 as int, r.1 as int) == strip_parens(v@.subrange(a as int, b as int)),
{
    let ghost s = v@.subrange(a as int, b as int);
    proof {
        reveal_strlit("(");
        reveal_strlit(")");
    }
    if starts_with_range(v, a, b, "(") && ends_with_range(v, a, b, ")") {
        if b - a < 2 {
            assert(s.take(1)[0] == "("@[0]);
            assert(s.skip(s.len() - 1)[0] == ")"@[0]);
            assert(s.take(1)[0] == s[0]);
            assert(s.skip(s.len() - 1)[0] == s[0]);
            assert(false);
        }
        assert(s.subrange(1, s.len() - 1) =~= v@.subrange(a + 1, b - 1));
        (a + 1, b - 1)
    } else {
        (a, b)
    }
}

fn last_operator_range(v: &Vec<char>, a: usize, b: usize) -> (r: Option<(usize, char)>)
    requires
        a <= b <= v@.len(),
    ensures
        match r {
            Some((p, c)) => last_operator(v@.subrange(a as int, b as int)) == Some((p as int, c)) && p < b - a,
            None => last_operator(v@.subrange(a as int, b as int)) is None,
        },
{
    let ghost s = v@.subrange(a as int, b as int);
    let pp = rfind_char_range(v, a, b, '+');
    let pm = rfind_char_range(v, a, b, '-');
    proof {
        crate::text::lemma_rfind_char(s, '+');
        crate::text::lemma_rfind_char(s, '-');
    }
    match (pp, pm) {
        (Some(p), Some(m)) => if p > m {
            Some((p, '+'))
        } else {
            Some((m, '-'))
        },
        (Some(p), None) => Some((p, '+')),
        (None, Some(m)) => Some((m, '-')),
        _ => None,
    }
}

/// Parses `label op number` or `label op label` (op the rightmost `+` or
/// `-`); `None` when there is no such operator or a side is empty.
pub fn parse_label_arith_token(tok: &str) -> (r: Option<DataToken>)
    requires
        label_arith_ok(tok@),
    ensures
        match r {
            Some(t) => label_arith(tok@) == Some(t@),
            None => label_arith(tok@) is None,
        },
{
    let v = chars_of(tok);
    assert(v@.subrange(0, v@.len() as int) =~= v@);
    let (a, b) = trim_range(&v, 0, v.len());
    let ghost s = v@.subrange(a as int, b as int);
    let (pos, op): (usize, char) = match last_operator_range(&v, a, b) {
        Some(x) => x,
        None => {
            return None;
        },
    };
    assert(s.take(pos as int) =~= v@.subrange(a as int, a + pos));
    assert(s.skip(pos + 1) =~= v@.subrange(a + pos + 1, b as int));
    let (la, lb) = trim_range(&v, a, a + pos);
    let (ra, rb) = trim_range(&v, a + pos + 1, b);
    if ra == rb || la == lb {
        return None;
    }
    let (la2, lb2) = strip_parens_range(&v, la, lb);
    let (ra2, rb2) = strip_parens_range(&v, ra, rb);
    let (la3, lb3) = trim_range(&v, la2, lb2);
    let (ra3, rb3) = trim_range(&v, ra2, rb2);
    assert(arith_sides(s, pos as int) == (v@.subrange(la2 as int, lb2 as int), v@.subrange(ra2 as int, rb2 as int)));
    let right = string_of_range(&v, ra2, rb2);
    let left_label = string_of_range(&v, la3, lb3);
    let mut opv: Vec<char> = Vec::new();
    opv.push(op);
    let ops = string_from_chars(opv.as_slice());
    match parse_numeric_token(right.as_str()) {
        Some(n) => Some(
            DataToken::Expr(
                generate_expression(ops.as_str(), AbstractExpression::Abstract(left_label), AbstractExpression::Immediate(n)),
            ),
        ),
        None => Some(
            DataToken::Expr(
                generate_expression(
                    ops.as_str(),
                    AbstractExpression::Abstract(left_label),
                    AbstractExpression::Abstract(string_of_range(&v, ra3, rb3)),
                ),
            ),
        ),
    }
}

/// Reads one operand of a data directive.
pub fn parse_data_token(t: &str) -> (r: DataToken)
    requires
        data_token_ok(t@),
    ensures
        r@ == data_token(t@),
{
    if let Some(dt) = parse_label_arith_token(t) {
        return dt;
    }
    match parse_numeric_token(t) {
        Some(n) => DataToken::Num(n),
        None => DataToken::Expr(AbstractExpression::Abstract(String::from_str(t))),
    }
}

/// Reads the comma separated operands of `v[lo..hi]`.
pub fn parse_data_tokens(v: &Vec<char>, lo: usize, hi: usize) -> (r: Vec<DataToken>)
    requires
        lo <= hi <= v@.len(),
        data_tokens_ok(v@.subrange(lo as int, hi as int)),
    ensures
        data_tokens_view(r@) == data_tokens(v@.subrange(lo as int, hi as int)),
{
    let ghost tail = v@.subrange(lo as int, hi as int);
    let ghost parts = split_char(tail, ',');
    let ranges = split_char_range(v, lo, hi, ',');
    let mut out: Vec<DataToken> = Vec::new();
    let mut i: usize = 0;
    assert(parts.take(0) =~= Seq::<Seq<char>>::empty());
    assert(data_tokens_view(out@) =~= Seq::<TokenModel>::empty());
    while i < ranges.len()
        invariant
            i <= ranges.len() == parts.len(),
            parts == split_char(tail, ','),
            tail == v@.subrange(lo as int, hi as int),
            data_tokens_ok(tail),
            forall|k: int| 0 <= k < ranges.len() ==> lo <= (#[trigger] ranges[k]).0 <= ranges[k].1 <= hi
                && v@.subrange(ranges[k].0 as int, ranges[k].1 as int) == parts[k],
            hi <= v@.len(),
            data_tokens_view(out@) == data_tokens_of(parts.take(i as int)),
        decreases ranges.len() - i,
    {
        let (x, y) = ranges[i];
        let (p, q) = trim_range(v, x, y);
        assert(parts.take(i + 1).drop_last() =~= parts.take(i as int));
        assert(parts.take(i + 1).last() == parts[i as int]);
        if p < q {
            let t = string_of_range(v, p, q);
            assert(data_token_ok(trim(parts[i as int])));
            let dt = parse_data_token(t.as_str());
            let ghost prev = out@;
            out.push(dt);
            assert(data_tokens_view(out@) =~= data_tokens_view(prev).push(dt@));
        }
        i = i + 1;
    }
    assert(parts.take(i as int) =~= parts);
    out
}

/// The characters of a quoted string body starting at byte `i`: up to the
/// closing quote, with `\" \\ \n \t \r \0` and `\xNN` escapes; each other
/// byte stands for the character with that code.
pub open spec fn str_content(bs: Seq<u8>, i: int) -> Seq<char>
    decreases bs.len() - i,
{
    if i < 0 || i >= bs.len() {
        Seq::empty()
    } else {
        let c = bs[i];
        if c == 34 {
            Seq::empty()
        } else if c == 92 && i + 1 < bs.len() {
            let nc = bs[i + 1];
            if nc == 34 {
                seq!['"'] + str_content(bs, i + 2)
            } else if nc == 92 {
                seq!['\\'] + str_content(bs, i + 2)
            } else if nc == 110 {
                seq!['\n'] + str_content(bs, i + 2)
            } else if nc == 116 {
                seq!['\t'] + str_content(bs, i + 2)
            } else if nc == 114 {
                seq!['\r'] + str_content(bs, i + 2)
            } else if nc == 48 {
                seq!['\0'] + str_content(bs, i + 2)
            } else if nc == 120 {
                if i + 3 < bs.len() && parse_int(bytes_text(bs.subrange(i + 2, i + 4)), 16) is Some {
                    seq![(parse_int(bytes_text(bs.subrange(i + 2, i + 4)), 16)->0 as u8) as char] + str_content(bs, i + 4)
                } else {
                    seq!['x'] + str_content(bs, i + 2)
                }
            } else {
                seq![nc as char] + str_content(bs, i + 2)
            }
        } else {
            seq![c as char] + str_content(bs, i + 1)
        }
    }
}

/// Whether byte position `k` starts a character (or is the end).
pub open spec fn char_boundary(bs: Seq<u8>, k: int) -> bool {
    k == bs.len() || (0 <= k < bs.len() && (bs[k] < 0x80 || bs[k] >= 0xC0))
}

/// A `\xNN` escape slices the text at bytes `i + 2` and `i + 4`, which must
/// both fall between characters.
pub open spec fn str_content_ok(bs: Seq<u8>, i: int) -> bool
    decreases bs.len() - i,
{
    if i < 0 || i >= bs.len() {
        true
    } else {
        let c = bs[i];
        if c == 34 {
            true
        } else if c == 92 && i + 1 < bs.len() {
            let nc = bs[i + 1];
            if nc == 120 {
                if i + 3 < bs.len() {
                    char_boundary(bs, i + 2) && char_boundary(bs, i + 4) && if parse_int(bytes_text(bs.subrange(i + 2, i + 4)), 16) is Some {
                        str_content_ok(bs, i + 4)
                    } else {
                        str_content_ok(bs, i + 2)
                    }
                } else {
                    str_content_ok(bs, i + 2)
                }
            } else {
                str_content_ok(bs, i + 2)
            }
        } else {
            str_content_ok(bs, i + 1)
        }
    }
}

/// Index of the first byte equal to `b`.
pub open spec fn find_byte(bs: Seq<u8>, b: u8) -> Option<int>
    decreases bs.len(),
{
    if bs.len() == 0 {
        None
    } else if bs[0] == b {
        Some(0)
    } else {
        match find_byte(bs.drop_first(), b) {
            Some(i) => Some(i + 1),
            None => None,
        }
    }
}

/// The contents of the first quoted string of a directive line.
pub open spec fn string_literal(s: Seq<char>) -> Seq<char> {
    let bs = utf8_encode(s);
    match find_byte(bs, 34) {
        Some(st) => str_content(bs, st + 1),
        None => Seq::empty(),
    }
}

pub open spec fn string_literal_ok(s: Seq<char>) -> bool {
    let bs = utf8_encode(s);
    match find_byte(bs, 34) {
        Some(st) => str_content_ok(bs, st + 1),
        None => true,
    }
}

proof fn lemma_find_byte_at(bs: Seq<u8>, b: u8, k: int)
    requires
        0 <= k <= bs.len(),
        forall|j: int| 0 <= j < k ==> #[trigger] bs[j] != b,
        k < bs.len() ==> bs[k] == b,
    ensures
        find_byte(bs, b) == if k < bs.len() {
            Some(k)
        } else {
            None::<int>
        },
    decreases bs.len(),
{
    if bs.len() > 0 && k > 0 {
        assert(bs[0] != b);
        assert forall|j: int| 0 <= j < k - 1 implies #[trigger] bs.drop_first()[j] != b by {
            assert(bs.drop_first()[j] == bs[j + 1]);
        }
        if k < bs.len() {
            assert(bs.drop_first()[k - 1] == bs[k]);
        }
        lemma_find_byte_at(bs.drop_first(), b, k - 1);
    }
}

fn is_boundary(bs: &Vec<u8>, k: usize) -> (r: bool)
    requires
        k <= bs@.len(),
    ensures
        r == char_boundary(bs@, k as int),
{
    k == bs.len() || bs[k] < 0x80 || bs[k] >= 0xC0
}

fn hex_pair(bs: &Vec<u8>, i: usize) -> (r: Option<i64>)
    requires
        i + 2 <= bs.len(),
    ensures
        r matches Some(v) ==> parse_int(bytes_text(bs@.subrange(i as int, i + 2)), 16) == Some(v as int),
        r is None ==> parse_int(bytes_text(bs@.subrange(i as int, i + 2)), 16) is None,
{
    let mut cv: Vec<char> = Vec::new();
    cv.push(bs[i] as char);
    cv.push(bs[i + 1] as char);
    assert(cv@ =~= bytes_text(bs@.subrange(i as int, i + 2)));
    assert(cv@.subrange(0, 2) =~= cv@);
    parse_int_range(&cv, 0, 2, 16)
}

/// Reads the body of a quoted string starting at byte `start`; `None`
/// where a `\x` escape would cut a character in two.
fn read_string_body(bs: &Vec<u8>, start: usize) -> (r: Option<Vec<char>>)
    requires
        start <= bs@.len(),
    ensures
        match r {
            Some(c) => str_content_ok(bs@, start as int) && c@ == str_content(bs@, start as int),
            None => !str_content_ok(bs@, start as int),
        },
{
    let mut out: Vec<char> = Vec::new();
    let mut i = start;
    while i < bs.len()
        invariant
            start <= i <= bs@.len(),
            out@ + str_content(bs@, i as int) == str_content(bs@, start as int),
            str_content_ok(bs@, start as int) == str_content_ok(bs@, i as int),
        decreases bs@.len() - i,
    {
        let c = bs[i];
        if c == 34 {
            assert(out@ =~= str_content(bs@, start as int));
            return Some(out);
        }
        if c == 92 && i + 1 < bs.len() {
            let nc = bs[i + 1];
            let ghost prev = out@;
            if nc == 34 {
                out.push('"');
                i = i + 2;
            } else if nc == 92 {
                out.push('\\');
                i = i + 2;
            } else if nc == 110 {
                out.push('\n');
                i = i + 2;
            } else if nc == 116 {
                out.push('\t');
                i = i + 2;
            } else if nc == 114 {
                out.push('\r');
                i = i + 2;
            } else if nc == 48 {
                out.push('\0');
                i = i + 2;
            } else if nc == 120 {
                if bs.len() - i > 3 {
                    if !is_boundary(bs, i + 2) || !is_boundary(bs, i + 4) {
                        return None;
                    }
                    match hex_pair(bs, i + 2) {
                        Some(v) => {
                            out.push((v as u8) as char);
                            i = i + 4;
                        },
                        None => {
                            out.push('x');
                            i = i + 2;
                        },
                    }
                } else {
                    out.push('x');
                    i = i + 2;
                }
            } else {
                out.push(nc as char);
                i = i + 2;
            }
            assert(out@ + str_content(bs@, i as int) =~= str_content(bs@, start as int));
        } else {
            let ghost prev = out@;
            out.push(c as char);
            i = i + 1;
            assert(out@ + str_content(bs@, i as int) =~= str_content(bs@, start as int));
        }
    }
    assert(out@ =~= str_content(bs@, start as int));
    Some(out)
}

/// Model of a `DataDirective`.
pub enum DirectiveModel {
    Align(i64),
    Byte(Seq<TokenModel>),
    Long(Seq<TokenModel>),
    Quad(Seq<TokenModel>),
    Halfword(Seq<TokenModel>),
    StringLit(Seq<char>, bool),
    Globl(Seq<char>),
    Section(Seq<char>),
    Other(Seq<char>),
}

/// Model of a `DataItem`.
pub enum ItemModel {
    Label(Seq<char>),
    Directive(DirectiveModel),
}

/// A data directive: alignment, numbers of 1, 2, 4 or 8 bytes, a string
/// (with its terminating zero for `.asciz`), a global name, a section, or
/// anything else.
#[derive(Debug)]
pub enum DataDirective {
    Align(i64),
    Byte(Vec<DataToken>),
    Long(Vec<DataToken>),
    Quad(Vec<DataToken>),
    Halfword(Vec<DataToken>),
    StringLit(String, bool),
    Globl(String),
    Section(String),
    Other(String),
}

/// A line of a data section: a label or a directive.
#[derive(Debug)]
pub enum DataItem {
    Label(String),
    Directive(DataDirective),
}

impl DataDirective {
    pub open spec fn view(&self) -> DirectiveModel {
        match self {
            DataDirective::Align(n) => DirectiveModel::Align(*n),
            DataDirective::Byte(v) => DirectiveModel::Byte(data_tokens_view(v@)),
            DataDirective::Long(v) => DirectiveModel::Long(data_tokens_view(v@)),
            DataDirective::Quad(v) => DirectiveModel::Quad(data_tokens_view(v@)),
            DataDirective::Halfword(v) => DirectiveModel::Halfword(data_tokens_view(v@)),
            DataDirective::StringLit(s, z) => DirectiveModel::StringLit(s@, *z),
            DataDirective::Globl(s) => DirectiveModel::Globl(s@),
            DataDirective::Section(s) => DirectiveModel::Section(s@),
            DataDirective::Other(s) => DirectiveModel::Other(s@),
        }
    }
}

impl DataItem {
    pub open spec fn view(&self) -> ItemModel {
        match self {
            DataItem::Label(s) => ItemModel::Label(s@),
            DataItem::Directive(d) => ItemModel::Directive(d@),
        }
    }
}

/// The second whitespace separated word of a line.
pub open spec fn second_word(s: Seq<char>) -> Option<Seq<char>> {
    let t = tokens(line_rest(s), false);
    if t.len() > 0 {
        Some(t[0])
    } else {
        None
    }
}

/// `.align n`: a small `n` (1 to 8) is a power of two, anything else a byte count.
pub open spec fn align_of(s: Seq<char>) -> i64 {
    match second_word(s) {
        Some(w) => match parse_int(trim_char(trim(w), ','), 10) {
            Some(n) => if 0 < n <= 8 {
                1i64 << (n as u32)
            } else {
                n as i64
            },
            None => 0,
        },
        None => 0,
    }
}

/// What `parse_data_def` gives for one line.
pub open spec fn data_def(def: Seq<char>) -> Option<ItemModel> {
    let s = trim(def);
    let kw = line_opcode(s);
    if s.len() == 0 {
        None
    } else if ends_with(s, ":"@) {
        Some(ItemModel::Label(s.drop_last()))
    } else if !starts_with(s, "."@) {
        Some(ItemModel::Directive(DirectiveModel::Other(s)))
    } else if kw == ".align"@ || kw == ".balign"@ {
        Some(ItemModel::Directive(DirectiveModel::Align(align_of(s))))
    } else if kw == ".byte"@ {
        Some(ItemModel::Directive(DirectiveModel::Byte(data_tokens(trim(s.skip(5))))))
    } else if kw == ".long"@ || kw == ".word"@ {
        Some(ItemModel::Directive(DirectiveModel::Long(data_tokens(trim(s.skip(5))))))
    } else if kw == ".quad"@ {
        Some(ItemModel::Directive(DirectiveModel::Quad(data_tokens(trim(s.skip(5))))))
    } else if kw == ".asciz"@ || kw == ".string"@ || kw == ".ascii"@ {
        Some(ItemModel::Directive(DirectiveModel::StringLit(string_literal(s), kw == ".asciz"@)))
    } else if kw == ".globl"@ || kw == ".global"@ || kw == ".private_extern"@ {
        match second_word(s) {
            Some(w) => Some(ItemModel::Directive(DirectiveModel::Globl(trim(w)))),
            None => None,
        }
    } else if kw == ".hword"@ {
        Some(ItemModel::Directive(DirectiveModel::Halfword(data_tokens(trim(s.skip(6))))))
    } else if kw == ".section"@ {
        match second_word(s) {
            Some(w) => Some(ItemModel::Directive(DirectiveModel::Section(trim(w)))),
            None => Some(ItemModel::Directive(DirectiveModel::Other(s))),
        }
    } else {
        Some(ItemModel::Directive(DirectiveModel::Other(s)))
    }
}

/// The lines `parse_data_def` reads without a fault.
pub open spec fn data_def_ok(def: Seq<char>) -> bool {
    let s = trim(def);
    let kw = line_opcode(s);
    (s.len() > 0 && !ends_with(s, ":"@) && starts_with(s, "."@)) ==> {
        &&& kw == ".byte"@ || kw == ".long"@ || kw == ".word"@ || kw == ".quad"@ ==> data_tokens_ok(trim(s.skip(5)))
        &&& kw == ".hword"@ ==> data_tokens_ok(trim(s.skip(6)))
        &&& (kw == ".asciz"@ || kw == ".string"@ || kw == ".ascii"@) ==> string_literal_ok(s)
    }
}

pub open spec fn opt_item_view(o: Option<DataItem>) -> Option<ItemModel> {
    match o {
        Some(x) => Some(x@),
        None => None,
    }
}

pub fn second_word_range(v: &Vec<char>, a: usize, b: usize) -> (r: Option<(usize, usize)>)
    requires
        a <= b <= v@.len(),
    ensures
        match r {
            Some((x, y)) => a <= x <= y <= b && second_word(v@.subrange(a as int, b as int)) == Some(
                v@.subrange(x as int, y as int),
            ),
            None => second_word(v@.subrange(a as int, b as int)) is None,
        },
{
    let ghost s = v@.subrange(a as int, b as int);
    let k = first_ws_range(v, a, b);
    let rs = if k < b {
        k + 1
    } else {
        b
    };
    assert(line_rest(s) =~= v@.subrange(rs as int, b as int));
    let toks = tokens_range(v, rs, b, false);
    if toks.len() > 0 {
        Some(toks[0])
    } else {
        None
    }
}

fn find_quote(bs: &Vec<u8>) -> (r: Option<usize>)
    ensures
        match r {
            Some(i) => i < bs.len() && find_byte(bs@, 34) == Some(i as int),
            None => find_byte(bs@, 34) is None,
        },
{
    let mut i: usize = 0;
    while i < bs.len()
        invariant
            i <= bs@.len(),
            forall|j: int| 0 <= j < i ==> #[trigger] bs@[j] != 34,
        decreases bs@.len() - i,
    {
        if bs[i] == 34 {
            proof {
                lemma_find_byte_at(bs@, 34, i as int);
            }
            return Some(i);
        }
        i = i + 1;
    }
    proof {
        lemma_find_byte_at(bs@, 34, bs@.len() as int);
    }
    None
}

fn align_exec(v: &Vec<char>, a: usize, b: usize) -> (r: i64)
    requires
        a <= b <= v@.len(),
    ensures
        r == align_of(v@.subrange(a as int, b as int)),
{
    match second_word_range(v, a, b) {
        Some((x, y)) => {
            let (p, q) = trim_range(v, x, y);
            let (p2, q2) = trim_char_range(v, p, q, ',');
            match parse_int_range(v, p2, q2, 10) {
                Some(n) => if 0 < n && n <= 8 {
                    1i64 << (n as u32)
                } else {
                    n
                },
                None => 0,
            }
        },
        None => 0,
    }
}

fn word_directive(v: &Vec<char>, a: usize, b: usize, skip: usize) -> (r: Vec<DataToken>)
    requires
        a + skip <= b <= v@.len(),
        data_tokens_ok(trim(v@.subrange(a as int, b as int).skip(skip as int))),
    ensures
        data_tokens_view(r@) == data_tokens(trim(v@.subrange(a as int, b as int).skip(skip as int))),
{
    assert(v@.subrange(a as int, b as int).skip(skip as int) =~= v@.subrange(a + skip, b as int));
    let (ta, tb) = trim_range(v, a + skip, b);
    parse_data_tokens(v, ta, tb)
}

/// Reads one line of a data section: a label (`name:`), a directive with
/// its operands, or anything else as an `Other` directive; `None` for a
/// blank line or a `.globl` without a name.
pub fn parse_data_def(def: &str) -> (r: Option<DataItem>)
    requires
        data_def_ok(def@),
    ensures
        opt_item_view(r) == data_def(def@),
{
    let v = chars_of(def);
    assert(v@.subrange(0, v@.len() as int) =~= v@);
    let (a, b) = trim_range(&v, 0, v.len());
    let ghost s = v@.subrange(a as int, b as int);
    proof {
        reveal_strlit(":");
        reveal_strlit(".");
    }
    if a == b {
        return None;
    }
    if v[b - 1] == ':' {
        assert(s.skip(s.len() - 1) =~= ":"@);
        assert(s.drop_last() =~= v@.subrange(a as int, b - 1));
        return Some(DataItem::Label(string_of_range(&v, a, b - 1)));
    }
    assert(!ends_with(s, ":"@)) by {
        if ends_with(s, ":"@) {
            assert(s.skip(s.len() - 1)[0] == s.last());
        }
    }
    if v[a] != '.' {
        assert(!starts_with(s, "."@)) by {
            if starts_with(s, "."@) {
                assert(s.take(1)[0] == s[0]);
            }
        }
        return Some(DataItem::Directive(DataDirective::Other(string_of_range(&v, a, b))));
    }
    assert(s.take(1) =~= "."@);
    let k = first_ws_range(&v, a, b);
    assert(line_opcode(s) =~= v@.subrange(a as int, k as int));
    let d = if seq_is(&v, a, k, ".align") || seq_is(&v, a, k, ".balign") {
        DataDirective::Align(align_exec(&v, a, b))
    } else if seq_is(&v, a, k, ".byte") {
        proof {
            reveal_strlit(".byte");
        }
        DataDirective::Byte(word_directive(&v, a, b, 5))
    } else if seq_is(&v, a, k, ".long") || seq_is(&v, a, k, ".word") {
        proof {
            reveal_strlit(".long");
            reveal_strlit(".word");
        }
        DataDirective::Long(word_directive(&v, a, b, 5))
    } else if seq_is(&v, a, k, ".quad") {
        proof {
            reveal_strlit(".quad");
        }
        DataDirective::Quad(word_directive(&v, a, b, 5))
    } else if seq_is(&v, a, k, ".asciz") || seq_is(&v, a, k, ".string") || seq_is(&v, a, k, ".ascii") {
        let is_asciz = seq_is(&v, a, k, ".asciz");
        let body = sub_vec(&v, a, b);
        let bytes = utf8_bytes(&body);
        let content: Vec<char> = match find_quote(&bytes) {
            Some(st) => match read_string_body(&bytes, st + 1) {
                Some(c) => c,
                None => {
                    assert(false);
                    Vec::new()
                },
            },
            None => Vec::new(),
        };
        assert(content@ == string_literal(s));
        DataDirective::StringLit(string_from_chars(content.as_slice()), is_asciz)
    } else if seq_is(&v, a, k, ".globl") || seq_is(&v, a, k, ".global") || seq_is(&v, a, k, ".private_extern") {
        match second_word_range(&v, a, b) {
            Some((x, y)) => {
                let (p, q) = trim_range(&v, x, y);
                DataDirective::Globl(string_of_range(&v, p, q))
            },
            None => {
                return None;
            },
        }
    } else if seq_is(&v, a, k, ".hword") {
        proof {
            reveal_strlit(".hword");
        }
        DataDirective::Halfword(word_directive(&v, a, b, 6))
    } else if seq_is(&v, a, k, ".section") {
        match second_word_range(&v, a, b) {
            Some((x, y)) => {
                let (p, q) = trim_range(&v, x, y);
                DataDirective::Section(string_of_range(&v, p, q))
            },
            None => DataDirective::Other(string_of_range(&v, a, b)),
        }
    } else {
        DataDirective::Other(string_of_range(&v, a, b))
    };
    Some(DataItem::Directive(d))
}

fn label_arith_ok_exec(tok: &str) -> (r: bool)
    ensures
        r == label_arith_ok(tok@),
{
    let v = chars_of(tok);
    assert(v@.subrange(0, v@.len() as int) =~= v@);
    let (a, b) = trim_range(&v, 0, v.len());
    let ghost s = v@.subrange(a as int, b as int);
    let (pos, op): (usize, char) = match last_operator_range(&v, a, b) {
        Some(x) => x,
        None => {
            return true;
        },
    };
    assert(s.take(pos as int) =~= v@.subrange(a as int, a + pos));
    assert(s.skip(pos + 1) =~= v@.subrange(a + pos + 1, b as int));
    let (la, lb) = trim_range(&v, a, a + pos);
    let (ra, rb) = trim_range(&v, a + pos + 1, b);
    if ra == rb || la == lb {
        return true;
    }
    let (ra2, rb2) = strip_parens_range(&v, ra, rb);
    let right = string_of_range(&v, ra2, rb2);
    numeric_token_ok(right.as_str())
}

fn data_token_ok_exec(t: &str) -> (r: bool)
    ensures
        r == data_token_ok(t@),
{
    if !label_arith_ok_exec(t) {
        return false;
    }
    match parse_label_arith_token(t) {
        Some(_) => true,
        None => numeric_token_ok(t),
    }
}

fn data_tokens_ok_exec(v: &Vec<char>, lo: usize, hi: usize) -> (r: bool)
    requires
        lo <= hi <= v@.len(),
    ensures
        r == data_tokens_ok(v@.subrange(lo as int, hi as int)),
{
    let ghost tail = v@.subrange(lo as int, hi as int);
    let ghost parts = split_char(tail, ',');
    let ranges = split_char_range(v, lo, hi, ',');
    let mut i: usize = 0;
    while i < ranges.len()
        invariant
            i <= ranges.len() == parts.len(),
            parts == split_char(tail, ','),
            tail == v@.subrange(lo as int, hi as int),
            forall|k: int| 0 <= k < ranges.len() ==> lo <= (#[trigger] ranges[k]).0 <= ranges[k].1 <= hi
                && v@.subrange(ranges[k].0 as int, ranges[k].1 as int) == parts[k],
            hi <= v@.len(),
            forall|k: int| 0 <= k < i ==> {
                let t = trim(#[trigger] parts[k]);
                t.len() > 0 ==> data_token_ok(t)
            },
        decreases ranges.len() - i,
    {
        let (x, y) = ranges[i];
        let (p, q) = trim_range(v, x, y);
        if p < q {
            let t = string_of_range(v, p, q);
            if !data_token_ok_exec(t.as_str()) {
                assert(!({
                    let t = trim(parts[i as int]);
                    t.len() > 0 ==> data_token_ok(t)
                }));
                return false;
            }
        }
        i = i + 1;
    }
    true
}

/// Whether `parse_data_def` reads `def` without a fault.
pub fn data_def_ok_exec(def: &str) -> (r: bool)
    ensures
        r == data_def_ok(def@),
{
    let v = chars_of(def);
    assert(v@.subrange(0, v@.len() as int) =~= v@);
    let (a, b) = trim_range(&v, 0, v.len());
    let ghost s = v@.subrange(a as int, b as int);
    proof {
        reveal_strlit(":");
        reveal_strlit(".");
    }
    if a == b {
        return true;
    }
    if v[b - 1] == ':' {
        assert(s.skip(s.len() - 1) =~= ":"@);
        return true;
    }
    assert(!ends_with(s, ":"@)) by {
        if ends_with(s, ":"@) {
            assert(s.skip(s.len() - 1)[0] == s.last());
        }
    }
    if v[a] != '.' {
        assert(!starts_with(s, "."@)) by {
            if starts_with(s, "."@) {
                assert(s.take(1)[0] == s[0]);
            }
        }
        return true;
    }
    assert(s.take(1) =~= "."@);
    let k = first_ws_range(&v, a, b);
    assert(line_opcode(s) =~= v@.subrange(a as int, k as int));
    if seq_is(&v, a, k, ".byte") || seq_is(&v, a, k, ".long") || seq_is(&v, a, k, ".word") || seq_is(&v, a, k, ".quad") {
        proof {
            reveal_strlit(".byte");
            reveal_strlit(".long");
            reveal_strlit(".word");
            reveal_strlit(".quad");
            reveal_strlit(".hword");
            reveal_strlit(".asciz");
            reveal_strlit(".string");
            reveal_strlit(".ascii");
        }
        assert(s.skip(5) =~= v@.subrange(a + 5, b as int));
        let (ta, tb) = trim_range(&v, a + 5, b);
        return data_tokens_ok_exec(&v, ta, tb);
    }
    if seq_is(&v, a, k, ".hword") {
        proof {
            reveal_strlit(".byte");
            reveal_strlit(".long");
            reveal_strlit(".word");
            reveal_strlit(".quad");
            reveal_strlit(".hword");
            reveal_strlit(".asciz");
            reveal_strlit(".string");
            reveal_strlit(".ascii");
        }
        assert(s.skip(6) =~= v@.subrange(a + 6, b as int));
        let (ta, tb) = trim_range(&v, a + 6, b);
        return data_tokens_ok_exec(&v, ta, tb);
    }
    if seq_is(&v, a, k, ".asciz") || seq_is(&v, a, k, ".string") || seq_is(&v, a, k, ".ascii") {
        let body = sub_vec(&v, a, b);
        let bytes = utf8_bytes(&body);
        return match find_quote(&bytes) {
            Some(st) => read_string_body(&bytes, st + 1).is_some(),
            None => true,
        };
    }
    true
}

} // verus!
