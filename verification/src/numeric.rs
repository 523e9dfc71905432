//! Integer expressions in data directives: `+ - * / %`, unary signs,
//! parentheses, decimal and `0x` hex numbers, and a trailing `b` suffix.
//! The expression is read byte by byte, as the assembler front end does.
use vstd::prelude::*;
use crate::text::{
    digit_of, ends_with, is_ws, is_ws_exec, parse_int, parse_int_range, trim, trim_range,
    utf8_bytes, utf8_encode,
};

verus! {

/// Result of parsing from a position: a value and the position after it, a
/// parse failure, or an arithmetic fault (negating the least `i64`).
pub enum Parsed {
    Value(i64, int),
    Fail,
    Abort,
}

/// The executable counterpart of `Parsed`.
pub enum Step {
    Value(i64, usize),
    Fail,
    Abort,
}

impl Step {
    pub open spec fn view(&self) -> Parsed {
        match self {
            Step::Value(v, p) => Parsed::Value(*v, *p as int),
            Step::Fail => Parsed::Fail,
            Step::Abort => Parsed::Abort,
        }
    }
}

pub open spec fn ws_byte(b: u8) -> bool {
    is_ws(b as char)
}

/// Leading whitespace bytes.
pub open spec fn ws_count(bs: Seq<u8>) -> nat
    decreases bs.len(),
{
    if bs.len() > 0 && ws_byte(bs[0]) {
        1 + ws_count(bs.drop_first())
    } else {
        0
    }
}

/// The position after the whitespace at `p`.
pub open spec fn skip_ws(bs: Seq<u8>, p: int) -> int {
    p + ws_count(bs.subrange(p, bs.len() as int))
}

pub open spec fn digit_byte(b: u8, radix: int) -> bool {
    digit_of(b as char, radix) >= 0
}

/// Leading digit bytes in the radix.
pub open spec fn digit_count(bs: Seq<u8>, radix: int) -> nat
    decreases bs.len(),
{
    if bs.len() > 0 && digit_byte(bs[0], radix) {
        1 + digit_count(bs.drop_first(), radix)
    } else {
        0
    }
}

pub open spec fn bytes_text(bs: Seq<u8>) -> Seq<char> {
    bs.map_values(|b: u8| b as char)
}

/// A number at `p`: `0x` and hex digits, or an optional sign and decimal digits.
pub open spec fn parse_number(bs: Seq<u8>, p: int) -> Parsed {
    if p > bs.len() {
        Parsed::Fail
    } else {
        let q = skip_ws(bs, p);
        if q >= bs.len() {
            Parsed::Fail
        } else if q + 1 < bs.len() && bs[q] == 48 && (bs[q + 1] == 120 || bs[q + 1] == 88) {
            let st = q + 2;
            let e = st + digit_count(bs.subrange(st, bs.len() as int), 16);
            if e == st {
                Parsed::Fail
            } else {
                match parse_int(bytes_text(bs.subrange(st, e)), 16) {
                    Some(v) => Parsed::Value(v as i64, e),
                    None => Parsed::Fail,
                }
            }
        } else {
            let q2 = if bs[q] == 43 || bs[q] == 45 {
                q + 1
            } else {
                q
            };
            let e = q2 + digit_count(bs.subrange(q2, bs.len() as int), 10);
            if e == q {
                Parsed::Fail
            } else {
                match parse_int(bytes_text(bs.subrange(q, e)), 10) {
                    Some(v) => Parsed::Value(v as i64, e),
                    None => Parsed::Fail,
                }
            }
        }
    }
}

/// A factor: a parenthesized expression, a signed factor, or a number.
pub open spec fn parse_factor(bs: Seq<u8>, p: int) -> Parsed
    decreases bs.len() - p, 0int,
{
    if p > bs.len() {
        Parsed::Fail
    } else {
        let q = skip_ws(bs, p);
        if q >= bs.len() {
            Parsed::Fail
        } else if bs[q] == 40 {
            match parse_expr(bs, q + 1) {
                Parsed::Value(v, r) => if r > bs.len() {
                    Parsed::Fail
                } else {
                    let r2 = skip_ws(bs, r);
                    if r2 < bs.len() && bs[r2] == 41 {
                        Parsed::Value(v, r2 + 1)
                    } else {
                        Parsed::Fail
                    }
                },
                o => o,
            }
        } else if bs[q] == 43 || bs[q] == 45 {
            match parse_factor(bs, q + 1) {
                Parsed::Value(v, r) => if bs[q] == 45 {
                    if v == i64::MIN {
                        Parsed::Abort
                    } else {
                        Parsed::Value((-v) as i64, r)
                    }
                } else {
                    Parsed::Value(v, r)
                },
                o => o,
            }
        } else {
            parse_number(bs, q)
        }
    }
}

/// Factors joined by `*`, `/` and `%`, left to right.
pub open spec fn parse_term(bs: Seq<u8>, p: int) -> Parsed
    decreases bs.len() - p, 1int,
{
    if p > bs.len() {
        Parsed::Fail
    } else {
        match parse_factor(bs, p) {
            Parsed::Value(v, r) => if r < p || r > bs.len() {
                Parsed::Fail
            } else {
                term_rest(bs, v, r)
            },
            o => o,
        }
    }
}

/// The product so far is `v`; more `* / %` factors may follow at `p`.
pub open spec fn term_rest(bs: Seq<u8>, v: i64, p: int) -> Parsed
    decreases bs.len() - p, 0int,
{
    if p > bs.len() {
        Parsed::Fail
    } else {
        let q = skip_ws(bs, p);
        if q < bs.len() && (bs[q] == 42 || bs[q] == 47 || bs[q] == 37) {
            match parse_factor(bs, q + 1) {
                Parsed::Value(rhs, r) => {
                    let nv = if bs[q] == 42 {
                        v.checked_mul(rhs)
                    } else if rhs == 0 {
                        None
                    } else if bs[q] == 47 {
                        v.checked_div(rhs)
                    } else {
                        v.checked_rem(rhs)
                    };
                    match nv {
                        Some(x) => if r <= p || r > bs.len() {
                            Parsed::Fail
                        } else {
                            term_rest(bs, x, r)
                        },
                        None => Parsed::Fail,
                    }
                },
                o => o,
            }
        } else {
            Parsed::Value(v, q)
        }
    }
}

/// Terms joined by `+` and `-`, left to right.
pub open spec fn parse_expr(bs: Seq<u8>, p: int) -> Parsed
    decreases bs.len() - p, 2int,
{
    if p > bs.len() {
        Parsed::Fail
    } else {
        match parse_term(bs, p) {
            Parsed::Value(v, r) => if r < p || r > bs.len() {
                Parsed::Fail
            } else {
                expr_rest(bs, v, r)
            },
            o => o,
        }
    }
}

/// The sum so far is `v`; more `+ -` terms may follow at `p`.
pub open spec fn expr_rest(bs: Seq<u8>, v: i64, p: int) -> Parsed
    decreases bs.len() - p, 0int,
{
    if p > bs.len() {
        Parsed::Fail
    } else {
        let q = skip_ws(bs, p);
        if q < bs.len() && (bs[q] == 43 || bs[q] == 45) {
            match parse_term(bs, q + 1) {
                Parsed::Value(rhs, r) => {
                    let nv = if bs[q] == 43 {
                        v.checked_add(rhs)
                    } else {
                        v.checked_sub(rhs)
                    };
                    match nv {
                        Some(x) => if r <= p || r > bs.len() {
                            Parsed::Fail
                        } else {
                            expr_rest(bs, x, r)
                        },
                        None => Parsed::Fail,
                    }
                },
                o => o,
            }
        } else {
            Parsed::Value(v, q)
        }
    }
}

/// The text the expression parser reads: the trimmed token without a
/// trailing `b`/`B` suffix (trimmed again), or `None` when that is empty.
pub open spec fn numeric_body(tok: Seq<char>) -> Option<Seq<char>> {
    let s = trim(tok);
    if s.len() == 0 {
        None
    } else {
        let s2 = if ends_with(s, "b"@) || ends_with(s, "B"@) {
            trim(s.drop_last())
        } else {
            s
        };
        if s2.len() == 0 {
            None
        } else {
            Some(s2)
        }
    }
}

/// What `parse_numeric_token` gives: the value of the whole expression, or
/// `None` when it does not parse or leaves text over.
pub open spec fn numeric_value(tok: Seq<char>) -> Option<i64> {
    match numeric_body(tok) {
        Some(b) => {
            let bs = utf8_encode(b);
            match parse_expr(bs, 0) {
                Parsed::Value(v, r) => if r <= bs.len() && skip_ws(bs, r) == bs.len() {
                    Some(v)
                } else {
                    None
                },
                _ => None,
            }
        },
        None => None,
    }
}

/// The tokens on which the parser runs without an arithmetic fault.
pub open spec fn numeric_ok(tok: Seq<char>) -> bool {
    match numeric_body(tok) {
        Some(b) => !(parse_expr(utf8_encode(b), 0) is Abort),
        None => true,
    }
}

fn skip_ws_exec(bs: &Vec<u8>, p: usize) -> (r: usize)
    requires
        p <= bs@.len(),
    ensures
        r as int == skip_ws(bs@, p as int),
        p <= r <= bs@.len(),
{
    let mut q = p;
    while q < bs.len() && is_ws_exec(bs[q] as char)
        invariant
            p <= q <= bs@.len(),
            q + ws_count(bs@.subrange(q as int, bs@.len() as int)) == skip_ws(bs@, p as int),
        decreases bs@.len() - q,
    {
        assert(bs@.subrange(q as int, bs@.len() as int).drop_first() =~= bs@.subrange(q + 1, bs@.len() as int));
        q = q + 1;
    }
    q
}

fn digit_run(bs: &Vec<u8>, p: usize, radix: u32) -> (r: usize)
    requires
        p <= bs@.len(),
        radix == 10 || radix == 16,
    ensures
        r as int == p + digit_count(bs@.subrange(p as int, bs@.len() as int), radix as int),
        p <= r <= bs@.len(),
{
    let mut q = p;
    while q < bs.len() && crate::text::digit_of_exec(bs[q] as char, radix) >= 0
        invariant
            p <= q <= bs@.len(),
            radix == 10 || radix == 16,
            q + digit_count(bs@.subrange(q as int, bs@.len() as int), radix as int) == p + digit_count(
                bs@.subrange(p as int, bs@.len() as int),
                radix as int,
            ),
        decreases bs@.len() - q,
    {
        assert(bs@.subrange(q as int, bs@.len() as int).drop_first() =~= bs@.subrange(q + 1, bs@.len() as int));
        q = q + 1;
    }
    q
}

fn parse_bytes_int(bs: &Vec<u8>, st: usize, e: usize, radix: u32) -> (r: Option<i64>)
    requires
        st <= e <= bs@.len(),
        radix == 10 || radix == 16,
    ensures
        r matches Some(v) ==> parse_int(bytes_text(bs@.subrange(st as int, e as int)), radix as int) == Some(v as int),
        r is None ==> parse_int(bytes_text(bs@.subrange(st as int, e as int)), radix as int) is None,
{
    let mut cv: Vec<char> = Vec::new();
    let mut i = st;
    while i < e
        invariant
            st <= i <= e <= bs@.len(),
            cv@ == bytes_text(bs@.subrange(st as int, i as int)),
        decreases e - i,
    {
        cv.push(bs[i] as char);
        i = i + 1;
        assert(cv@ =~= bytes_text(bs@.subrange(st as int, i as int)));
    }
    assert(cv@.subrange(0, cv@.len() as int) =~= cv@);
    parse_int_range(&cv, 0, cv.len(), radix)
}

fn number_exec(bs: &Vec<u8>, p: usize) -> (r: Step)
    requires
        p <= bs@.len(),
    ensures
        r@ == parse_number(bs@, p as int),
        r matches Step::Value(_, e) ==> p < e <= bs@.len(),
{
    let q = skip_ws_exec(bs, p);
    if q >= bs.len() {
        return Step::Fail;
    }
    if q + 1 < bs.len() && bs[q] == 48 && (bs[q + 1] == 120 || bs[q + 1] == 88) {
        let st = q + 2;
        let e = digit_run(bs, st, 16);
        if e == st {
            return Step::Fail;
        }
        match parse_bytes_int(bs, st, e, 16) {
            Some(v) => Step::Value(v, e),
            None => Step::Fail,
        }
    } else {
        let q2 = if bs[q] == 43 || bs[q] == 45 {
            q + 1
        } else {
            q
        };
        let e = digit_run(bs, q2, 10);
        if e == q {
            return Step::Fail;
        }
        match parse_bytes_int(bs, q, e, 10) {
            Some(v) => Step::Value(v, e),
            None => Step::Fail,
        }
    }
}

fn factor_exec(bs: &Vec<u8>, p: usize) -> (r: Step)
    requires
        p <= bs@.len(),
    ensures
        r@ == parse_factor(bs@, p as int),
        r matches Step::Value(_, e) ==> p < e <= bs@.len(),
    decreases bs@.len() - p, 0int,
{
    let q = skip_ws_exec(bs, p);
    if q >= bs.len() {
        return Step::Fail;
    }
    if bs[q] == 40 {
        match expr_exec(bs, q + 1) {
            Step::Value(v, r) => {
                let r2 = skip_ws_exec(bs, r);
                if r2 < bs.len() && bs[r2] == 41 {
                    Step::Value(v, r2 + 1)
                } else {
                    Step::Fail
                }
            },
            Step::Fail => Step::Fail,
            Step::Abort => Step::Abort,
        }
    } else if bs[q] == 43 || bs[q] == 45 {
        match factor_exec(bs, q + 1) {
            Step::Value(v, r) => {
                if bs[q] == 45 {
                    if v == i64::MIN {
                        Step::Abort
                    } else {
                        Step::Value(-v, r)
                    }
                } else {
                    Step::Value(v, r)
                }
            },
            Step::Fail => Step::Fail,
            Step::Abort => Step::Abort,
        }
    } else {
        number_exec(bs, q)
    }
}

fn term_exec(bs: &Vec<u8>, p: usize) -> (r: Step)
    requires
        p <= bs@.len(),
    ensures
        r@ == parse_term(bs@, p as int),
        r matches Step::Value(_, e) ==> p < e <= bs@.len(),
    decreases bs@.len() - p, 1int,
{
    match factor_exec(bs, p) {
        Step::Value(v, r) => term_rest_exec(bs, v, r),
        Step::Fail => Step::Fail,
        Step::Abort => Step::Abort,
    }
}

fn term_rest_exec(bs: &Vec<u8>, v: i64, p: usize) -> (r: Step)
    requires
        p <= bs@.len(),
    ensures
        r@ == term_rest(bs@, v, p as int),
        r matches Step::Value(_, e) ==> p <= e <= bs@.len(),
    decreases bs@.len() - p, 0int,
{
    let q = skip_ws_exec(bs, p);
    if q < bs.len() && (bs[q] == 42 || bs[q] == 47 || bs[q] == 37) {
        match factor_exec(bs, q + 1) {
            Step::Value(rhs, r) => {
                let nv = if bs[q] == 42 {
                    v.checked_mul(rhs)
                } else if rhs == 0 {
                    None
                } else if bs[q] == 47 {
                    v.checked_div(rhs)
                } else {
                    v.checked_rem(rhs)
                };
                match nv {
                    Some(x) => term_rest_exec(bs, x, r),
                    None => Step::Fail,
                }
            },
            Step::Fail => Step::Fail,
            Step::Abort => Step::Abort,
        }
    } else {
        Step::Value(v, q)
    }
}

fn expr_exec(bs: &Vec<u8>, p: usize) -> (r: Step)
    requires
        p <= bs@.len(),
    ensures
        r@ == parse_expr(bs@, p as int),
        r matches Step::Value(_, e) ==> p < e <= bs@.len(),
    decreases bs@.len() - p, 2int,
{
    match term_exec(bs, p) {
        Step::Value(v, r) => expr_rest_exec(bs, v, r),
        Step::Fail => Step::Fail,
        Step::Abort => Step::Abort,
    }
}

fn expr_rest_exec(bs: &Vec<u8>, v: i64, p: usize) -> (r: Step)
    requires
        p <= bs@.len(),
    ensures
        r@ == expr_rest(bs@, v, p as int),
        r matches Step::Value(_, e) ==> p <= e <= bs@.len(),
    decreases bs@.len() - p, 0int,
{
    let q = skip_ws_exec(bs, p);
    if q < bs.len() && (bs[q] == 43 || bs[q] == 45) {
        match term_exec(bs, q + 1) {
            Step::Value(rhs, r) => {
                let nv = if bs[q] == 43 {
                    v.checked_add(rhs)
                } else {
                    v.checked_sub(rhs)
                };
                match nv {
                    Some(x) => expr_rest_exec(bs, x, r),
                    None => Step::Fail,
                }
            },
            Step::Fail => Step::Fail,
            Step::Abort => Step::Abort,
        }
    } else {
        Step::Value(v, q)
    }
}

/// Parses an integer expression such as `16 * 12`, `(16 * 2)`, `-320b` or
/// `0x40 + 4`: `+ - * / %` with the usual precedence, unary signs,
/// parentheses, decimal and `0x` numbers, an optional trailing `b`.
/// `None` when the text is not such an expression or a step overflows.
pub fn parse_numeric_token(tok: &str) -> (r: Option<i64>)
    requires
        numeric_ok(tok@),
    ensures
        r == numeric_value(tok@),
{
    let v = crate::text::chars_of(tok);
    assert(v@.subrange(0, v@.len() as int) =~= v@);
    let (a, b) = trim_range(&v, 0, v.len());
    if a == b {
        return None;
    }
    let ghost s = v@.subrange(a as int, b as int);
    let (a2, b2) = if v[b - 1] == 'b' || v[b - 1] == 'B' {
        proof {
            reveal_strlit("b");
            reveal_strlit("B");
            assert(s.drop_last() =~= v@.subrange(a as int, b - 1));
            if v@[b - 1] == 'b' {
                assert(s.skip(s.len() - 1) =~= "b"@);
            } else {
                assert(s.skip(s.len() - 1) =~= "B"@);
            }
        }
        trim_range(&v, a, b - 1)
    } else {
        proof {
            reveal_strlit("b");
            reveal_strlit("B");
            assert(!ends_with(s, "b"@)) by {
                if ends_with(s, "b"@) {
                    assert(s.skip(s.len() - 1)[0] == s.last());
                }
            }
            assert(!ends_with(s, "B"@)) by {
                if ends_with(s, "B"@) {
                    assert(s.skip(s.len() - 1)[0] == s.last());
                }
            }
        }
        (a, b)
    };
    assert(trim(tok@) == s);
    if a2 == b2 {
        assert(v@.subrange(a2 as int, b2 as int).len() == 0);
        return None;
    }
    let body = crate::text::sub_vec(&v, a2, b2);
    assert(numeric_body(tok@) == Some(body@));
    let bs = utf8_bytes(&body);
    match expr_exec(&bs, 0) {
        Step::Value(x, r) => {
            let e = skip_ws_exec(&bs, r);
            if e == bs.len() {
                Some(x)
            } else {
                None
            }
        },
        _ => None,
    }
}

/// Whether `parse_numeric_token` runs on `tok` without an arithmetic fault.
pub fn numeric_token_ok(tok: &str) -> (r: bool)
    ensures
        r == numeric_ok(tok@),
{
    let v = crate::text::chars_of(tok);
    assert(v@.subrange(0, v@.len() as int) =~= v@);
    let (a, b) = trim_range(&v, 0, v.len());
    if a == b {
        return true;
    }
    let ghost s = v@.subrange(a as int, b as int);
    let (a2, b2) = if v[b - 1] == 'b' || v[b - 1] == 'B' {
        proof {
            reveal_strlit("b");
            reveal_strlit("B");
            assert(s.drop_last() =~= v@.subrange(a as int, b - 1));
            if v@[b - 1] == 'b' {
                assert(s.skip(s.len() - 1) =~= "b"@);
            } else {
                assert(s.skip(s.len() - 1) =~= "B"@);
            }
        }
        trim_range(&v, a, b - 1)
    } else {
        proof {
            reveal_strlit("b");
            reveal_strlit("B");
            assert(!ends_with(s, "b"@)) by {
                if ends_with(s, "b"@) {
                    assert(s.skip(s.len() - 1)[0] == s.last());
                }
            }
            assert(!ends_with(s, "B"@)) by {
                if ends_with(s, "B"@) {
                    assert(s.skip(s.len() - 1)[0] == s.last());
                }
            }
        }
        (a, b)
    };
    assert(trim(tok@) == s);
    if a2 == b2 {
        assert(v@.subrange(a2 as int, b2 as int).len() == 0);
        return true;
    }
    let body = crate::text::sub_vec(&v, a2, b2);
    assert(numeric_body(tok@) == Some(body@));
    let bs = utf8_bytes(&body);
    match expr_exec(&bs, 0) {
        Step::Abort => false,
        _ => true,
    }
}


/// Truncated division of `v` by `d`: the quotient `x` and remainder `rem`
/// with `v == x * d + rem`, `|rem| < |d|`, and `rem` of the sign of `v`.
pub open spec fn truncated_division(v: int, d: int, x: int, rem: int) -> bool {
    &&& v == x * d + rem
    &&& (if rem < 0 { -rem } else { rem }) < (if d < 0 { -d } else { d })
    &&& v >= 0 ==> rem >= 0
    &&& v <= 0 ==> rem <= 0
}

proof fn lemma_checked_div_rem_truncate(v: i64, d: i64, x: i64, rem: i64)
    requires
        d != 0,
        truncated_division(v as int, d as int, x as int, rem as int),
    ensures
        v.checked_div(d) == Some(x),
        v.checked_rem(d) == Some(rem),
{
    let vi = v as int;
    let di = d as int;
    let xi = x as int;
    let ri = rem as int;
    if vi == 0 {
        assert(ri == 0);
        assert(xi * di == 0);
        assert(xi == 0) by (nonlinear_arith)
            requires
                xi * di == 0,
                di != 0;
    } else if vi > 0 && di > 0 {
        vstd::arithmetic::div_mod::lemma_fundamental_div_mod_converse(vi, di, xi, ri);
    } else if vi < 0 && di < 0 {
        assert(-vi == xi * (-di) + (-ri)) by (nonlinear_arith)
            requires
                vi == xi * di + ri;
        vstd::arithmetic::div_mod::lemma_fundamental_div_mod_converse(-vi, -di, xi, -ri);
        if v == i64::MIN && d == -1 {
            assert(xi * di == -xi) by (nonlinear_arith)
                requires
                    di == -1;
            assert(false);
        }
    } else if vi < 0 {
        assert(-vi == (-xi) * di + (-ri)) by (nonlinear_arith)
            requires
                vi == xi * di + ri;
        vstd::arithmetic::div_mod::lemma_fundamental_div_mod_converse(-vi, di, -xi, -ri);
    } else {
        assert(vi == (-xi) * (-di) + ri) by (nonlinear_arith)
            requires
                vi == xi * di + ri;
        vstd::arithmetic::div_mod::lemma_fundamental_div_mod_converse(vi, -di, -xi, ri);
    }
}

/// In a product `v / d` with `d != 0` (and `v % d`), the division truncates
/// toward zero: when the factor after `/` (or `%`) at `p` reads as `d`, the
/// term goes on from there with the quotient `x` (or the remainder `rem`)
/// of truncated division, for every `v` and `d` whose quotient fits.
pub proof fn law_term_division_truncates(bs: Seq<u8>, v: i64, p: int, d: i64, r: int, x: i64, rem: i64)
    requires
        0 <= p <= bs.len(),
        skip_ws(bs, p) < bs.len(),
        bs[skip_ws(bs, p)] == 47 || bs[skip_ws(bs, p)] == 37,
        parse_factor(bs, skip_ws(bs, p) + 1) == Parsed::Value(d, r),
        p < r <= bs.len(),
        d != 0,
        truncated_division(v as int, d as int, x as int, rem as int),
    ensures
        bs[skip_ws(bs, p)] == 47 ==> term_rest(bs, v, p) == term_rest(bs, x, r),
        bs[skip_ws(bs, p)] == 37 ==> term_rest(bs, v, p) == term_rest(bs, rem, r),
{
    lemma_checked_div_rem_truncate(v, d, x, rem);
}


/// A product `v * d` and a sum or difference `v + d`, `v - d` go on with the
/// exact value when it fits in 64 bits: the term (or expression) continues
/// after the operand with that value.
pub proof fn law_operators_compute_exact_values(bs: Seq<u8>, v: i64, p: int, d: i64, r: int)
    requires
        0 <= p <= bs.len(),
        skip_ws(bs, p) < bs.len(),
        p < r <= bs.len(),
    ensures
        bs[skip_ws(bs, p)] == 42 && parse_factor(bs, skip_ws(bs, p) + 1) == Parsed::Value(d, r) && i64::MIN <= v
            * d <= i64::MAX ==> term_rest(bs, v, p) == term_rest(bs, (v * d) as i64, r),
        bs[skip_ws(bs, p)] == 43 && parse_term(bs, skip_ws(bs, p) + 1) == Parsed::Value(d, r) && i64::MIN <= v
            + d <= i64::MAX ==> expr_rest(bs, v, p) == expr_rest(bs, (v + d) as i64, r),
        bs[skip_ws(bs, p)] == 45 && parse_term(bs, skip_ws(bs, p) + 1) == Parsed::Value(d, r) && i64::MIN <= v
            - d <= i64::MAX ==> expr_rest(bs, v, p) == expr_rest(bs, (v - d) as i64, r),
{
}

} // verus!
