//! The attribute of a multiversioned function: `key = value` pairs naming
//! the assembly variants, the entry label, the Rust fallback, the
//! invariants, and the ABI probe settings. It is read from the attribute's
//! tokens; invariants stay as the tokens of each expression.
use vstd::prelude::*;
use crate::common::{str_is, strings_view};
use crate::harness::{opt_chars, parse_usize, parse_usize_exec};

verus! {

/// The delimiter of a token group.
#[derive(Debug, Clone, Copy, PartialEq, Eq, Structural)]
pub enum Delim {
    Paren,
    Bracket,
    Brace,
}

/// A token of the attribute: an identifier (keywords included), one
/// punctuation character, a string literal (by its value), an integer
/// literal (by its value in decimal digits), another literal (a float,
/// character, byte or byte-string literal, by its source text), or a
/// delimited group.
#[derive(Debug)]
pub enum AttrToken {
    Ident(String),
    Punct(char),
    Str(String),
    Int(String),
    Lit(String),
    Group(Delim, Vec<AttrToken>),
}

/// Model of an `AttrToken`.
pub enum TokModel {
    Ident(Seq<char>),
    Punct(char),
    Str(Seq<char>),
    Int(Seq<char>),
    Lit(Seq<char>),
    Group(Delim, Seq<TokModel>),
}

pub open spec fn token_model(t: AttrToken) -> TokModel
    decreases t, 1int,
{
    match t {
        AttrToken::Ident(s) => TokModel::Ident(s@),
        AttrToken::Punct(c) => TokModel::Punct(c),
        AttrToken::Str(s) => TokModel::Str(s@),
        AttrToken::Int(s) => TokModel::Int(s@),
        AttrToken::Lit(s) => TokModel::Lit(s@),
        AttrToken::Group(d, v) => TokModel::Group(d, tokens_model(v@)),
    }
}

pub open spec fn tokens_model(s: Seq<AttrToken>) -> Seq<TokModel>
    decreases s, 0int,
{
    if s.len() == 0 {
        Seq::empty()
    } else {
        tokens_model(s.drop_last()).push(token_model(s.last()))
    }
}


pub proof fn lemma_tokens_model_index(s: Seq<AttrToken>, i: int)
    requires
        0 <= i < s.len(),
    ensures
        tokens_model(s).len() == s.len(),
        tokens_model(s)[i] == token_model(s[i]),
    decreases s.len(),
{
    lemma_tokens_model_len(s);
    if i < s.len() - 1 {
        lemma_tokens_model_index(s.drop_last(), i);
        assert(s.drop_last()[i] == s[i]);
    }
}

pub proof fn lemma_tokens_model_len(s: Seq<AttrToken>)
    ensures
        tokens_model(s).len() == s.len(),
    decreases s.len(),
{
    if s.len() > 0 {
        lemma_tokens_model_len(s.drop_last());
    }
}

pub proof fn lemma_tokens_model_subrange(s: Seq<AttrToken>, lo: int, hi: int)
    requires
        0 <= lo <= hi <= s.len(),
    ensures
        tokens_model(s.subrange(lo, hi)) == tokens_model(s).subrange(lo, hi),
{
    lemma_tokens_model_len(s);
    lemma_tokens_model_len(s.subrange(lo, hi));
    assert forall|k: int| 0 <= k < hi - lo implies tokens_model(s.subrange(lo, hi))[k] == tokens_model(s).subrange(lo, hi)[k] by {
        lemma_tokens_model_index(s.subrange(lo, hi), k);
        lemma_tokens_model_index(s, lo + k);
    }
    assert(tokens_model(s.subrange(lo, hi)) =~= tokens_model(s).subrange(lo, hi));
}

/// An exact copy of a token.
pub fn clone_token(t: &AttrToken) -> (r: AttrToken)
    ensures
        token_model(r) == token_model(*t),
    decreases t, 1int,
{
    match t {
        AttrToken::Ident(s) => AttrToken::Ident(s.clone()),
        AttrToken::Punct(c) => AttrToken::Punct(*c),
        AttrToken::Str(s) => AttrToken::Str(s.clone()),
        AttrToken::Int(s) => AttrToken::Int(s.clone()),
        AttrToken::Lit(s) => AttrToken::Lit(s.clone()),
        AttrToken::Group(d, v) => {
            let inner = clone_range(v, 0, v.len());
            assert(v@.subrange(0, v@.len() as int) =~= v@);
            AttrToken::Group(*d, inner)
        },
    }
}

/// An exact copy of `v[lo..hi]`.
pub fn clone_range(v: &Vec<AttrToken>, lo: usize, hi: usize) -> (r: Vec<AttrToken>)
    requires
        lo <= hi <= v@.len(),
    ensures
        tokens_model(r@) == tokens_model(v@.subrange(lo as int, hi as int)),
    decreases v, 0int,
{
    let mut out: Vec<AttrToken> = Vec::new();
    let mut i = lo;
    proof {
        lemma_tokens_model_len(out@);
        assert(v@.subrange(lo as int, lo as int) =~= Seq::<AttrToken>::empty());
    }
    while i < hi
        invariant
            lo <= i <= hi <= v@.len(),
            tokens_model(out@) == tokens_model(v@.subrange(lo as int, i as int)),
        decreases hi - i,
    {
        proof {
            assert(decreases_to!(v => v@));
            assert(decreases_to!(v@ => v@[i as int]));
        }
        let c = clone_token(&v[i]);
        let ghost prev = out@;
        out.push(c);
        proof {
            assert(out@.drop_last() =~= prev);
            assert(v@.subrange(lo as int, i + 1).drop_last() =~= v@.subrange(lo as int, i as int));
            assert(v@.subrange(lo as int, i + 1).last() == v@[i as int]);
        }
        i = i + 1;
    }
    out
}


// ---------------------------------------------------------------------
// The grammar of the attribute, over token models.
// ---------------------------------------------------------------------

/// The words that are not identifiers: the Rust keywords and `_`.
pub open spec fn is_keyword(s: Seq<char>) -> bool {
    ||| s == "_"@
    ||| s == "abstract"@
    ||| s == "as"@
    ||| s == "async"@
    ||| s == "await"@
    ||| s == "become"@
    ||| s == "box"@
    ||| s == "break"@
    ||| s == "const"@
    ||| s == "continue"@
    ||| s == "crate"@
    ||| s == "do"@
    ||| s == "dyn"@
    ||| s == "else"@
    ||| s == "enum"@
    ||| s == "extern"@
    ||| s == "false"@
    ||| s == "final"@
    ||| s == "fn"@
    ||| s == "for"@
    ||| s == "if"@
    ||| s == "impl"@
    ||| s == "in"@
    ||| s == "let"@
    ||| s == "loop"@
    ||| s == "macro"@
    ||| s == "match"@
    ||| s == "mod"@
    ||| s == "move"@
    ||| s == "mut"@
    ||| s == "override"@
    ||| s == "priv"@
    ||| s == "pub"@
    ||| s == "ref"@
    ||| s == "return"@
    ||| s == "Self"@
    ||| s == "self"@
    ||| s == "static"@
    ||| s == "struct"@
    ||| s == "super"@
    ||| s == "trait"@
    ||| s == "true"@
    ||| s == "try"@
    ||| s == "type"@
    ||| s == "typeof"@
    ||| s == "unsafe"@
    ||| s == "unsized"@
    ||| s == "use"@
    ||| s == "virtual"@
    ||| s == "where"@
    ||| s == "while"@
    ||| s == "yield"@
}

/// Index of the first `,` of `s` at or after `i`, or `s.len()`.
pub open spec fn next_comma(s: Seq<TokModel>, i: int) -> int
    decreases s.len() - i,
{
    if i >= s.len() {
        s.len() as int
    } else if s[i] == TokModel::Punct(',') {
        i
    } else {
        next_comma(s, i + 1)
    }
}

pub proof fn lemma_next_comma(s: Seq<TokModel>, i: int)
    requires
        0 <= i <= s.len(),
    ensures
        i <= next_comma(s, i) <= s.len(),
        next_comma(s, i) < s.len() ==> s[next_comma(s, i)] == TokModel::Punct(','),
        forall|k: int| i <= k < next_comma(s, i) ==> s[k] != TokModel::Punct(','),
    decreases s.len() - i,
{
    if i < s.len() && s[i] != TokModel::Punct(',') {
        lemma_next_comma(s, i + 1);
    }
}

/// The comma-separated elements of `s[i..]`: a trailing comma is allowed,
/// an empty element is not (`None`).
pub open spec fn elements_from(s: Seq<TokModel>, i: int) -> Option<Seq<Seq<TokModel>>>
    decreases s.len() - i,
{
    if i < 0 || i >= s.len() {
        Some(Seq::empty())
    } else {
        let j = next_comma(s, i);
        proof {
            lemma_next_comma(s, i);
        }
        if j <= i {
            None
        } else if j >= s.len() {
            Some(seq![s.subrange(i, j)])
        } else {
            match elements_from(s, j + 1) {
                Some(rest) => Some(seq![s.subrange(i, j)] + rest),
                None => None,
            }
        }
    }
}

pub open spec fn has_punct(s: Seq<TokModel>, c: char) -> bool {
    exists|k: int| 0 <= k < s.len() && s[k] == TokModel::Punct(c)
}

/// A comma-separated list of expressions: no empty element, and no `;`
/// outside a group.
pub open spec fn list_ok(s: Seq<TokModel>) -> bool {
    elements_from(s, 0) is Some && !has_punct(s, ';')
}

/// The groups of a token that are parsed as expressions are well formed:
/// the elements of a parenthesized list or of an array (an array with a
/// `;` is a repeat expression, taken as it stands).
pub open spec fn group_ok(t: TokModel) -> bool
    decreases t, 1int,
{
    match t {
        TokModel::Group(Delim::Paren, inner) => list_ok(inner) && all_ok(inner),
        TokModel::Group(Delim::Bracket, inner) => has_punct(inner, ';') || (list_ok(inner)
            && all_ok(inner)),
        _ => true,
    }
}

pub open spec fn all_ok(s: Seq<TokModel>) -> bool
    decreases s, 0int,
{
    if s.len() == 0 {
        true
    } else {
        all_ok(s.drop_last()) && group_ok(s.last())
    }
}

/// The elements of an array expression whose bracket holds `s`.
pub open spec fn array_items(s: Seq<TokModel>) -> Option<Seq<Seq<TokModel>>> {
    if list_ok(s) && all_ok(s) {
        elements_from(s, 0)
    } else {
        None
    }
}

/// The value of an expression that is one string literal.
pub open spec fn str_lit(e: Seq<TokModel>) -> Option<Seq<char>> {
    if e.len() == 1 {
        match e[0] {
            TokModel::Str(v) => Some(v),
            _ => None,
        }
    } else {
        None
    }
}

/// An expression that is one literal: a string, a number, another
/// literal, `true` or `false`.
pub open spec fn is_literal(e: Seq<TokModel>) -> bool {
    e.len() == 1 && match e[0] {
        TokModel::Str(_) => true,
        TokModel::Int(_) => true,
        TokModel::Lit(_) => true,
        TokModel::Ident(n) => n == "true"@ || n == "false"@,
        _ => false,
    }
}

/// The elements of an expression that is a tuple: a parenthesized group
/// that is empty or holds a comma.
pub open spec fn tuple_items(e: Seq<TokModel>) -> Option<Seq<Seq<TokModel>>> {
    if e.len() == 1 {
        match e[0] {
            TokModel::Group(Delim::Paren, inner) => if inner.len() == 0 || has_punct(inner, ',') {
                elements_from(inner, 0)
            } else {
                None
            },
            _ => None,
        }
    } else {
        None
    }
}

/// The model of an error: the parser's own syntax error, or a message of
/// the attribute's rules.
pub enum ErrModel {
    Syntax,
    Invalid(Seq<char>),
}

pub open spec fn msg_tuple() -> Seq<char> {
    "each version entry must be a tuple: (\"file\", \"symbol\", [\"feat\"])"@
}

pub open spec fn msg_at_least() -> Seq<char> {
    "version tuple must contain at least file string"@
}

pub open spec fn msg_file() -> Seq<char> {
    "version file must be a string literal"@
}

pub open spec fn msg_symbol() -> Seq<char> {
    "symbol must be a string literal"@
}

pub open spec fn msg_feature() -> Seq<char> {
    "features array must contain string literals"@
}

pub open spec fn msg_features() -> Seq<char> {
    "features must be an array of string literals"@
}

pub open spec fn msg_fallback() -> Seq<char> {
    "fallback must be an identifier or string"@
}

pub open spec fn msg_abi_probe() -> Seq<char> {
    "abi_probe must be a boolean literal"@
}

pub open spec fn msg_unknown(k: Seq<char>) -> Seq<char> {
    "unknown key '"@ + k + "'"@
}

/// The strings of a features array.
pub open spec fn features_of(e: Seq<TokModel>) -> Result<Seq<Seq<char>>, ErrModel> {
    if e.len() == 1 && e[0] is Group && e[0]->Group_0 == Delim::Bracket && !has_punct(
        e[0]->Group_1,
        ';',
    ) {
        match elements_from(e[0]->Group_1, 0) {
            Some(items) => if forall|k: int| 0 <= k < items.len() ==> #[trigger] str_lit(items[k]) is Some {
                Ok(Seq::new(items.len(), |k: int| str_lit(items[k])->Some_0))
            } else {
                Err(ErrModel::Invalid(msg_feature()))
            },
            None => Err(ErrModel::Invalid(msg_features())),
        }
    } else {
        Err(ErrModel::Invalid(msg_features()))
    }
}

pub struct VersionModel {
    pub file: Seq<char>,
    pub symbol: Option<Seq<char>>,
    pub features: Seq<Seq<char>>,
}

/// One element of the `versions` array.
pub open spec fn version_of(e: Seq<TokModel>) -> Result<VersionModel, ErrModel> {
    match tuple_items(e) {
        None => Err(ErrModel::Invalid(msg_tuple())),
        Some(es) => if es.len() < 1 {
            Err(ErrModel::Invalid(msg_at_least()))
        } else {
            match str_lit(es[0]) {
                None => Err(ErrModel::Invalid(msg_file())),
                Some(file) => {
                    let symbol: Result<Option<Seq<char>>, ErrModel> = if es.len() > 1 {
                        match str_lit(es[1]) {
                            Some(v) => Ok(Some(v)),
                            None => if is_literal(es[1]) {
                                Err(ErrModel::Invalid(msg_symbol()))
                            } else {
                                Ok(None)
                            },
                        }
                    } else {
                        Ok(None)
                    };
                    match symbol {
                        Err(x) => Err(x),
                        Ok(sym) => {
                            let feats = if es.len() > 2 {
                                features_of(es[2])
                            } else {
                                Ok(Seq::empty())
                            };
                            match feats {
                                Err(x) => Err(x),
                                Ok(fs) => Ok(VersionModel { file, symbol: sym, features: fs }),
                            }
                        },
                    }
                },
            }
        },
    }
}

/// The elements of the `versions` array in order; the first bad one
/// gives the error.
pub open spec fn versions_of(es: Seq<Seq<TokModel>>) -> Result<Seq<VersionModel>, ErrModel>
    decreases es.len(),
{
    if es.len() == 0 {
        Ok(Seq::empty())
    } else {
        match versions_of(es.drop_last()) {
            Err(x) => Err(x),
            Ok(vs) => match version_of(es.last()) {
                Ok(v) => Ok(vs.push(v)),
                Err(x) => Err(x),
            },
        }
    }
}

pub struct AttrModel {
    pub versions: Seq<VersionModel>,
    pub entry: Option<Seq<char>>,
    pub fallback: Option<Seq<char>>,
    pub invariants: Seq<Seq<TokModel>>,
    pub abi_probe: bool,
    pub sample_size: Option<usize>,
}

pub open spec fn empty_attr() -> AttrModel {
    AttrModel {
        versions: Seq::empty(),
        entry: None,
        fallback: None,
        invariants: Seq::empty(),
        abi_probe: false,
        sample_size: None,
    }
}

/// The array after `=` at `v`.
pub open spec fn array_at(ts: Seq<TokModel>, v: int) -> Option<Seq<Seq<TokModel>>> {
    if 0 <= v < ts.len() {
        match ts[v] {
            TokModel::Group(Delim::Bracket, inner) => array_items(inner),
            _ => None,
        }
    } else {
        None
    }
}

/// Where an expression that is one token at `i - 1` ends: at the end, at
/// a comma, or before the next key.
pub open spec fn ends_expression(ts: Seq<TokModel>, i: int) -> bool {
    i >= ts.len() || ts[i] == TokModel::Punct(',') || (ts[i] is Ident && !is_keyword(
        ts[i]->Ident_0,
    ))
}

/// The boolean literal after `abi_probe =`.
pub open spec fn bool_at(ts: Seq<TokModel>, v: int) -> Result<bool, ErrModel> {
    if v < 0 || v >= ts.len() || ts[v] == TokModel::Punct(',') {
        Err(ErrModel::Syntax)
    } else {
        match ts[v] {
            TokModel::Ident(n) => if (n == "true"@ || n == "false"@) && ends_expression(ts, v + 1) {
                Ok(n == "true"@)
            } else {
                Err(ErrModel::Invalid(msg_abi_probe()))
            },
            _ => Err(ErrModel::Invalid(msg_abi_probe())),
        }
    }
}

/// The value of key `k` at `v`: the position after it and the attribute
/// with it recorded.
pub open spec fn value_step(ts: Seq<TokModel>, v: int, k: Seq<char>, acc: AttrModel) -> Result<
    (int, AttrModel),
    ErrModel,
> {
    if k == "versions"@ {
        match array_at(ts, v) {
            None => Err(ErrModel::Syntax),
            Some(es) => match versions_of(es) {
                Ok(vs) => Ok((v + 1, AttrModel { versions: acc.versions + vs, ..acc })),
                Err(x) => Err(x),
            },
        }
    } else if k == "entry"@ {
        if 0 <= v < ts.len() && ts[v] is Str {
            Ok((v + 1, AttrModel { entry: Some(ts[v]->Str_0), ..acc }))
        } else {
            Err(ErrModel::Syntax)
        }
    } else if k == "fallback"@ {
        if 0 <= v < ts.len() && ts[v] is Ident && !is_keyword(ts[v]->Ident_0) {
            Ok((v + 1, AttrModel { fallback: Some(ts[v]->Ident_0), ..acc }))
        } else if 0 <= v < ts.len() && ts[v] is Str {
            Ok((v + 1, AttrModel { fallback: Some(ts[v]->Str_0), ..acc }))
        } else {
            Err(ErrModel::Invalid(msg_fallback()))
        }
    } else if k == "invariants"@ {
        match array_at(ts, v) {
            None => Err(ErrModel::Syntax),
            Some(es) => Ok((v + 1, AttrModel { invariants: acc.invariants + es, ..acc })),
        }
    } else if k == "abi_probe"@ {
        match bool_at(ts, v) {
            Ok(b) => Ok((v + 1, AttrModel { abi_probe: b, ..acc })),
            Err(x) => Err(x),
        }
    } else if k == "abi_probe_sample_size"@ {
        if 0 <= v < ts.len() && ts[v] is Int {
            match parse_usize(ts[v]->Int_0) {
                Some(n) => Ok((v + 1, AttrModel { sample_size: Some(n as usize), ..acc })),
                None => Err(ErrModel::Syntax),
            }
        } else {
            Err(ErrModel::Syntax)
        }
    } else {
        Err(ErrModel::Invalid(msg_unknown(k)))
    }
}

/// One `key = value` pair at `p`.
pub open spec fn key_step(ts: Seq<TokModel>, p: int, acc: AttrModel) -> Result<
    (int, AttrModel),
    ErrModel,
> {
    if 0 <= p < ts.len() && ts[p] is Ident && !is_keyword(ts[p]->Ident_0) {
        if p + 1 < ts.len() && ts[p + 1] == TokModel::Punct('=') {
            value_step(ts, p + 2, ts[p]->Ident_0, acc)
        } else {
            Err(ErrModel::Syntax)
        }
    } else {
        Err(ErrModel::Syntax)
    }
}

pub open spec fn after_comma(ts: Seq<TokModel>, q: int) -> int {
    if 0 <= q < ts.len() && ts[q] == TokModel::Punct(',') {
        q + 1
    } else {
        q
    }
}

/// The pairs from `p` on, recorded into `acc`; a comma after each value is
/// optional.
pub open spec fn parse_from(ts: Seq<TokModel>, p: int, acc: AttrModel) -> Result<AttrModel, ErrModel>
    decreases ts.len() - p,
{
    if p < 0 || p >= ts.len() {
        Ok(acc)
    } else {
        match key_step(ts, p, acc) {
            Err(x) => Err(x),
            Ok((q, acc2)) => if q <= p {
                Err(ErrModel::Syntax)
            } else {
                parse_from(ts, after_comma(ts, q), acc2)
            },
        }
    }
}

/// What the attribute's tokens read as.
pub open spec fn attr_parse(ts: Seq<TokModel>) -> Result<AttrModel, ErrModel> {
    parse_from(ts, 0, empty_attr())
}


// ---------------------------------------------------------------------
// The parsed attribute.
// ---------------------------------------------------------------------

/// One assembly variant: its file, the symbol it defines (if named) and
/// the CPU features it needs.
#[derive(Debug)]
pub struct VersionSpec {
    pub file: String,
    pub symbol: Option<String>,
    pub features: Vec<String>,
}

impl VersionSpec {
    pub open spec fn view(&self) -> VersionModel {
        VersionModel {
            file: self.file@,
            symbol: opt_chars(self.symbol),
            features: strings_view(self.features@),
        }
    }
}

/// The settings of a multiversioned function. `fallback` is the name of
/// the Rust function to fall back to, written as an identifier or as a
/// string (a string is kept as written: whether it is a valid identifier is
/// for the code that names the function with it); each invariant is kept
/// as the tokens of its expression.
#[derive(Debug)]
pub struct MultiAttr {
    pub versions: Vec<VersionSpec>,
    pub entry: Option<String>,
    pub fallback: Option<String>,
    pub invariants: Vec<Vec<AttrToken>>,
    pub abi_probe: bool,
    pub abi_probe_sample_size: Option<usize>,
}

pub open spec fn versions_model(s: Seq<VersionSpec>) -> Seq<VersionModel> {
    Seq::new(s.len(), |i: int| s[i]@)
}

pub open spec fn groups_model(s: Seq<Vec<AttrToken>>) -> Seq<Seq<TokModel>> {
    Seq::new(s.len(), |i: int| tokens_model(s[i]@))
}

impl MultiAttr {
    pub open spec fn view(&self) -> AttrModel {
        AttrModel {
            versions: versions_model(self.versions@),
            entry: opt_chars(self.entry),
            fallback: opt_chars(self.fallback),
            invariants: groups_model(self.invariants@),
            abi_probe: self.abi_probe,
            sample_size: self.abi_probe_sample_size,
        }
    }
}

/// Why the attribute was refused: a token sequence that is not
/// `key = value` pairs of well-formed expressions, or a message of the
/// attribute's own rules.
#[derive(Debug)]
pub enum AttrError {
    Syntax,
    Invalid(String),
}

impl AttrError {
    pub open spec fn view(&self) -> ErrModel {
        match self {
            AttrError::Syntax => ErrModel::Syntax,
            AttrError::Invalid(m) => ErrModel::Invalid(m@),
        }
    }
}

pub open spec fn opt_groups(r: Option<Vec<Vec<AttrToken>>>) -> Option<Seq<Seq<TokModel>>> {
    match r {
        Some(es) => Some(groups_model(es@)),
        None => None,
    }
}

pub open spec fn opt_cat(a: Seq<Seq<TokModel>>, o: Option<Seq<Seq<TokModel>>>) -> Option<
    Seq<Seq<TokModel>>,
> {
    match o {
        Some(r) => Some(a + r),
        None => None,
    }
}

/// Whether `t` is the punctuation character `c`.
pub fn is_punct_tok(t: &AttrToken, c: char) -> (r: bool)
    ensures
        r == (token_model(*t) == TokModel::Punct(c)),
{
    match t {
        AttrToken::Punct(d) => *d == c,
        _ => false,
    }
}

/// Index of the first `,` of `v` at or after `i`, or `v.len()`.
pub fn next_comma_exec(v: &Vec<AttrToken>, i: usize) -> (r: usize)
    requires
        i <= v.len(),
    ensures
        r == next_comma(tokens_model(v@), i as int),
{
    let ghost ts = tokens_model(v@);
    proof {
        lemma_tokens_model_len(v@);
    }
    let mut k = i;
    while k < v.len()
        invariant
            i <= k <= v.len(),
            ts == tokens_model(v@),
            ts.len() == v.len(),
            next_comma(ts, i as int) == next_comma(ts, k as int),
        decreases v.len() - k,
    {
        proof {
            lemma_tokens_model_index(v@, k as int);
        }
        if is_punct_tok(&v[k], ',') {
            return k;
        }
        k = k + 1;
    }
    k
}

/// The comma-separated elements of `v`, each copied; `None` where one is
/// empty.
pub fn elements_exec(v: &Vec<AttrToken>) -> (r: Option<Vec<Vec<AttrToken>>>)
    ensures
        opt_groups(r) == elements_from(tokens_model(v@), 0),
{
    let ghost ts = tokens_model(v@);
    proof {
        lemma_tokens_model_len(v@);
    }
    let mut out: Vec<Vec<AttrToken>> = Vec::new();
    let mut i: usize = 0;
    proof {
        assert(groups_model(out@) =~= Seq::<Seq<TokModel>>::empty());
        match elements_from(ts, 0) {
            Some(r0) => {
                assert(groups_model(out@) + r0 =~= r0);
            },
            None => {},
        }
    }
    while i < v.len()
        invariant
            i <= v.len(),
            ts == tokens_model(v@),
            ts.len() == v.len(),
            elements_from(ts, 0) == opt_cat(groups_model(out@), elements_from(ts, i as int)),
        decreases v.len() - i,
    {
        let j = next_comma_exec(v, i);
        proof {
            lemma_next_comma(ts, i as int);
        }
        if j == i {
            return None;
        }
        let e = clone_range(v, i, j);
        proof {
            lemma_tokens_model_subrange(v@, i as int, j as int);
        }
        let ghost prev = groups_model(out@);
        let ghost sub = ts.subrange(i as int, j as int);
        out.push(e);
        proof {
            assert(groups_model(out@) =~= prev.push(sub));
        }
        if j >= v.len() {
            proof {
                assert(prev + seq![sub] =~= prev.push(sub));
                assert(prev.push(sub) + Seq::<Seq<TokModel>>::empty() =~= prev.push(sub));
            }
            i = v.len();
        } else {
            proof {
                match elements_from(ts, j + 1) {
                    Some(rest) => {
                        assert(prev + (seq![sub] + rest) =~= prev.push(sub) + rest);
                    },
                    None => {},
                }
            }
            i = j + 1;
        }
    }
    proof {
        assert(groups_model(out@) + Seq::<Seq<TokModel>>::empty() =~= groups_model(out@));
    }
    Some(out)
}

/// Whether `v` holds the punctuation character `c` outside its groups.
pub fn has_punct_exec(v: &Vec<AttrToken>, c: char) -> (r: bool)
    ensures
        r == has_punct(tokens_model(v@), c),
{
    let ghost ts = tokens_model(v@);
    proof {
        lemma_tokens_model_len(v@);
    }
    let mut k: usize = 0;
    while k < v.len()
        invariant
            k <= v.len(),
            ts == tokens_model(v@),
            ts.len() == v.len(),
            forall|m: int| 0 <= m < k ==> ts[m] != TokModel::Punct(c),
        decreases v.len() - k,
    {
        proof {
            lemma_tokens_model_index(v@, k as int);
        }
        if is_punct_tok(&v[k], c) {
            return true;
        }
        k = k + 1;
    }
    false
}

/// Whether `v` is a well-formed comma-separated list.
pub fn list_ok_exec(v: &Vec<AttrToken>) -> (r: bool)
    ensures
        r == list_ok(tokens_model(v@)),
{
    let es = elements_exec(v);
    es.is_some() && !has_punct_exec(v, ';')
}

/// Whether the groups of `t` are well formed (see `group_ok`).
pub fn group_ok_exec(t: &AttrToken) -> (r: bool)
    ensures
        r == group_ok(token_model(*t)),
    decreases t, 1int,
{
    match t {
        AttrToken::Group(d, inner) => match d {
            Delim::Paren => list_ok_exec(inner) && all_ok_exec(inner),
            Delim::Bracket => has_punct_exec(inner, ';') || (list_ok_exec(inner) && all_ok_exec(
                inner,
            )),
            Delim::Brace => true,
        },
        _ => true,
    }
}

/// Whether the groups of every token of `v` are well formed.
pub fn all_ok_exec(v: &Vec<AttrToken>) -> (r: bool)
    ensures
        r == all_ok(tokens_model(v@)),
    decreases v, 0int,
{
    let ghost ts = tokens_model(v@);
    proof {
        lemma_tokens_model_len(v@);
        assert(ts.subrange(0, 0) =~= Seq::<TokModel>::empty());
    }
    let mut ok = true;
    let mut i: usize = 0;
    while i < v.len()
        invariant
            i <= v.len(),
            ts == tokens_model(v@),
            ts.len() == v.len(),
            ok == all_ok(ts.subrange(0, i as int)),
        decreases v.len() - i,
    {
        proof {
            assert(decreases_to!(v => v@));
            assert(decreases_to!(v@ => v@[i as int]));
            lemma_tokens_model_index(v@, i as int);
        }
        let g = group_ok_exec(&v[i]);
        proof {
            let s2 = ts.subrange(0, i + 1);
            assert(s2.drop_last() =~= ts.subrange(0, i as int));
            assert(s2.last() == ts[i as int]);
        }
        ok = ok && g;
        i = i + 1;
    }
    proof {
        assert(ts.subrange(0, ts.len() as int) =~= ts);
    }
    ok
}

/// The elements of an array expression whose bracket holds `v`.
pub fn array_items_exec(v: &Vec<AttrToken>) -> (r: Option<Vec<Vec<AttrToken>>>)
    ensures
        opt_groups(r) == array_items(tokens_model(v@)),
{
    if list_ok_exec(v) && all_ok_exec(v) {
        elements_exec(v)
    } else {
        None
    }
}


pub open spec fn strings_result(r: Result<Vec<String>, AttrError>) -> Result<
    Seq<Seq<char>>,
    ErrModel,
> {
    match r {
        Ok(v) => Ok(strings_view(v@)),
        Err(x) => Err(x@),
    }
}

pub open spec fn version_result(r: Result<VersionSpec, AttrError>) -> Result<VersionModel, ErrModel> {
    match r {
        Ok(v) => Ok(v@),
        Err(x) => Err(x@),
    }
}

pub open spec fn versions_result(r: Result<Vec<VersionSpec>, AttrError>) -> Result<
    Seq<VersionModel>,
    ErrModel,
> {
    match r {
        Ok(v) => Ok(versions_model(v@)),
        Err(x) => Err(x@),
    }
}

/// An error with one of the attribute's messages.
pub fn invalid(m: &str) -> (r: AttrError)
    ensures
        r@ == ErrModel::Invalid(m@),
{
    AttrError::Invalid(String::from_str(m))
}

/// The value of an expression that is one string literal.
pub fn str_lit_exec(e: &Vec<AttrToken>) -> (r: Option<String>)
    ensures
        opt_chars(r) == str_lit(tokens_model(e@)),
{
    proof {
        lemma_tokens_model_len(e@);
    }
    if e.len() == 1 {
        proof {
            lemma_tokens_model_index(e@, 0);
        }
        match &e[0] {
            AttrToken::Str(v) => Some(v.clone()),
            _ => None,
        }
    } else {
        None
    }
}

/// Whether an expression is one literal.
pub fn is_literal_exec(e: &Vec<AttrToken>) -> (r: bool)
    ensures
        r == is_literal(tokens_model(e@)),
{
    proof {
        lemma_tokens_model_len(e@);
    }
    if e.len() == 1 {
        proof {
            lemma_tokens_model_index(e@, 0);
        }
        match &e[0] {
            AttrToken::Str(_) => true,
            AttrToken::Int(_) => true,
            AttrToken::Lit(_) => true,
            AttrToken::Ident(n) => str_is(n, "true") || str_is(n, "false"),
            _ => false,
        }
    } else {
        false
    }
}

/// The elements of an expression that is a tuple.
pub fn tuple_items_exec(e: &Vec<AttrToken>) -> (r: Option<Vec<Vec<AttrToken>>>)
    ensures
        opt_groups(r) == tuple_items(tokens_model(e@)),
{
    proof {
        lemma_tokens_model_len(e@);
    }
    if e.len() == 1 {
        proof {
            lemma_tokens_model_index(e@, 0);
        }
        match &e[0] {
            AttrToken::Group(Delim::Paren, inner) => {
                proof {
                    lemma_tokens_model_len(inner@);
                }
                if inner.len() == 0 || has_punct_exec(inner, ',') {
                    elements_exec(inner)
                } else {
                    None
                }
            },
            _ => None,
        }
    } else {
        None
    }
}

/// The strings of a features array.
#[verifier::loop_isolation(false)]
pub fn features_exec(e: &Vec<AttrToken>) -> (r: Result<Vec<String>, AttrError>)
    ensures
        strings_result(r) == features_of(tokens_model(e@)),
{
    proof {
        lemma_tokens_model_len(e@);
    }
    if e.len() != 1 {
        return Err(invalid("features must be an array of string literals"));
    }
    proof {
        lemma_tokens_model_index(e@, 0);
    }
    match &e[0] {
        AttrToken::Group(Delim::Bracket, inner) => {
            if has_punct_exec(inner, ';') {
                return Err(invalid("features must be an array of string literals"));
            }
            match elements_exec(inner) {
                None => Err(invalid("features must be an array of string literals")),
                Some(items) => {
                    let ghost gm = groups_model(items@);
                    let mut out: Vec<String> = Vec::new();
                    let mut k: usize = 0;
                    while k < items.len()
                        invariant
                            k <= items.len(),
                            gm == groups_model(items@),
                            forall|m: int| 0 <= m < k ==> #[trigger] str_lit(gm[m]) is Some,
                            strings_view(out@) =~= Seq::new(
                                k as nat,
                                |m: int| str_lit(gm[m])->Some_0,
                            ),
                        decreases items.len() - k,
                    {
                        let ghost prev = out@;
                        match str_lit_exec(&items[k]) {
                            Some(v) => {
                                out.push(v);
                                proof {
                                    assert(str_lit(gm[k as int]) == Some(out@[k as int]@));
                                    assert(out@.drop_last() == prev);
                                }
                            },
                            None => {
                                assert(!(str_lit(gm[k as int]) is Some));
                                return Err(invalid("features array must contain string literals"));
                            },
                        }
                        proof {
                            assert(strings_view(prev).len() == k);
                            assert forall|m: int| 0 <= m < k + 1 implies strings_view(out@)[m]
                                == str_lit(gm[m])->Some_0 by {
                                if m < k {
                                    assert(out@[m] == prev[m]);
                                    assert(strings_view(prev)[m] == prev[m]@);
                                }
                            }
                            assert(strings_view(out@) =~= Seq::new(
                                (k + 1) as nat,
                                |m: int| str_lit(gm[m])->Some_0,
                            ));
                        }
                        k = k + 1;
                    }
                    Ok(out)
                },
            }
        },
        _ => Err(invalid("features must be an array of string literals")),
    }
}

/// One element of the `versions` array.
pub fn version_exec(e: &Vec<AttrToken>) -> (r: Result<VersionSpec, AttrError>)
    ensures
        version_result(r) == version_of(tokens_model(e@)),
{
    match tuple_items_exec(e) {
        None => Err(invalid("each version entry must be a tuple: (\"file\", \"symbol\", [\"feat\"])")),
        Some(es) => {
            if es.len() < 1 {
                return Err(invalid("version tuple must contain at least file string"));
            }
            let file = match str_lit_exec(&es[0]) {
                None => {
                    return Err(invalid("version file must be a string literal"));
                },
                Some(f) => f,
            };
            let mut symbol: Option<String> = None;
            if es.len() > 1 {
                match str_lit_exec(&es[1]) {
                    Some(v) => {
                        symbol = Some(v);
                    },
                    None => {
                        if is_literal_exec(&es[1]) {
                            return Err(invalid("symbol must be a string literal"));
                        }
                    },
                }
            }
            let mut features: Vec<String> = Vec::new();
            if es.len() > 2 {
                match features_exec(&es[2]) {
                    Ok(fs) => {
                        features = fs;
                    },
                    Err(x) => {
                        return Err(x);
                    },
                }
            }
            proof {
                assert(strings_view(Seq::<String>::empty()) =~= Seq::<Seq<char>>::empty());
            }
            Ok(VersionSpec { file, symbol, features })
        },
    }
}

proof fn lemma_versions_err_extends(s: Seq<Seq<TokModel>>, n: int, m: int)
    requires
        0 <= n <= m <= s.len(),
        versions_of(s.take(n)) is Err,
    ensures
        versions_of(s.take(m)) == versions_of(s.take(n)),
    decreases m - n,
{
    if m > n {
        lemma_versions_err_extends(s, n, m - 1);
        assert(s.take(m).drop_last() =~= s.take(m - 1));
    }
}

/// The elements of the `versions` array, in order.
pub fn versions_exec(es: &Vec<Vec<AttrToken>>) -> (r: Result<Vec<VersionSpec>, AttrError>)
    ensures
        versions_result(r) == versions_of(groups_model(es@)),
{
    let ghost gm = groups_model(es@);
    let mut out: Vec<VersionSpec> = Vec::new();
    let mut k: usize = 0;
    proof {
        assert(gm.take(0) =~= Seq::<Seq<TokModel>>::empty());
        assert(versions_model(out@) =~= Seq::<VersionModel>::empty());
    }
    while k < es.len()
        invariant
            k <= es.len(),
            gm == groups_model(es@),
            versions_of(gm.take(k as int)) == Ok::<Seq<VersionModel>, ErrModel>(
                versions_model(out@),
            ),
        decreases es.len() - k,
    {
        let v = version_exec(&es[k]);
        proof {
            assert(gm.take(k + 1).drop_last() =~= gm.take(k as int));
            assert(gm.take(k + 1).last() == gm[k as int]);
        }
        match v {
            Ok(x) => {
                let ghost prev = versions_model(out@);
                out.push(x);
                proof {
                    assert(versions_model(out@) =~= prev.push(x@));
                }
            },
            Err(x) => {
                proof {
                    lemma_versions_err_extends(gm, k + 1, gm.len() as int);
                    assert(gm.take(gm.len() as int) =~= gm);
                }
                return Err(x);
            },
        }
        k = k + 1;
    }
    proof {
        assert(gm.take(gm.len() as int) =~= gm);
    }
    Ok(out)
}


/// Whether `s` is a keyword (or `_`), which cannot name a key.
pub fn is_keyword_exec(s: &String) -> (r: bool)
    ensures
        r == is_keyword(s@),
{
    str_is(s, "_")
        || str_is(s, "abstract")
        || str_is(s, "as")
        || str_is(s, "async")
        || str_is(s, "await")
        || str_is(s, "become")
        || str_is(s, "box")
        || str_is(s, "break")
        || str_is(s, "const")
        || str_is(s, "continue")
        || str_is(s, "crate")
        || str_is(s, "do")
        || str_is(s, "dyn")
        || str_is(s, "else")
        || str_is(s, "enum")
        || str_is(s, "extern")
        || str_is(s, "false")
        || str_is(s, "final")
        || str_is(s, "fn")
        || str_is(s, "for")
        || str_is(s, "if")
        || str_is(s, "impl")
        || str_is(s, "in")
        || str_is(s, "let")
        || str_is(s, "loop")
        || str_is(s, "macro")
        || str_is(s, "match")
        || str_is(s, "mod")
        || str_is(s, "move")
        || str_is(s, "mut")
        || str_is(s, "override")
        || str_is(s, "priv")
        || str_is(s, "pub")
        || str_is(s, "ref")
        || str_is(s, "return")
        || str_is(s, "Self")
        || str_is(s, "self")
        || str_is(s, "static")
        || str_is(s, "struct")
        || str_is(s, "super")
        || str_is(s, "trait")
        || str_is(s, "true")
        || str_is(s, "try")
        || str_is(s, "type")
        || str_is(s, "typeof")
        || str_is(s, "unsafe")
        || str_is(s, "unsized")
        || str_is(s, "use")
        || str_is(s, "virtual")
        || str_is(s, "where")
        || str_is(s, "while")
        || str_is(s, "yield")
}

pub open spec fn step_result(r: Result<(usize, MultiAttr), AttrError>) -> Result<
    (int, AttrModel),
    ErrModel,
> {
    match r {
        Ok((q, m)) => Ok((q as int, m@)),
        Err(x) => Err(x@),
    }
}

pub open spec fn attr_result(r: Result<MultiAttr, AttrError>) -> Result<AttrModel, ErrModel> {
    match r {
        Ok(m) => Ok(m@),
        Err(x) => Err(x@),
    }
}

/// The array after `=` at `i`.
pub fn array_at_exec(v: &Vec<AttrToken>, i: usize) -> (r: Option<Vec<Vec<AttrToken>>>)
    ensures
        opt_groups(r) == array_at(tokens_model(v@), i as int),
{
    proof {
        lemma_tokens_model_len(v@);
    }
    if i < v.len() {
        proof {
            lemma_tokens_model_index(v@, i as int);
        }
        match &v[i] {
            AttrToken::Group(Delim::Bracket, inner) => array_items_exec(inner),
            _ => None,
        }
    } else {
        None
    }
}

/// Whether an expression of one token ends before `i`.
pub fn ends_expression_exec(v: &Vec<AttrToken>, i: usize) -> (r: bool)
    ensures
        r == ends_expression(tokens_model(v@), i as int),
{
    proof {
        lemma_tokens_model_len(v@);
    }
    if i >= v.len() {
        return true;
    }
    proof {
        lemma_tokens_model_index(v@, i as int);
    }
    match &v[i] {
        AttrToken::Punct(c) => *c == ',',
        AttrToken::Ident(n) => !is_keyword_exec(n),
        _ => false,
    }
}

/// The boolean literal at `i`.
pub fn bool_at_exec(v: &Vec<AttrToken>, i: usize) -> (r: Result<bool, AttrError>)
    ensures
        match r {
            Ok(b) => bool_at(tokens_model(v@), i as int) == Ok::<bool, ErrModel>(b),
            Err(x) => bool_at(tokens_model(v@), i as int) == Err::<bool, ErrModel>(x@),
        },
{
    proof {
        lemma_tokens_model_len(v@);
    }
    if i >= v.len() {
        return Err(AttrError::Syntax);
    }
    proof {
        lemma_tokens_model_index(v@, i as int);
    }
    if is_punct_tok(&v[i], ',') {
        return Err(AttrError::Syntax);
    }
    match &v[i] {
        AttrToken::Ident(n) => {
            let t = str_is(n, "true");
            if (t || str_is(n, "false")) && i + 1 <= v.len() && ends_expression_exec(v, i + 1) {
                Ok(t)
            } else {
                Err(invalid("abi_probe must be a boolean literal"))
            }
        },
        _ => Err(invalid("abi_probe must be a boolean literal")),
    }
}

/// The value of key `k` at `i`, recorded into `acc`.
#[verifier::rlimit(40)]
pub fn value_step_exec(v: &Vec<AttrToken>, i: usize, k: &String, acc: MultiAttr) -> (r: Result<
    (usize, MultiAttr),
    AttrError,
>)
    requires
        i <= v.len(),
    ensures
        step_result(r) == value_step(tokens_model(v@), i as int, k@, acc@),
        r matches Ok((q, _)) ==> i < q <= v.len(),
{
    let ghost ts = tokens_model(v@);
    proof {
        lemma_tokens_model_len(v@);
        if i < v.len() {
            lemma_tokens_model_index(v@, i as int);
        }
    }
    let mut acc = acc;
    let ghost old_acc = acc@;
    if str_is(k, "versions") {
        let es = match array_at_exec(v, i) {
            None => {
                return Err(AttrError::Syntax);
            },
            Some(es) => es,
        };
        match versions_exec(&es) {
            Err(x) => Err(x),
            Ok(vs) => {
                let mut vs = vs;
                let ghost added = versions_model(vs@);
                let ghost before = acc.versions@;
                acc.versions.append(&mut vs);
                proof {
                    assert(versions_model(acc.versions@) =~= versions_model(before) + added);
                }
                Ok((i + 1, acc))
            },
        }
    } else if str_is(k, "entry") {
        if i < v.len() {
            match &v[i] {
                AttrToken::Str(e) => {
                    acc.entry = Some(e.clone());
                    return Ok((i + 1, acc));
                },
                _ => {},
            }
        }
        Err(AttrError::Syntax)
    } else if str_is(k, "fallback") {
        if i < v.len() {
            match &v[i] {
                AttrToken::Ident(n) => {
                    if !is_keyword_exec(n) {
                        acc.fallback = Some(n.clone());
                        return Ok((i + 1, acc));
                    }
                },
                AttrToken::Str(n) => {
                    acc.fallback = Some(n.clone());
                    return Ok((i + 1, acc));
                },
                _ => {},
            }
        }
        Err(invalid("fallback must be an identifier or string"))
    } else if str_is(k, "invariants") {
        let es = match array_at_exec(v, i) {
            None => {
                return Err(AttrError::Syntax);
            },
            Some(es) => es,
        };
        let mut es = es;
        let ghost added = groups_model(es@);
        let ghost before = acc.invariants@;
        acc.invariants.append(&mut es);
        proof {
            assert(groups_model(acc.invariants@) =~= groups_model(before) + added);
        }
        Ok((i + 1, acc))
    } else if str_is(k, "abi_probe") {
        match bool_at_exec(v, i) {
            Ok(b) => {
                acc.abi_probe = b;
                Ok((i + 1, acc))
            },
            Err(x) => Err(x),
        }
    } else if str_is(k, "abi_probe_sample_size") {
        if i < v.len() {
            match &v[i] {
                AttrToken::Int(d) => {
                    return match parse_usize_exec(d.as_str()) {
                        Some(n) => {
                            acc.abi_probe_sample_size = Some(n);
                            Ok((i + 1, acc))
                        },
                        None => Err(AttrError::Syntax),
                    };
                },
                _ => {},
            }
        }
        Err(AttrError::Syntax)
    } else {
        let mut m = String::from_str("unknown key '");
        m.append(k.as_str());
        m.append("'");
        Err(AttrError::Invalid(m))
    }
}

/// One `key = value` pair at `p`, recorded into `acc`.
pub fn key_step_exec(v: &Vec<AttrToken>, p: usize, acc: MultiAttr) -> (r: Result<
    (usize, MultiAttr),
    AttrError,
>)
    requires
        p < v.len(),
    ensures
        step_result(r) == key_step(tokens_model(v@), p as int, acc@),
        r matches Ok((q, _)) ==> p < q <= v.len(),
{
    proof {
        lemma_tokens_model_len(v@);
        lemma_tokens_model_index(v@, p as int);
    }
    let k = match &v[p] {
        AttrToken::Ident(k) => k,
        _ => {
            return Err(AttrError::Syntax);
        },
    };
    if is_keyword_exec(k) {
        return Err(AttrError::Syntax);
    }
    if p + 1 >= v.len() {
        return Err(AttrError::Syntax);
    }
    proof {
        lemma_tokens_model_index(v@, p + 1);
    }
    if !is_punct_tok(&v[p + 1], '=') {
        return Err(AttrError::Syntax);
    }
    value_step_exec(v, p + 2, k, acc)
}

impl MultiAttr {
    /// Reads the attribute of a multiversioned function from its tokens:
    /// `key = value` pairs, each followed by an optional comma, with the keys
    /// `versions` (an array of `("file", "symbol", ["feature", ..])` tuples,
    /// the symbol and the features optional), `entry` (a string), `fallback`
    /// (an identifier or a string), `invariants` (an array of expressions),
    /// `abi_probe` (`true` or `false`) and `abi_probe_sample_size` (an
    /// integer). A repeated key adds to the arrays and replaces the other
    /// values.
    pub fn parse(tokens: &Vec<AttrToken>) -> (r: Result<MultiAttr, AttrError>)
        ensures
            attr_result(r) == attr_parse(tokens_model(tokens@)),
    {
        let ghost ts = tokens_model(tokens@);
        proof {
            lemma_tokens_model_len(tokens@);
        }
        let mut acc = MultiAttr {
            versions: Vec::new(),
            entry: None,
            fallback: None,
            invariants: Vec::new(),
            abi_probe: false,
            abi_probe_sample_size: None,
        };
        proof {
            assert(versions_model(acc.versions@) =~= Seq::<VersionModel>::empty());
            assert(groups_model(acc.invariants@) =~= Seq::<Seq<TokModel>>::empty());
            assert(acc@ == empty_attr());
        }
        let mut p: usize = 0;
        while p < tokens.len()
            invariant
                p <= tokens.len(),
                ts == tokens_model(tokens@),
                ts.len() == tokens.len(),
                attr_parse(ts) == parse_from(ts, p as int, acc@),
            decreases tokens.len() - p,
        {
            match key_step_exec(tokens, p, acc) {
                Err(x) => {
                    return Err(x);
                },
                Ok((q, next)) => {
                    acc = next;
                    if q < tokens.len() {
                        proof {
                            lemma_tokens_model_index(tokens@, q as int);
                        }
                        if is_punct_tok(&tokens[q], ',') {
                            p = q + 1;
                        } else {
                            p = q;
                        }
                    } else {
                        p = q;
                    }
                },
            }
        }
        Ok(acc)
    }
}

} // verus!
