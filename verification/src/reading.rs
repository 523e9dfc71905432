//! Reading the text of a multiversioned function's attribute and signature:
//! the tokens of the attribute, the shapes of its invariants and the
//! parameters of the signature. `proc_macro2` tokenizes and `syn` parses;
//! each of their calls names one level of what it finds, and the library
//! puts the levels together.
use vstd::prelude::*;
use quote::ToTokens;
use crate::attr::{
    AttrToken, Delim, TokModel, lemma_tokens_model_index, lemma_tokens_model_len, token_model,
    tokens_model,
};
use crate::common::str_is;
use crate::harness::{opt_chars, BinOpKind, ExprShape, Param, ParamModel, ShapeExprModel, ShapeModel, TypeShape, UnOpKind};
use crate::text::{chars_of, push_chars, push_str, string_from_chars, string_of_range};

verus! {

// ---------------------------------------------------------------------
// Tokens.
// ---------------------------------------------------------------------

/// A token tree at the top level of a text: an identifier, a punctuation
/// character, a literal (by its text), or a group (by its text, delimiters
/// included).
pub enum RawTok {
    Ident(String),
    Punct(char),
    Lit(String),
    Group(String),
}

pub enum RawTokModel {
    Ident(Seq<char>),
    Punct(char),
    Lit(Seq<char>),
    Group(Seq<char>),
}

impl RawTok {
    pub open spec fn view(&self) -> RawTokModel {
        match self {
            RawTok::Ident(s) => RawTokModel::Ident(s@),
            RawTok::Punct(c) => RawTokModel::Punct(*c),
            RawTok::Lit(s) => RawTokModel::Lit(s@),
            RawTok::Group(s) => RawTokModel::Group(s@),
        }
    }
}

pub open spec fn opt_raws(r: Option<Vec<RawTok>>) -> Option<Seq<RawTokModel>> {
    match r {
        Some(v) => Some(v@.map_values(|t: RawTok| t@)),
        None => None,
    }
}

/// The token trees `proc_macro2` finds at the top level of `text`
/// (`str::parse::<TokenStream>`); `None` where it does not tokenize.
pub uninterp spec fn token_trees_model(text: Seq<char>) -> Option<Seq<RawTokModel>>;

/// Calls `str::parse::<proc_macro2::TokenStream>` and lists the top-level
/// trees, a group by its `Display` text. The contract names the result.
#[verifier::external_body]
fn token_trees(text: &str) -> (r: Option<Vec<RawTok>>)
    ensures
        opt_raws(r) == token_trees_model(text@),
{
    let ts: proc_macro2::TokenStream = text.parse().ok()?;
    Some(ts.into_iter().map(|tt| match tt {
        proc_macro2::TokenTree::Ident(i) => RawTok::Ident(i.to_string()),
        proc_macro2::TokenTree::Punct(p) => RawTok::Punct(p.as_char()),
        proc_macro2::TokenTree::Literal(l) => RawTok::Lit(l.to_string()),
        proc_macro2::TokenTree::Group(g) => RawTok::Group(g.to_string()),
    }).collect())
}

/// What `syn` reads a literal as: a string (its value), an integer (its
/// decimal digits), or another literal.
pub enum LitKind {
    Str(String),
    Int(String),
    Other,
}

pub enum LitModel {
    Str(Seq<char>),
    Int(Seq<char>),
    Other,
}

pub open spec fn opt_lit(r: Option<LitKind>) -> Option<LitModel> {
    match r {
        Some(LitKind::Str(s)) => Some(LitModel::Str(s@)),
        Some(LitKind::Int(d)) => Some(LitModel::Int(d@)),
        Some(LitKind::Other) => Some(LitModel::Other),
        None => None,
    }
}

/// What `syn::parse_str::<syn::Lit>` reads `text` as.
pub uninterp spec fn literal_model(text: Seq<char>) -> Option<LitModel>;

/// Calls `syn::parse_str::<syn::Lit>`: a string literal gives its value
/// (`LitStr::value`), an integer its digits (`LitInt::base10_digits`). The
/// contract names the result.
#[verifier::external_body]
fn literal_kind(text: &str) -> (r: Option<LitKind>)
    ensures
        opt_lit(r) == literal_model(text@),
{
    Some(match syn::parse_str::<syn::Lit>(text).ok()? {
        syn::Lit::Str(s) => LitKind::Str(s.value()),
        syn::Lit::Int(i) => LitKind::Int(i.base10_digits().to_string()),
        _ => LitKind::Other,
    })
}

/// The delimiter a group's text opens with.
pub open spec fn delim_of(c: char) -> Option<Delim> {
    if c == '(' {
        Some(Delim::Paren)
    } else if c == '[' {
        Some(Delim::Bracket)
    } else if c == '{' {
        Some(Delim::Brace)
    } else {
        None
    }
}

/// The attribute tokens of `text`, groups read down to `depth` levels.
pub open spec fn text_tokens(text: Seq<char>, depth: nat) -> Option<Seq<TokModel>>
    decreases depth, 2nat, 0nat,
{
    match token_trees_model(text) {
        None => None,
        Some(raws) => raws_tokens(raws, depth),
    }
}

pub open spec fn raws_tokens(raws: Seq<RawTokModel>, depth: nat) -> Option<Seq<TokModel>>
    decreases depth, 1nat, raws.len(),
{
    if raws.len() == 0 {
        Some(Seq::empty())
    } else {
        match (raws_tokens(raws.drop_last(), depth), raw_token(raws.last(), depth)) {
            (Some(a), Some(t)) => Some(a.push(t)),
            _ => None,
        }
    }
}

/// One token tree as an attribute token: a literal as `syn` reads it, a
/// group with its inner text read one level down.
pub open spec fn raw_token(t: RawTokModel, depth: nat) -> Option<TokModel>
    decreases depth, 0nat, 0nat,
{
    match t {
        RawTokModel::Ident(s) => Some(TokModel::Ident(s)),
        RawTokModel::Punct(c) => Some(TokModel::Punct(c)),
        RawTokModel::Lit(x) => Some(
            match literal_model(x) {
                Some(LitModel::Str(v)) => TokModel::Str(v),
                Some(LitModel::Int(d)) => TokModel::Int(d),
                _ => TokModel::Lit(x),
            },
        ),
        RawTokModel::Group(g) => if depth == 0 || g.len() < 2 || delim_of(g[0]) is None {
            None
        } else {
            match text_tokens(g.subrange(1, g.len() - 1), (depth - 1) as nat) {
                Some(ts) => Some(TokModel::Group(delim_of(g[0])->0, ts)),
                None => None,
            }
        },
    }
}

pub open spec fn opt_toks(r: Option<Vec<AttrToken>>) -> Option<Seq<TokModel>> {
    match r {
        Some(v) => Some(tokens_model(v@)),
        None => None,
    }
}

pub open spec fn opt_tok(r: Option<AttrToken>) -> Option<TokModel> {
    match r {
        Some(t) => Some(token_model(t)),
        None => None,
    }
}

/// The attribute tokens of `text` (see `text_tokens`).
pub fn attr_tokens_of(text: &str, depth: usize) -> (r: Option<Vec<AttrToken>>)
    ensures
        opt_toks(r) == text_tokens(text@, depth as nat),
    decreases depth, 2usize, 0usize,
{
    match token_trees(text) {
        None => None,
        Some(raws) => raws_tokens_exec(&raws, depth),
    }
}

proof fn lemma_raws_none_extends(raws: Seq<RawTokModel>, depth: nat, n: int, m: int)
    requires
        0 <= n <= m <= raws.len(),
        raws_tokens(raws.take(n), depth) is None,
    ensures
        raws_tokens(raws.take(m), depth) is None,
    decreases m - n,
{
    if m > n {
        lemma_raws_none_extends(raws, depth, n, m - 1);
        assert(raws.take(m).drop_last() =~= raws.take(m - 1));
    }
}

fn raws_tokens_exec(raws: &Vec<RawTok>, depth: usize) -> (r: Option<Vec<AttrToken>>)
    ensures
        opt_toks(r) == raws_tokens(raws@.map_values(|t: RawTok| t@), depth as nat),
    decreases depth, 1usize, 0usize,
{
    let ghost rv = raws@.map_values(|t: RawTok| t@);
    let mut out: Vec<AttrToken> = Vec::new();
    let mut i: usize = 0;
    proof {
        assert(rv.take(0) =~= Seq::<RawTokModel>::empty());
        lemma_tokens_model_len(out@);
    }
    while i < raws.len()
        invariant
            i <= raws@.len(),
            rv == raws@.map_values(|t: RawTok| t@),
            raws_tokens(rv.take(i as int), depth as nat) == Some(tokens_model(out@)),
        decreases raws@.len() - i,
    {
        let t = raw_token_exec(&raws[i], depth);
        proof {
            assert(rv.take(i + 1).drop_last() =~= rv.take(i as int));
            assert(rv.take(i + 1).last() == raws@[i as int]@);
        }
        match t {
            Some(t) => {
                let ghost prev = out@;
                out.push(t);
                proof {
                    assert(out@.drop_last() =~= prev);
                }
            },
            None => {
                proof {
                    lemma_raws_none_extends(rv, depth as nat, i + 1, rv.len() as int);
                    assert(rv.take(rv.len() as int) =~= rv);
                }
                return None;
            },
        }
        i = i + 1;
    }
    proof {
        assert(rv.take(i as int) =~= rv);
    }
    Some(out)
}

fn raw_token_exec(t: &RawTok, depth: usize) -> (r: Option<AttrToken>)
    ensures
        opt_tok(r) == raw_token(t@, depth as nat),
    decreases depth, 0usize, 0usize,
{
    match t {
        RawTok::Ident(s) => Some(AttrToken::Ident(s.clone())),
        RawTok::Punct(c) => Some(AttrToken::Punct(*c)),
        RawTok::Lit(x) => Some(
            match literal_kind(x.as_str()) {
                Some(LitKind::Str(v)) => AttrToken::Str(v),
                Some(LitKind::Int(d)) => AttrToken::Int(d),
                _ => AttrToken::Lit(x.clone()),
            },
        ),
        RawTok::Group(g) => {
            let cs = chars_of(g.as_str());
            let n = cs.len();
            if depth == 0 || n < 2 {
                return None;
            }
            let d = if cs[0] == '(' {
                Delim::Paren
            } else if cs[0] == '[' {
                Delim::Bracket
            } else if cs[0] == '{' {
                Delim::Brace
            } else {
                return None;
            };
            let inner = string_of_range(&cs, 1, n - 1);
            match attr_tokens_of(inner.as_str(), depth - 1) {
                Some(ts) => Some(AttrToken::Group(d, ts)),
                None => None,
            }
        },
    }
}

// ---------------------------------------------------------------------
// Invariant expressions.
// ---------------------------------------------------------------------

/// An expression whose top is an operator: the operator's text and the
/// operands' texts; `Leaf` for any other expression.
pub enum OpNode {
    Binary(String, String, String),
    Unary(String, String),
    Leaf,
}

pub enum OpModel {
    Binary(Seq<char>, Seq<char>, Seq<char>),
    Unary(Seq<char>, Seq<char>),
    Leaf,
}

pub open spec fn opt_op(r: Option<OpNode>) -> Option<OpModel> {
    match r {
        Some(OpNode::Binary(o, a, b)) => Some(OpModel::Binary(o@, a@, b@)),
        Some(OpNode::Unary(o, a)) => Some(OpModel::Unary(o@, a@)),
        Some(OpNode::Leaf) => Some(OpModel::Leaf),
        None => None,
    }
}

/// What `syn::parse_str::<syn::Expr>` finds at the top of `text`, as far as
/// operators go.
pub uninterp spec fn expr_operator_model(text: Seq<char>) -> Option<OpModel>;

/// Calls `syn::parse_str::<syn::Expr>`; a binary or unary expression gives
/// the token text of its operator and operands. The contract names the
/// result.
#[verifier::external_body]
fn expr_operator(text: &str) -> (r: Option<OpNode>)
    ensures
        opt_op(r) == expr_operator_model(text@),
{
    Some(match syn::parse_str::<syn::Expr>(text).ok()? {
        syn::Expr::Binary(b) => OpNode::Binary(
            b.op.to_token_stream().to_string(),
            b.left.to_token_stream().to_string(),
            b.right.to_token_stream().to_string(),
        ),
        syn::Expr::Unary(u) => OpNode::Unary(u.op.to_token_stream().to_string(), u.expr.to_token_stream().to_string()),
        _ => OpNode::Leaf,
    })
}

/// An expression that is not an operator: a literal (its text), a path (its first segment), a method call (its receiver's text and the
/// method's name), a field (its base's text and the member), or another.
pub enum LeafNode {
    Lit(String),
    Path(String),
    MethodCall(String, String),
    Field(String, String),
    Other,
}

pub enum LeafModel {
    Lit(Seq<char>),
    Path(Seq<char>),
    MethodCall(Seq<char>, Seq<char>),
    Field(Seq<char>, Seq<char>),
    Other,
}

pub open spec fn opt_leaf(r: Option<LeafNode>) -> Option<LeafModel> {
    match r {
        Some(LeafNode::Lit(x)) => Some(LeafModel::Lit(x@)),
        Some(LeafNode::Path(p)) => Some(LeafModel::Path(p@)),
        Some(LeafNode::MethodCall(r, m)) => Some(LeafModel::MethodCall(r@, m@)),
        Some(LeafNode::Field(b, m)) => Some(LeafModel::Field(b@, m@)),
        Some(LeafNode::Other) => Some(LeafModel::Other),
        None => None,
    }
}

/// What `syn::parse_str::<syn::Expr>` finds at the top of `text`, as far as
/// literals, paths, method calls and fields go.
pub uninterp spec fn expr_leaf_model(text: Seq<char>) -> Option<LeafModel>;

/// Calls `syn::parse_str::<syn::Expr>` and reads a literal's text, a path, a
/// method call or a field access. The contract names the result.
#[verifier::external_body]
fn expr_leaf(text: &str) -> (r: Option<LeafNode>)
    ensures
        opt_leaf(r) == expr_leaf_model(text@),
{
    Some(match syn::parse_str::<syn::Expr>(text).ok()? {
        syn::Expr::Lit(l) => LeafNode::Lit(l.lit.to_token_stream().to_string()),
        syn::Expr::Path(p) => LeafNode::Path(p.path.segments[0].ident.to_string()),
        syn::Expr::MethodCall(c) => LeafNode::MethodCall(c.receiver.to_token_stream().to_string(), c.method.to_string()),
        syn::Expr::Field(f) => LeafNode::Field(f.base.to_token_stream().to_string(), f.member.to_token_stream().to_string()),
        _ => LeafNode::Other,
    })
}

pub open spec fn bin_kind(o: Seq<char>) -> BinOpKind {
    if o == "+"@ {
        BinOpKind::Add
    } else if o == "-"@ {
        BinOpKind::Sub
    } else if o == "*"@ {
        BinOpKind::Mul
    } else if o == "/"@ {
        BinOpKind::Div
    } else if o == "%"@ {
        BinOpKind::Rem
    } else if o == "=="@ {
        BinOpKind::Eq
    } else if o == "<"@ {
        BinOpKind::Lt
    } else if o == "<="@ {
        BinOpKind::Le
    } else if o == "!="@ {
        BinOpKind::Ne
    } else if o == ">="@ {
        BinOpKind::Ge
    } else if o == ">"@ {
        BinOpKind::Gt
    } else {
        BinOpKind::Other
    }
}

pub open spec fn un_kind(o: Seq<char>) -> UnOpKind {
    if o == "!"@ {
        UnOpKind::Not
    } else if o == "-"@ {
        UnOpKind::Neg
    } else {
        UnOpKind::Other
    }
}

/// The first path segment of an expression that is a path.
pub open spec fn path_head(t: Seq<char>) -> Option<Seq<char>> {
    match expr_leaf_model(t) {
        Some(LeafModel::Path(s)) => Some(s),
        _ => None,
    }
}

/// The shape of the expression `text`, operands read down to `depth`
/// levels; `None` where it does not parse.
pub open spec fn text_shape(text: Seq<char>, depth: nat) -> Option<ShapeExprModel>
    decreases depth,
{
    if depth == 0 {
        None
    } else {
        match expr_operator_model(text) {
            None => None,
            Some(OpModel::Binary(o, l, r)) => match (
                text_shape(l, (depth - 1) as nat),
                text_shape(r, (depth - 1) as nat),
            ) {
                (Some(a), Some(b)) => Some(ShapeExprModel::Binary(bin_kind(o), Box::new(a), Box::new(b))),
                _ => None,
            },
            Some(OpModel::Unary(o, e)) => match text_shape(e, (depth - 1) as nat) {
                Some(a) => Some(ShapeExprModel::Unary(un_kind(o), Box::new(a))),
                None => None,
            },
            Some(OpModel::Leaf) => match expr_leaf_model(text) {
                None => None,
                Some(LeafModel::Lit(x)) => Some(
                    match literal_model(x) {
                        Some(LitModel::Str(v)) => ShapeExprModel::Str(v),
                        Some(LitModel::Int(d)) => ShapeExprModel::Int(d),
                        _ => ShapeExprModel::Other,
                    },
                ),
                Some(LeafModel::Path(p)) => Some(ShapeExprModel::Path(p)),
                Some(LeafModel::MethodCall(r, m)) => Some(ShapeExprModel::MethodCall { receiver: path_head(r), method: m }),
                Some(LeafModel::Field(b, m)) => Some(ShapeExprModel::Field { base: path_head(b), member: m }),
                Some(LeafModel::Other) => Some(ShapeExprModel::Other),
            },
        }
    }
}

pub open spec fn opt_shape(r: Option<ExprShape>) -> Option<ShapeExprModel> {
    match r {
        Some(e) => Some(e@),
        None => None,
    }
}

fn bin_kind_exec(o: &String) -> (r: BinOpKind)
    ensures
        r == bin_kind(o@),
{
    if str_is(o, "+") {
        BinOpKind::Add
    } else if str_is(o, "-") {
        BinOpKind::Sub
    } else if str_is(o, "*") {
        BinOpKind::Mul
    } else if str_is(o, "/") {
        BinOpKind::Div
    } else if str_is(o, "%") {
        BinOpKind::Rem
    } else if str_is(o, "==") {
        BinOpKind::Eq
    } else if str_is(o, "<") {
        BinOpKind::Lt
    } else if str_is(o, "<=") {
        BinOpKind::Le
    } else if str_is(o, "!=") {
        BinOpKind::Ne
    } else if str_is(o, ">=") {
        BinOpKind::Ge
    } else if str_is(o, ">") {
        BinOpKind::Gt
    } else {
        BinOpKind::Other
    }
}

fn un_kind_exec(o: &String) -> (r: UnOpKind)
    ensures
        r == un_kind(o@),
{
    if str_is(o, "!") {
        UnOpKind::Not
    } else if str_is(o, "-") {
        UnOpKind::Neg
    } else {
        UnOpKind::Other
    }
}

fn path_head_exec(t: &String) -> (r: Option<String>)
    ensures
        opt_chars(r) == path_head(t@),
{
    match expr_leaf(t.as_str()) {
        Some(LeafNode::Path(s)) => Some(s),
        _ => None,
    }
}

/// The shape of the invariant expression `text` (see `text_shape`).
pub fn invariant_shape_of(text: &str, depth: usize) -> (r: Option<ExprShape>)
    ensures
        opt_shape(r) == text_shape(text@, depth as nat),
    decreases depth,
{
    if depth == 0 {
        return None;
    }
    match expr_operator(text) {
        None => None,
        Some(OpNode::Binary(o, l, r)) => {
            let a = invariant_shape_of(l.as_str(), depth - 1);
            let b = invariant_shape_of(r.as_str(), depth - 1);
            match (a, b) {
                (Some(a), Some(b)) => Some(ExprShape::Binary(bin_kind_exec(&o), Box::new(a), Box::new(b))),
                _ => None,
            }
        },
        Some(OpNode::Unary(o, e)) => match invariant_shape_of(e.as_str(), depth - 1) {
            Some(a) => Some(ExprShape::Unary(un_kind_exec(&o), Box::new(a))),
            None => None,
        },
        Some(OpNode::Leaf) => match expr_leaf(text) {
            None => None,
            Some(LeafNode::Lit(x)) => Some(
                match literal_kind(x.as_str()) {
                    Some(LitKind::Str(v)) => ExprShape::Str(v),
                    Some(LitKind::Int(d)) => ExprShape::Int(d),
                    _ => ExprShape::Other,
                },
            ),
            Some(LeafNode::Path(p)) => Some(ExprShape::Path(p)),
            Some(LeafNode::MethodCall(r, m)) => Some(ExprShape::MethodCall { receiver: path_head_exec(&r), method: m }),
            Some(LeafNode::Field(b, m)) => Some(ExprShape::Field { base: path_head_exec(&b), member: m }),
            Some(LeafNode::Other) => Some(ExprShape::Other),
        },
    }
}


// ---------------------------------------------------------------------
// Signatures and parameter types.
// ---------------------------------------------------------------------

/// A type: a path (its first segment), an array (the texts of its element
/// type and length), a reference (the text of the referred type), another.
pub enum TypeNode {
    Path(String),
    Array(String, String),
    Reference(String),
    Other,
}

pub enum TypeNodeModel {
    Path(Seq<char>),
    Array(Seq<char>, Seq<char>),
    Reference(Seq<char>),
    Other,
}

pub open spec fn opt_type_node(r: Option<TypeNode>) -> Option<TypeNodeModel> {
    match r {
        Some(TypeNode::Path(p)) => Some(TypeNodeModel::Path(p@)),
        Some(TypeNode::Array(e, l)) => Some(TypeNodeModel::Array(e@, l@)),
        Some(TypeNode::Reference(t)) => Some(TypeNodeModel::Reference(t@)),
        Some(TypeNode::Other) => Some(TypeNodeModel::Other),
        None => None,
    }
}

/// What `syn::parse_str::<syn::Type>` finds at the top of `text`.
pub uninterp spec fn type_node_model(text: Seq<char>) -> Option<TypeNodeModel>;

/// Calls `syn::parse_str::<syn::Type>` and reads a path, an array or a
/// reference. The contract names the result.
#[verifier::external_body]
fn type_node(text: &str) -> (r: Option<TypeNode>)
    ensures
        opt_type_node(r) == type_node_model(text@),
{
    Some(match syn::parse_str::<syn::Type>(text).ok()? {
        syn::Type::Path(p) => TypeNode::Path(p.path.segments[0].ident.to_string()),
        syn::Type::Array(a) => TypeNode::Array(a.elem.to_token_stream().to_string(), a.len.to_token_stream().to_string()),
        syn::Type::Reference(r) => TypeNode::Reference(r.elem.to_token_stream().to_string()),
        _ => TypeNode::Other,
    })
}

/// The first segment of a type that is a path.
pub open spec fn type_head(t: Seq<char>) -> Option<Seq<char>> {
    match type_node_model(t) {
        Some(TypeNodeModel::Path(s)) => Some(s),
        _ => None,
    }
}

/// The digits of an expression that is an integer literal.
pub open spec fn int_digits(t: Seq<char>) -> Option<Seq<char>> {
    match expr_leaf_model(t) {
        Some(LeafModel::Lit(x)) => match literal_model(x) {
            Some(LitModel::Int(d)) => Some(d),
            _ => None,
        },
        _ => None,
    }
}

/// The shape of the type `text`, referred types read down to `depth`
/// levels; `None` where it does not parse.
pub open spec fn text_type(text: Seq<char>, depth: nat) -> Option<ShapeModel>
    decreases depth,
{
    if depth == 0 {
        None
    } else {
        match type_node_model(text) {
            None => None,
            Some(TypeNodeModel::Path(p)) => Some(ShapeModel::Path(p)),
            Some(TypeNodeModel::Array(e, l)) => Some(ShapeModel::Array { elem: type_head(e), len: int_digits(l) }),
            Some(TypeNodeModel::Reference(t)) => match text_type(t, (depth - 1) as nat) {
                Some(x) => Some(ShapeModel::Reference(Box::new(x))),
                None => None,
            },
            Some(TypeNodeModel::Other) => Some(ShapeModel::Other),
        }
    }
}

pub open spec fn opt_type_shape(r: Option<TypeShape>) -> Option<ShapeModel> {
    match r {
        Some(t) => Some(t@),
        None => None,
    }
}

fn type_head_exec(t: &String) -> (r: Option<String>)
    ensures
        opt_chars(r) == type_head(t@),
{
    match type_node(t.as_str()) {
        Some(TypeNode::Path(s)) => Some(s),
        _ => None,
    }
}

fn int_digits_exec(t: &String) -> (r: Option<String>)
    ensures
        opt_chars(r) == int_digits(t@),
{
    match expr_leaf(t.as_str()) {
        Some(LeafNode::Lit(x)) => match literal_kind(x.as_str()) {
            Some(LitKind::Int(d)) => Some(d),
            _ => None,
        },
        _ => None,
    }
}

/// The shape of the type `text` (see `text_type`).
pub fn type_shape_of(text: &str, depth: usize) -> (r: Option<TypeShape>)
    ensures
        opt_type_shape(r) == text_type(text@, depth as nat),
    decreases depth,
{
    if depth == 0 {
        return None;
    }
    match type_node(text) {
        None => None,
        Some(TypeNode::Path(p)) => Some(TypeShape::Path(p)),
        Some(TypeNode::Array(e, l)) => Some(TypeShape::Array { elem: type_head_exec(&e), len: int_digits_exec(&l) }),
        Some(TypeNode::Reference(t)) => match type_shape_of(t.as_str(), depth - 1) {
            Some(x) => Some(TypeShape::Reference(Box::new(x))),
            None => None,
        },
        Some(TypeNode::Other) => Some(TypeShape::Other),
    }
}

pub open spec fn opt_sig(r: Option<(String, Vec<String>)>) -> Option<(Seq<char>, Seq<Seq<char>>)> {
    match r {
        Some((n, args)) => Some((n@, args@.map_values(|a: String| a@))),
        None => None,
    }
}

/// What `syn::parse_str::<syn::Signature>` reads `text` as: the function's
/// name and the token text of each argument.
pub uninterp spec fn signature_model(text: Seq<char>) -> Option<(Seq<char>, Seq<Seq<char>>)>;

/// Calls `syn::parse_str::<syn::Signature>`: the name and the text of each
/// argument. The contract names the result.
#[verifier::external_body]
fn signature_parts(text: &str) -> (r: Option<(String, Vec<String>)>)
    ensures
        opt_sig(r) == signature_model(text@),
{
    let sig: syn::Signature = syn::parse_str(text).ok()?;
    Some((sig.ident.to_string(), sig.inputs.iter().map(|a| a.to_token_stream().to_string()).collect()))
}

/// A function argument: a typed one (its name where the pattern is an
/// identifier, and the text of its type), or `self`.
pub enum ArgNode {
    Typed(Option<String>, String),
    Receiver,
}

pub enum ArgModel {
    Typed(Option<Seq<char>>, Seq<char>),
    Receiver,
}

pub open spec fn opt_arg(r: Option<ArgNode>) -> Option<ArgModel> {
    match r {
        Some(ArgNode::Typed(n, t)) => Some(ArgModel::Typed(opt_chars(n), t@)),
        Some(ArgNode::Receiver) => Some(ArgModel::Receiver),
        None => None,
    }
}

/// What `syn::parse_str::<syn::FnArg>` reads `text` as.
pub uninterp spec fn fn_arg_model(text: Seq<char>) -> Option<ArgModel>;

/// Calls `syn::parse_str::<syn::FnArg>`: a typed argument gives its name
/// (where its pattern is an identifier) and its type's text. The contract
/// names the result.
#[verifier::external_body]
fn fn_arg(text: &str) -> (r: Option<ArgNode>)
    ensures
        opt_arg(r) == fn_arg_model(text@),
{
    Some(match syn::parse_str::<syn::FnArg>(text).ok()? {
        syn::FnArg::Typed(pt) => ArgNode::Typed(
            match *pt.pat {
                syn::Pat::Ident(id) => Some(id.ident.to_string()),
                _ => None,
            },
            pt.ty.to_token_stream().to_string(),
        ),
        syn::FnArg::Receiver(_) => ArgNode::Receiver,
    })
}

/// The parameters of the arguments `args`: each typed argument in order,
/// `self` left out; `None` where one does not parse.
pub open spec fn args_params(args: Seq<Seq<char>>, depth: nat) -> Option<Seq<ParamModel>>
    decreases args.len(),
{
    if args.len() == 0 {
        Some(Seq::empty())
    } else {
        match args_params(args.drop_last(), depth) {
            None => None,
            Some(ps) => match fn_arg_model(args.last()) {
                None => None,
                Some(ArgModel::Receiver) => Some(ps),
                Some(ArgModel::Typed(n, t)) => match text_type(t, depth) {
                    Some(ty) => Some(ps.push(ParamModel { name: n, ty })),
                    None => None,
                },
            },
        }
    }
}

/// The name and parameters of the signature `text`.
pub open spec fn text_signature(text: Seq<char>, depth: nat) -> Option<(Seq<char>, Seq<ParamModel>)> {
    match signature_model(text) {
        None => None,
        Some((name, args)) => match args_params(args, depth) {
            Some(ps) => Some((name, ps)),
            None => None,
        },
    }
}

pub open spec fn opt_signature(r: Option<(String, Vec<Param>)>) -> Option<(Seq<char>, Seq<ParamModel>)> {
    match r {
        Some((n, ps)) => Some((n@, ps@.map_values(|p: Param| p@))),
        None => None,
    }
}

proof fn lemma_args_none_extends(args: Seq<Seq<char>>, depth: nat, n: int, m: int)
    requires
        0 <= n <= m <= args.len(),
        args_params(args.take(n), depth) is None,
    ensures
        args_params(args.take(m), depth) is None,
    decreases m - n,
{
    if m > n {
        lemma_args_none_extends(args, depth, n, m - 1);
        assert(args.take(m).drop_last() =~= args.take(m - 1));
    }
}

/// The name and parameters of the signature `text` (see `text_signature`).
pub fn signature_of(text: &str, depth: usize) -> (r: Option<(String, Vec<Param>)>)
    ensures
        opt_signature(r) == text_signature(text@, depth as nat),
{
    let (name, args) = match signature_parts(text) {
        None => {
            return None;
        },
        Some(x) => x,
    };
    let ghost av = args@.map_values(|a: String| a@);
    let mut ps: Vec<Param> = Vec::new();
    let mut i: usize = 0;
    proof {
        assert(av.take(0) =~= Seq::<Seq<char>>::empty());
        assert(ps@.map_values(|p: Param| p@) =~= Seq::<ParamModel>::empty());
    }
    while i < args.len()
        invariant
            i <= args@.len(),
            av == args@.map_values(|a: String| a@),
            signature_model(text@) == Some((name@, av)),
            args_params(av.take(i as int), depth as nat) == Some(ps@.map_values(|p: Param| p@)),
        decreases args@.len() - i,
    {
        proof {
            assert(av.take(i + 1).drop_last() =~= av.take(i as int));
            assert(av.take(i + 1).last() == args@[i as int]@);
        }
        match fn_arg(args[i].as_str()) {
            None => {
                proof {
                    lemma_args_none_extends(av, depth as nat, i + 1, av.len() as int);
                    assert(av.take(av.len() as int) =~= av);
                }
                return None;
            },
            Some(ArgNode::Receiver) => {},
            Some(ArgNode::Typed(n, t)) => {
                match type_shape_of(t.as_str(), depth) {
                    None => {
                        proof {
                            lemma_args_none_extends(av, depth as nat, i + 1, av.len() as int);
                            assert(av.take(av.len() as int) =~= av);
                        }
                        return None;
                    },
                    Some(ty) => {
                        let ghost prev = ps@;
                        ps.push(Param { name: n, ty });
                        proof {
                            assert(ps@.map_values(|p: Param| p@) =~= prev.map_values(|p: Param| p@).push(ps@[prev.len() as int]@));
                        }
                    },
                }
            },
        }
        i = i + 1;
    }
    proof {
        assert(av.take(i as int) =~= av);
    }
    Some((name, ps))
}


// ---------------------------------------------------------------------
// Tokens back to text.
// ---------------------------------------------------------------------

/// A string's value escaped for a string literal: `\` and `"` get a `\`.
pub open spec fn escaped(v: Seq<char>) -> Seq<char>
    decreases v.len(),
{
    if v.len() == 0 {
        Seq::empty()
    } else {
        escaped(v.drop_last()) + if v.last() == '\\' {
            seq!['\\', '\\']
        } else if v.last() == '"' {
            seq!['\\', '"']
        } else {
            seq![v.last()]
        }
    }
}

pub open spec fn open_text(d: Delim) -> Seq<char> {
    match d {
        Delim::Paren => seq!['('],
        Delim::Bracket => seq!['['],
        Delim::Brace => seq!['{'],
    }
}

pub open spec fn close_text(d: Delim) -> Seq<char> {
    match d {
        Delim::Paren => seq![')'],
        Delim::Bracket => seq![']'],
        Delim::Brace => seq!['}'],
    }
}

/// The text of one token: a string literal quoted and escaped, an integer
/// by its digits, a group between its delimiters.
pub open spec fn tok_text(t: TokModel) -> Seq<char>
    decreases t, 1int,
{
    match t {
        TokModel::Ident(s) => s,
        TokModel::Punct(c) => seq![c],
        TokModel::Str(v) => seq!['"'] + escaped(v) + seq!['"'],
        TokModel::Int(d) => d,
        TokModel::Lit(x) => x,
        TokModel::Group(d, ts) => open_text(d) + toks_text(ts) + close_text(d),
    }
}

/// What stands between the last two tokens of `s`: nothing between two
/// punctuation characters (so that `<` `=` reads as `<=`), a space
/// otherwise.
pub open spec fn gap(s: Seq<TokModel>) -> Seq<char> {
    if s.len() < 2 || (s[s.len() - 2] is Punct && s.last() is Punct) {
        Seq::empty()
    } else {
        seq![' ']
    }
}

/// The text of a token sequence.
pub open spec fn toks_text(s: Seq<TokModel>) -> Seq<char>
    decreases s, 0int,
{
    if s.len() == 0 {
        Seq::empty()
    } else {
        toks_text(s.drop_last()) + gap(s) + tok_text(s.last())
    }
}

fn push_escaped(out: &mut Vec<char>, v: &String)
    ensures
        final(out)@ == old(out)@ + escaped(v@),
{
    let cs = chars_of(v.as_str());
    let ghost o = out@;
    let mut i: usize = 0;
    assert(cs@.take(0) =~= Seq::<char>::empty());
    while i < cs.len()
        invariant
            i <= cs@.len(),
            cs@ == v@,
            out@ == o + escaped(cs@.take(i as int)),
        decreases cs@.len() - i,
    {
        let c = cs[i];
        if c == '\\' {
            out.push('\\');
            out.push('\\');
        } else if c == '"' {
            out.push('\\');
            out.push('"');
        } else {
            out.push(c);
        }
        proof {
            assert(cs@.take(i + 1).drop_last() =~= cs@.take(i as int));
            assert(out@ =~= o + escaped(cs@.take(i + 1)));
        }
        i = i + 1;
    }
    assert(cs@.take(i as int) =~= cs@);
}

/// Appends the text of a token (see `tok_text`).
pub fn push_tok_text(out: &mut Vec<char>, t: &AttrToken)
    ensures
        final(out)@ == old(out)@ + tok_text(token_model(*t)),
    decreases t, 1int,
{
    match t {
        AttrToken::Ident(s) => push_chars(out, &chars_of(s.as_str())),
        AttrToken::Punct(c) => {
            out.push(*c);
        },
        AttrToken::Str(v) => {
            let ghost o = out@;
            out.push('"');
            push_escaped(out, v);
            out.push('"');
            assert(out@ =~= o + (seq!['"'] + escaped(v@) + seq!['"']));
        },
        AttrToken::Int(d) => push_chars(out, &chars_of(d.as_str())),
        AttrToken::Lit(x) => push_chars(out, &chars_of(x.as_str())),
        AttrToken::Group(d, inner) => {
            let ghost o = out@;
            let (op, cl) = match d {
                Delim::Paren => ('(', ')'),
                Delim::Bracket => ('[', ']'),
                Delim::Brace => ('{', '}'),
            };
            out.push(op);
            let ghost o2 = out@;
            push_toks_text(out, inner);
            out.push(cl);
            assert(out@ =~= o + (open_text(*d) + toks_text(tokens_model(inner@)) + close_text(*d)));
        },
    }
}

/// Appends the text of a token sequence (see `toks_text`).
pub fn push_toks_text(out: &mut Vec<char>, v: &Vec<AttrToken>)
    ensures
        final(out)@ == old(out)@ + toks_text(tokens_model(v@)),
    decreases v, 0int,
{
    let ghost o = out@;
    let ghost tm = tokens_model(v@);
    proof {
        lemma_tokens_model_len(v@);
        assert(tm.take(0) =~= Seq::<TokModel>::empty());
    }
    let mut i: usize = 0;
    while i < v.len()
        invariant
            i <= v@.len(),
            tm == tokens_model(v@),
            tm.len() == v@.len(),
            out@ == o + toks_text(tm.take(i as int)),
        decreases v@.len() - i,
    {
        proof {
            assert(decreases_to!(v => v@));
            assert(decreases_to!(v@ => v@[i as int]));
            lemma_tokens_model_index(v@, i as int);
        }
        let ghost before = out@;
        let ghost s2 = tm.take(i + 1);
        proof {
            assert(s2.drop_last() =~= tm.take(i as int));
            assert(s2.last() == token_model(v@[i as int]));
        }
        if i >= 1 {
            proof {
                lemma_tokens_model_index(v@, i - 1);
                assert(s2[s2.len() - 2] == token_model(v@[i - 1]));
            }
            let both_punct = match (&v[i - 1], &v[i]) {
                (AttrToken::Punct(_), AttrToken::Punct(_)) => true,
                _ => false,
            };
            if !both_punct {
                out.push(' ');
            }
        }
        push_tok_text(out, &v[i]);
        proof {
            assert(out@ =~= o + toks_text(s2));
        }
        i = i + 1;
    }
    assert(tm.take(i as int) =~= tm);
}

/// The text of a token sequence.
pub fn tokens_text(v: &Vec<AttrToken>) -> (r: String)
    ensures
        r@ == toks_text(tokens_model(v@)),
{
    let mut out: Vec<char> = Vec::new();
    push_toks_text(&mut out, v);
    assert(out@ =~= toks_text(tokens_model(v@)));
    string_from_chars(out.as_slice())
}

} // verus!
