//! The grammar: one recursive-descent production per syntactic category, each
//! also usable as an entry point that must consume the whole input. The
//! `p_*` spec functions are the grammar's definition: they map a token
//! sequence and a start position to the parsed value and the position after
//! it, or to `None` when the tokens do not match the production. The
//! executable parser is proved to return exactly what they say.
//!
//! Precedence, lowest binding first: `or`; `and`; `not` (prefix);
//! comparisons `= <> < > <= >=` (left-associative and chainable);
//! `is` / `as`; `+ -`; `* /`; prefix `-`; atoms. Label algebra: `|` below
//! `&`, atoms are names, `*`, and parenthesized label expressions.
//!
//! Recursive calls are guarded on progress (`i < j <= t.len()`): a
//! sub-production must have consumed at least one token and stayed in
//! bounds, which makes termination evident. Every production does make
//! progress, so the guards change nothing about what parses.
use vstd::prelude::*;

use crate::ast::{
    entries_insert, BaseType, BinOpKind, ConstantV, DescTypeV, DescriptorV, ExprV, LabelV,
    NodePatternV, PathV, PropV, SimpleType, UnOpKind,
};
use crate::lexer::{spec_tokenize, TokV};

verus! {

/// Parses one simple type: `int`, `bool`, `str` or `*`.
pub open spec fn p_simple(t: Seq<TokV>, i: int) -> Option<(SimpleType, int)> {
    if 0 <= i < t.len() {
        match t[i] {
            TokV::KwInt => Some((SimpleType::Base(BaseType::Int), i + 1)),
            TokV::KwBool => Some((SimpleType::Base(BaseType::Bool), i + 1)),
            TokV::KwStr => Some((SimpleType::Base(BaseType::String), i + 1)),
            TokV::Star => Some((SimpleType::Star, i + 1)),
            _ => None,
        }
    } else {
        None
    }
}

/// Parses a label atom: a label name, `*`, or a parenthesized label
/// expression.
pub open spec fn p_label_atom(t: Seq<TokV>, i: int) -> Option<(LabelV, int)>
    decreases t.len() - i, 0int,
{
    if 0 <= i < t.len() {
        match t[i] {
            TokV::Ident(name) => Some((LabelV::Label(name), i + 1)),
            TokV::Star => Some((LabelV::Star, i + 1)),
            TokV::LParen => match p_label(t, i + 1) {
                Some((l, j)) => {
                    if j < t.len() && t[j] is RParen {
                        Some((l, j + 1))
                    } else {
                        None
                    }
                },
                None => None,
            },
            _ => None,
        }
    } else {
        None
    }
}

/// Parses a `&`-chain of label atoms, left-associatively, onto `acc`.
pub open spec fn p_label_and_rest(t: Seq<TokV>, i: int, acc: LabelV) -> Option<(LabelV, int)>
    decreases t.len() - i, 1int,
{
    if 0 <= i < t.len() && t[i] is Amp {
        match p_label_atom(t, i + 1) {
            Some((r, j)) => {
                if i + 1 < j <= t.len() {
                    p_label_and_rest(t, j, LabelV::And(Box::new(acc), Box::new(r)))
                } else {
                    None
                }
            },
            None => None,
        }
    } else {
        Some((acc, i))
    }
}

/// Parses a `&`-chain of label atoms; `&` binds tighter than `|`.
pub open spec fn p_label_and(t: Seq<TokV>, i: int) -> Option<(LabelV, int)>
    decreases t.len() - i, 2int,
{
    match p_label_atom(t, i) {
        Some((l, j)) => {
            if i < j <= t.len() {
                p_label_and_rest(t, j, l)
            } else {
                None
            }
        },
        None => None,
    }
}

/// Parses a `|`-chain of `&`-chains, left-associatively, onto `acc`.
pub open spec fn p_label_or_rest(t: Seq<TokV>, i: int, acc: LabelV) -> Option<(LabelV, int)>
    decreases t.len() - i, 3int,
{
    if 0 <= i < t.len() && t[i] is Pipe {
        match p_label_and(t, i + 1) {
            Some((r, j)) => {
                if i + 1 < j <= t.len() {
                    p_label_or_rest(t, j, LabelV::Or(Box::new(acc), Box::new(r)))
                } else {
                    None
                }
            },
            None => None,
        }
    } else {
        Some((acc, i))
    }
}

/// Parses a label expression: `|` is the loosest operator.
pub open spec fn p_label(t: Seq<TokV>, i: int) -> Option<(LabelV, int)>
    decreases t.len() - i, 4int,
{
    match p_label_and(t, i) {
        Some((l, j)) => {
            if i < j <= t.len() {
                p_label_or_rest(t, j, l)
            } else {
                None
            }
        },
        None => None,
    }
}

/// Parses `name: type` fields separated by commas, folding each into the
/// sorted entry accumulator (a repeated name is rebound: last write wins).
/// Stops before a comma that is not followed by another field name.
pub open spec fn p_fields(
    t: Seq<TokV>,
    i: int,
    acc: Seq<(Seq<char>, SimpleType)>,
) -> Option<(Seq<(Seq<char>, SimpleType)>, int)>
    decreases t.len() - i,
{
    if 0 <= i < t.len() {
        match t[i] {
            TokV::Ident(name) => {
                if i + 1 < t.len() && t[i + 1] is Colon {
                    match p_simple(t, i + 2) {
                        Some((v, j)) => {
                            let acc2 = entries_insert(acc, name, v);
                            if j + 1 < t.len() && t[j] is Comma && t[j + 1] is Ident && j + 1 > i {
                                p_fields(t, j + 1, acc2)
                            } else {
                                Some((acc2, j))
                            }
                        },
                        None => None,
                    }
                } else {
                    None
                }
            },
            _ => None,
        }
    } else {
        None
    }
}

/// Parses a property-record type. `{{ ... }}` is closed; `{ ... }` is open,
/// with an optional trailing `*` naming the unlisted rest. `{}`, `{*}` and
/// `{{}}` denote empty records.
pub open spec fn p_prop(t: Seq<TokV>, i: int) -> Option<(PropV, int)>
    decreases t.len() - i,
{
    if 0 <= i < t.len() {
        if t[i] is LLBrace {
            if i + 1 < t.len() && t[i + 1] is RRBrace {
                Some((PropV::Closed(Seq::empty()), i + 2))
            } else {
                match p_fields(t, i + 1, Seq::empty()) {
                    Some((m, j)) => {
                        if j < t.len() && t[j] is RRBrace {
                            Some((PropV::Closed(m), j + 1))
                        } else {
                            None
                        }
                    },
                    None => None,
                }
            }
        } else if t[i] is LBrace {
            if i + 1 < t.len() && t[i + 1] is RBrace {
                Some((PropV::Open(Seq::empty()), i + 2))
            } else if i + 2 < t.len() && t[i + 1] is Star && t[i + 2] is RBrace {
                Some((PropV::Open(Seq::empty()), i + 3))
            } else {
                match p_fields(t, i + 1, Seq::empty()) {
                    Some((m, j)) => {
                        if j < t.len() && t[j] is RBrace {
                            Some((PropV::Open(m), j + 1))
                        } else if j + 2 < t.len() && t[j] is Comma && t[j + 1] is Star && t[j
                            + 2] is RBrace {
                            Some((PropV::Open(m), j + 3))
                        } else {
                            None
                        }
                    },
                    None => None,
                }
            }
        } else {
            None
        }
    } else {
        None
    }
}

/// The descriptor type used when none is written: any label, any properties.
pub open spec fn dtype_default() -> DescTypeV {
    DescTypeV { label: LabelV::Star, properties: PropV::Open(Seq::empty()) }
}

/// Parses the optional properties after a label (or directly): absent
/// properties mean an empty open record.
pub open spec fn p_dtype_props(t: Seq<TokV>, i: int, l: LabelV) -> Option<(DescTypeV, int)>
    decreases t.len() - i, 1int,
{
    if 0 <= i < t.len() && (t[i] is LBrace || t[i] is LLBrace) {
        match p_prop(t, i) {
            Some((p, j)) => Some((DescTypeV { label: l, properties: p }, j)),
            None => None,
        }
    } else {
        Some((DescTypeV { label: l, properties: PropV::Open(Seq::empty()) }, i))
    }
}

/// Parses a descriptor type: an optional label expression followed by an
/// optional property record; an absent label means `*`.
pub open spec fn p_dtype(t: Seq<TokV>, i: int) -> Option<(DescTypeV, int)>
    decreases t.len() - i, 5int,
{
    if 0 <= i < t.len() && (t[i] is Ident || t[i] is Star || t[i] is LParen) {
        match p_label(t, i) {
            Some((l, j)) => {
                if i <= j <= t.len() {
                    p_dtype_props(t, j, l)
                } else {
                    None
                }
            },
            None => None,
        }
    } else {
        p_dtype_props(t, i, LabelV::Star)
    }
}

/// Parses a descriptor: an optional variable, then an optional `:` and
/// descriptor type. Both may be absent; the type then defaults to
/// `* {*}` (any label, any properties).
pub open spec fn p_descriptor(t: Seq<TokV>, i: int) -> Option<(DescriptorV, int)>
    decreases t.len() - i, 6int,
{
    let (var, j): (Option<Seq<char>>, int) = if 0 <= i < t.len() && t[i] is Ident {
        (Some(t[i]->Ident_0), i + 1)
    } else {
        (None, i)
    };
    if 0 <= j < t.len() && t[j] is Colon {
        match p_dtype(t, j + 1) {
            Some((dt, k)) => Some((DescriptorV { variable: var, descriptor_type: dt }, k)),
            None => None,
        }
    } else {
        Some((DescriptorV { variable: var, descriptor_type: dtype_default() }, j))
    }
}

/// Parses a node pattern: a parenthesized descriptor.
pub open spec fn p_node(t: Seq<TokV>, i: int) -> Option<(NodePatternV, int)>
    decreases t.len() - i, 7int,
{
    if 0 <= i < t.len() && t[i] is LParen {
        match p_descriptor(t, i + 1) {
            Some((d, j)) => {
                if j < t.len() && t[j] is RParen {
                    Some((NodePatternV { descriptor: d }, j + 1))
                } else {
                    None
                }
            },
            None => None,
        }
    } else {
        None
    }
}

/// Parses an expression atom: a constant, a variable, an attribute lookup
/// `e.a`, a type literal, or a parenthesized expression.
pub open spec fn p_atom(t: Seq<TokV>, i: int) -> Option<(ExprV, int)>
    decreases t.len() - i, 0int,
{
    if 0 <= i < t.len() {
        match t[i] {
            TokV::IntLit(v) => Some((ExprV::Constant(ConstantV::Int(v)), i + 1)),
            TokV::StrLit(s) => Some((ExprV::Constant(ConstantV::String(s)), i + 1)),
            TokV::KwTrue => Some((ExprV::Constant(ConstantV::Bool(true)), i + 1)),
            TokV::KwFalse => Some((ExprV::Constant(ConstantV::Bool(false)), i + 1)),
            TokV::KwInt => Some((ExprV::TypeLiteral(SimpleType::Base(BaseType::Int)), i + 1)),
            TokV::KwBool => Some((ExprV::TypeLiteral(SimpleType::Base(BaseType::Bool)), i + 1)),
            TokV::KwStr => Some((ExprV::TypeLiteral(SimpleType::Base(BaseType::String)), i + 1)),
            TokV::Star => Some((ExprV::TypeLiteral(SimpleType::Star), i + 1)),
            TokV::Ident(name) => {
                if i + 2 < t.len() && t[i + 1] is Dot && t[i + 2] is Ident {
                    Some((ExprV::AttributeLookup(name, t[i + 2]->Ident_0), i + 3))
                } else {
                    Some((ExprV::Variable(name), i + 1))
                }
            },
            TokV::LParen => match p_or(t, i + 1) {
                Some((e, j)) => {
                    if j < t.len() && t[j] is RParen {
                        Some((e, j + 1))
                    } else {
                        None
                    }
                },
                None => None,
            },
            _ => None,
        }
    } else {
        None
    }
}

/// Parses a unary level expression: prefix `-` or an atom.
pub open spec fn p_unary(t: Seq<TokV>, i: int) -> Option<(ExprV, int)>
    decreases t.len() - i, 1int,
{
    if 0 <= i < t.len() && t[i] is Minus {
        match p_unary(t, i + 1) {
            Some((e, j)) => Some((ExprV::Unop(UnOpKind::Neg, Box::new(e)), j)),
            None => None,
        }
    } else {
        p_atom(t, i)
    }
}

/// The multiplicative operator a token stands for, if any.
pub open spec fn mul_op(t: TokV) -> Option<BinOpKind> {
    match t {
        TokV::Star => Some(BinOpKind::Mul),
        TokV::Slash => Some(BinOpKind::Div),
        _ => None,
    }
}

/// Parses a chain of `* /` operations, left-associatively, onto `acc`.
pub open spec fn p_mul_rest(t: Seq<TokV>, i: int, acc: ExprV) -> Option<(ExprV, int)>
    decreases t.len() - i, 2int,
{
    if 0 <= i < t.len() && mul_op(t[i]) is Some {
        match p_unary(t, i + 1) {
            Some((r, j)) => {
                if i + 1 < j <= t.len() {
                    p_mul_rest(t, j, ExprV::Binop(mul_op(t[i])->0, Box::new(acc), Box::new(r)))
                } else {
                    None
                }
            },
            None => None,
        }
    } else {
        Some((acc, i))
    }
}

/// Parses a multiplicative expression.
pub open spec fn p_mul(t: Seq<TokV>, i: int) -> Option<(ExprV, int)>
    decreases t.len() - i, 3int,
{
    match p_unary(t, i) {
        Some((e, j)) => {
            if i < j <= t.len() {
                p_mul_rest(t, j, e)
            } else {
                None
            }
        },
        None => None,
    }
}

/// The additive operator a token stands for, if any.
pub open spec fn add_op(t: TokV) -> Option<BinOpKind> {
    match t {
        TokV::Plus => Some(BinOpKind::Add),
        TokV::Minus => Some(BinOpKind::Sub),
        _ => None,
    }
}

/// Parses a chain of `+ -` operations, left-associatively, onto `acc`.
pub open spec fn p_add_rest(t: Seq<TokV>, i: int, acc: ExprV) -> Option<(ExprV, int)>
    decreases t.len() - i, 4int,
{
    if 0 <= i < t.len() && add_op(t[i]) is Some {
        match p_mul(t, i + 1) {
            Some((r, j)) => {
                if i + 1 < j <= t.len() {
                    p_add_rest(t, j, ExprV::Binop(add_op(t[i])->0, Box::new(acc), Box::new(r)))
                } else {
                    None
                }
            },
            None => None,
        }
    } else {
        Some((acc, i))
    }
}

/// Parses an additive expression.
pub open spec fn p_add(t: Seq<TokV>, i: int) -> Option<(ExprV, int)>
    decreases t.len() - i, 5int,
{
    match p_mul(t, i) {
        Some((e, j)) => {
            if i < j <= t.len() {
                p_add_rest(t, j, e)
            } else {
                None
            }
        },
        None => None,
    }
}

/// The type-relational operator a token stands for, if any.
pub open spec fn isas_op(t: TokV) -> Option<BinOpKind> {
    match t {
        TokV::KwIs => Some(BinOpKind::Is),
        TokV::KwAs => Some(BinOpKind::As),
        _ => None,
    }
}

/// Parses a chain of `is` / `as` operations, left-associatively, onto `acc`.
pub open spec fn p_isas_rest(t: Seq<TokV>, i: int, acc: ExprV) -> Option<(ExprV, int)>
    decreases t.len() - i, 6int,
{
    if 0 <= i < t.len() && isas_op(t[i]) is Some {
        match p_add(t, i + 1) {
            Some((r, j)) => {
                if i + 1 < j <= t.len() {
                    p_isas_rest(t, j, ExprV::Binop(isas_op(t[i])->0, Box::new(acc), Box::new(r)))
                } else {
                    None
                }
            },
            None => None,
        }
    } else {
        Some((acc, i))
    }
}

/// Parses a type-relational expression.
pub open spec fn p_isas(t: Seq<TokV>, i: int) -> Option<(ExprV, int)>
    decreases t.len() - i, 7int,
{
    match p_add(t, i) {
        Some((e, j)) => {
            if i < j <= t.len() {
                p_isas_rest(t, j, e)
            } else {
                None
            }
        },
        None => None,
    }
}

/// The comparison operator a token stands for, if any.
pub open spec fn cmp_op(t: TokV) -> Option<BinOpKind> {
    match t {
        TokV::Eq => Some(BinOpKind::Eq),
        TokV::Ne => Some(BinOpKind::Ne),
        TokV::Lt => Some(BinOpKind::Lt),
        TokV::Gt => Some(BinOpKind::Gt),
        TokV::Le => Some(BinOpKind::Le),
        TokV::Ge => Some(BinOpKind::Ge),
        _ => None,
    }
}

/// Parses a chain of comparisons, left-associatively, onto `acc`:
/// `a > b > c` is `(a > b) > c`.
pub open spec fn p_cmp_rest(t: Seq<TokV>, i: int, acc: ExprV) -> Option<(ExprV, int)>
    decreases t.len() - i, 8int,
{
    if 0 <= i < t.len() && cmp_op(t[i]) is Some {
        match p_isas(t, i + 1) {
            Some((r, j)) => {
                if i + 1 < j <= t.len() {
                    p_cmp_rest(t, j, ExprV::Binop(cmp_op(t[i])->0, Box::new(acc), Box::new(r)))
                } else {
                    None
                }
            },
            None => None,
        }
    } else {
        Some((acc, i))
    }
}

/// Parses a comparison expression.
pub open spec fn p_cmp(t: Seq<TokV>, i: int) -> Option<(ExprV, int)>
    decreases t.len() - i, 9int,
{
    match p_isas(t, i) {
        Some((e, j)) => {
            if i < j <= t.len() {
                p_cmp_rest(t, j, e)
            } else {
                None
            }
        },
        None => None,
    }
}

/// Parses a `not` level expression: any number of prefix `not`s over a
/// comparison.
pub open spec fn p_not(t: Seq<TokV>, i: int) -> Option<(ExprV, int)>
    decreases t.len() - i, 10int,
{
    if 0 <= i < t.len() && t[i] is KwNot {
        match p_not(t, i + 1) {
            Some((e, j)) => Some((ExprV::Unop(UnOpKind::Not, Box::new(e)), j)),
            None => None,
        }
    } else {
        p_cmp(t, i)
    }
}

/// Parses a chain of `and` operations, left-associatively, onto `acc`.
pub open spec fn p_and_rest(t: Seq<TokV>, i: int, acc: ExprV) -> Option<(ExprV, int)>
    decreases t.len() - i, 11int,
{
    if 0 <= i < t.len() && t[i] is KwAnd {
        match p_not(t, i + 1) {
            Some((r, j)) => {
                if i + 1 < j <= t.len() {
                    p_and_rest(t, j, ExprV::Binop(BinOpKind::And, Box::new(acc), Box::new(r)))
                } else {
                    None
                }
            },
            None => None,
        }
    } else {
        Some((acc, i))
    }
}

/// Parses an `and` expression.
pub open spec fn p_and(t: Seq<TokV>, i: int) -> Option<(ExprV, int)>
    decreases t.len() - i, 12int,
{
    match p_not(t, i) {
        Some((e, j)) => {
            if i < j <= t.len() {
                p_and_rest(t, j, e)
            } else {
                None
            }
        },
        None => None,
    }
}

/// Parses a chain of `or` operations, left-associatively, onto `acc`.
pub open spec fn p_or_rest(t: Seq<TokV>, i: int, acc: ExprV) -> Option<(ExprV, int)>
    decreases t.len() - i, 13int,
{
    if 0 <= i < t.len() && t[i] is KwOr {
        match p_and(t, i + 1) {
            Some((r, j)) => {
                if i + 1 < j <= t.len() {
                    p_or_rest(t, j, ExprV::Binop(BinOpKind::Or, Box::new(acc), Box::new(r)))
                } else {
                    None
                }
            },
            None => None,
        }
    } else {
        Some((acc, i))
    }
}

/// Parses an expression: `or` is the loosest operator.
pub open spec fn p_or(t: Seq<TokV>, i: int) -> Option<(ExprV, int)>
    decreases t.len() - i, 14int,
{
    match p_and(t, i) {
        Some((e, j)) => {
            if i < j <= t.len() {
                p_or_rest(t, j, e)
            } else {
                None
            }
        },
        None => None,
    }
}

/// Parses an expression (the full grammar).
pub open spec fn p_expr(t: Seq<TokV>, i: int) -> Option<(ExprV, int)>
    decreases t.len() - i, 15int,
{
    p_or(t, i)
}

/// Parses a path pattern: a node pattern, optionally refined by a `WHERE`
/// filter expression.
pub open spec fn p_path(t: Seq<TokV>, i: int) -> Option<(PathV, int)>
    decreases t.len() - i, 16int,
{
    match p_node(t, i) {
        Some((n, j)) => {
            if j < t.len() && t[j] is KwWhere {
                match p_expr(t, j + 1) {
                    Some((e, k)) => Some((PathV::Filter(Box::new(PathV::Node(n)), e), k)),
                    None => None,
                }
            } else {
                Some((PathV::Node(n), j))
            }
        },
        None => None,
    }
}

/// What an entry point returns: the production's value when the token stream
/// is exactly one complete production, and nothing when the text does not lex,
/// the production does not match, or tokens are left over.
pub open spec fn complete<A>(lexed: Option<Seq<TokV>>, parsed: Option<(A, int)>, n: int) -> Option<
    A,
> {
    match lexed {
        Some(_) => match parsed {
            Some((v, j)) => if j == n {
                Some(v)
            } else {
                None
            },
            None => None,
        },
        None => None,
    }
}

/// The label expression a whole text parses to, if any.
pub open spec fn label_parse_spec(s: Seq<char>) -> Option<LabelV> {
    match spec_tokenize(s) {
        Some(toks) => complete(Some(toks), p_label(toks, 0), toks.len() as int),
        None => None,
    }
}

/// The simple type a whole text parses to, if any.
pub open spec fn simple_parse_spec(s: Seq<char>) -> Option<SimpleType> {
    match spec_tokenize(s) {
        Some(toks) => complete(Some(toks), p_simple(toks, 0), toks.len() as int),
        None => None,
    }
}

/// The property-record type a whole text parses to, if any.
pub open spec fn prop_parse_spec(s: Seq<char>) -> Option<PropV> {
    match spec_tokenize(s) {
        Some(toks) => complete(Some(toks), p_prop(toks, 0), toks.len() as int),
        None => None,
    }
}

/// The descriptor type a whole text parses to, if any.
pub open spec fn dtype_parse_spec(s: Seq<char>) -> Option<DescTypeV> {
    match spec_tokenize(s) {
        Some(toks) => complete(Some(toks), p_dtype(toks, 0), toks.len() as int),
        None => None,
    }
}

/// The descriptor a whole text parses to, if any.
pub open spec fn descriptor_parse_spec(s: Seq<char>) -> Option<DescriptorV> {
    match spec_tokenize(s) {
        Some(toks) => complete(Some(toks), p_descriptor(toks, 0), toks.len() as int),
        None => None,
    }
}

/// The node pattern a whole text parses to, if any.
pub open spec fn node_parse_spec(s: Seq<char>) -> Option<NodePatternV> {
    match spec_tokenize(s) {
        Some(toks) => complete(Some(toks), p_node(toks, 0), toks.len() as int),
        None => None,
    }
}

/// The path pattern a whole text parses to, if any.
pub open spec fn path_parse_spec(s: Seq<char>) -> Option<PathV> {
    match spec_tokenize(s) {
        Some(toks) => complete(Some(toks), p_path(toks, 0), toks.len() as int),
        None => None,
    }
}

/// The expression a whole text parses to, if any.
pub open spec fn expr_parse_spec(s: Seq<char>) -> Option<ExprV> {
    match spec_tokenize(s) {
        Some(toks) => complete(Some(toks), p_expr(toks, 0), toks.len() as int),
        None => None,
    }
}

} // verus!
