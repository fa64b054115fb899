//! The executable parser: one function per production of the grammar, each
//! proved to return exactly what the grammar's spec function says, and one
//! entry-point type per syntactic category. An entry point accepts its input
//! only when the whole token stream is one complete production: trailing
//! tokens are a parse error.
use vstd::prelude::*;

use crate::ast::{
    AttributeLookup, BaseType, BinOpKind, Binop, Constant, Descriptor, DescriptorType, Expr,
    LabelType, NodePattern, PathPattern, PathV, PropMap, PropertyType, SimpleType, UnOpKind, Unop,
    Var,
};
use crate::grammar::{
    descriptor_parse_spec, dtype_default, dtype_parse_spec, expr_parse_spec, label_parse_spec,
    node_parse_spec, p_add, p_add_rest, p_and, p_and_rest, p_atom, p_cmp, p_cmp_rest, p_descriptor,
    p_dtype, p_dtype_props, p_expr, p_fields, p_isas, p_isas_rest, p_label, p_label_and,
    p_label_and_rest, p_label_atom, p_label_or_rest, p_mul, p_mul_rest, p_node, p_not, p_or,
    p_or_rest, p_path, p_prop, p_simple, p_unary, path_parse_spec, prop_parse_spec,
    simple_parse_spec,
};
use crate::lexer::{tokenize, Token};
use crate::ParseError;

verus! {

/// Parses one simple type.
fn e_simple(t: &Vec<Token>, i: usize) -> (r: Result<(SimpleType, usize), ParseError>)
    requires
        i <= t@.len(),
    ensures
        match r {
            Ok((x, j)) => p_simple(t.deep_view(), i as int) == Some((x, j as int)) && i < j
                <= t@.len(),
            Err(_) => p_simple(t.deep_view(), i as int) is None,
        },
{
    if i == t.len() {
        return Err(crate::err_at(i, "expected a type, found end of input"));
    }
    proof {
        assert(t.deep_view()[i as int] == t@[i as int]@);
    }
    match &t[i] {
        Token::KwInt => Ok((SimpleType::Base(BaseType::Int), i + 1)),
        Token::KwBool => Ok((SimpleType::Base(BaseType::Bool), i + 1)),
        Token::KwStr => Ok((SimpleType::Base(BaseType::String), i + 1)),
        Token::Star => Ok((SimpleType::Star, i + 1)),
        _ => Err(crate::err_at(i, "expected int, bool, str or *")),
    }
}

/// Parses a label atom.
fn e_label_atom(t: &Vec<Token>, i: usize) -> (r: Result<(LabelType, usize), ParseError>)
    requires
        i <= t@.len(),
    ensures
        match r {
            Ok((x, j)) => p_label_atom(t.deep_view(), i as int) == Some((x@, j as int)) && i < j
                <= t@.len(),
            Err(_) => p_label_atom(t.deep_view(), i as int) is None,
        },
    decreases t@.len() - i, 0int,
{
    if i == t.len() {
        return Err(crate::err_at(i, "expected a label, found end of input"));
    }
    proof {
        assert(t.deep_view()[i as int] == t@[i as int]@);
    }
    match &t[i] {
        Token::Ident(name) => Ok((LabelType::Label(name.clone()), i + 1)),
        Token::Star => Ok((LabelType::Star, i + 1)),
        Token::LParen => {
            let (l, j) = match e_label(t, i + 1) {
                Ok(p) => p,
                Err(e) => {
                    return Err(e);
                },
            };
            if j < t.len() && matches!(&t[j], Token::RParen) {
                proof {
                    assert(t.deep_view()[j as int] == t@[j as int]@);
                }
                Ok((l, j + 1))
            } else {
                proof {
                    if j < t@.len() {
                        assert(t.deep_view()[j as int] == t@[j as int]@);
                    }
                }
                Err(crate::err_at(j, "expected ) after label expression"))
            }
        },
        _ => Err(crate::err_at(i, "expected a label name, * or (")),
    }
}

/// Parses a `&`-chain of label atoms onto `acc`.
fn e_label_and_rest(t: &Vec<Token>, i: usize, acc: LabelType) -> (r: Result<
    (LabelType, usize),
    ParseError,
>)
    requires
        i <= t@.len(),
    ensures
        match r {
            Ok((x, j)) => p_label_and_rest(t.deep_view(), i as int, acc@) == Some((x@, j as int))
                && i <= j <= t@.len(),
            Err(_) => p_label_and_rest(t.deep_view(), i as int, acc@) is None,
        },
    decreases t@.len() - i, 1int,
{
    proof {
        if i < t@.len() {
            assert(t.deep_view()[i as int] == t@[i as int]@);
        }
    }
    if i < t.len() && matches!(&t[i], Token::Amp) {
        let (atom, j) = match e_label_atom(t, i + 1) {
            Ok(p) => p,
            Err(e) => {
                return Err(e);
            },
        };
        e_label_and_rest(t, j, LabelType::And(Box::new(acc), Box::new(atom)))
    } else {
        Ok((acc, i))
    }
}

/// Parses a `&`-chain of label atoms.
fn e_label_and(t: &Vec<Token>, i: usize) -> (r: Result<(LabelType, usize), ParseError>)
    requires
        i <= t@.len(),
    ensures
        match r {
            Ok((x, j)) => p_label_and(t.deep_view(), i as int) == Some((x@, j as int)) && i < j
                <= t@.len(),
            Err(_) => p_label_and(t.deep_view(), i as int) is None,
        },
    decreases t@.len() - i, 2int,
{
    let (l, j) = match e_label_atom(t, i) {
        Ok(p) => p,
        Err(e) => {
            return Err(e);
        },
    };
    e_label_and_rest(t, j, l)
}

/// Parses a `|`-chain of `&`-chains onto `acc`.
fn e_label_or_rest(t: &Vec<Token>, i: usize, acc: LabelType) -> (r: Result<
    (LabelType, usize),
    ParseError,
>)
    requires
        i <= t@.len(),
    ensures
        match r {
            Ok((x, j)) => p_label_or_rest(t.deep_view(), i as int, acc@) == Some((x@, j as int))
                && i <= j <= t@.len(),
            Err(_) => p_label_or_rest(t.deep_view(), i as int, acc@) is None,
        },
    decreases t@.len() - i, 3int,
{
    proof {
        if i < t@.len() {
            assert(t.deep_view()[i as int] == t@[i as int]@);
        }
    }
    if i < t.len() && matches!(&t[i], Token::Pipe) {
        let (part, j) = match e_label_and(t, i + 1) {
            Ok(p) => p,
            Err(e) => {
                return Err(e);
            },
        };
        e_label_or_rest(t, j, LabelType::Or(Box::new(acc), Box::new(part)))
    } else {
        Ok((acc, i))
    }
}

/// Parses a label expression.
fn e_label(t: &Vec<Token>, i: usize) -> (r: Result<(LabelType, usize), ParseError>)
    requires
        i <= t@.len(),
    ensures
        match r {
            Ok((x, j)) => p_label(t.deep_view(), i as int) == Some((x@, j as int)) && i < j
                <= t@.len(),
            Err(_) => p_label(t.deep_view(), i as int) is None,
        },
    decreases t@.len() - i, 4int,
{
    let (l, j) = match e_label_and(t, i) {
        Ok(p) => p,
        Err(e) => {
            return Err(e);
        },
    };
    e_label_or_rest(t, j, l)
}

/// Parses `name: type` fields separated by commas into `m`.
fn e_fields(t: &Vec<Token>, i: usize, m: &mut PropMap) -> (r: Result<usize, ParseError>)
    requires
        i <= t@.len(),
        old(m).wf(),
    ensures
        final(m).wf(),
        match r {
            Ok(j) => p_fields(t.deep_view(), i as int, old(m)@) == Some((final(m)@, j as int)) && i
                < j <= t@.len(),
            Err(_) => p_fields(t.deep_view(), i as int, old(m)@) is None,
        },
    decreases t@.len() - i,
{
    if i == t.len() {
        return Err(crate::err_at(i, "expected a property name, found end of input"));
    }
    proof {
        assert(t.deep_view()[i as int] == t@[i as int]@);
        if i + 1 < t@.len() {
            assert(t.deep_view()[i + 1] == t@[i + 1]@);
        }
    }
    let name: String = match &t[i] {
        Token::Ident(name) => name.clone(),
        _ => {
            return Err(crate::err_at(i, "expected a property name"));
        },
    };
    if !(i + 1 < t.len() && matches!(&t[i + 1], Token::Colon)) {
        return Err(crate::err_at(i + 1, "expected : after property name"));
    }
    let (v, j) = match e_simple(t, i + 2) {
        Ok(p) => p,
        Err(e) => {
            return Err(e);
        },
    };
    m.insert(name, v);
    proof {
        if j + 1 < t@.len() {
            assert(t.deep_view()[j as int] == t@[j as int]@);
            assert(t.deep_view()[j + 1] == t@[j + 1]@);
        }
    }
    if j < t.len() && j + 1 < t.len() && matches!(&t[j], Token::Comma) && matches!(&t[j + 1], Token::Ident(_)) {
        e_fields(t, j + 1, m)
    } else {
        Ok(j)
    }
}

/// Parses a property-record type.
fn e_prop(t: &Vec<Token>, i: usize) -> (r: Result<(PropertyType, usize), ParseError>)
    requires
        i <= t@.len(),
    ensures
        match r {
            Ok((x, j)) => p_prop(t.deep_view(), i as int) == Some((x@, j as int)) && i < j
                <= t@.len() && x@.wf(),
            Err(_) => p_prop(t.deep_view(), i as int) is None,
        },
{
    if i == t.len() {
        return Err(crate::err_at(i, "expected a property record, found end of input"));
    }
    proof {
        assert(t.deep_view()[i as int] == t@[i as int]@);
        if i + 1 < t@.len() {
            assert(t.deep_view()[i + 1] == t@[i + 1]@);
        }
        if i + 2 < t@.len() {
            assert(t.deep_view()[i + 2] == t@[i + 2]@);
        }
    }
    if matches!(&t[i], Token::LLBrace) {
        if i + 1 < t.len() && matches!(&t[i + 1], Token::RRBrace) {
            return Ok((PropertyType::Closed(PropMap::new()), i + 2));
        }
        let mut m = PropMap::new();
        let j = match e_fields(t, i + 1, &mut m) {
            Ok(j) => j,
            Err(e) => {
                return Err(e);
            },
        };
        proof {
            if j < t@.len() {
                assert(t.deep_view()[j as int] == t@[j as int]@);
            }
        }
        if j < t.len() && matches!(&t[j], Token::RRBrace) {
            Ok((PropertyType::Closed(m), j + 1))
        } else {
            Err(crate::err_at(j, "expected }} to close a closed record"))
        }
    } else if matches!(&t[i], Token::LBrace) {
        if i + 1 < t.len() && matches!(&t[i + 1], Token::RBrace) {
            return Ok((PropertyType::Open(PropMap::new()), i + 2));
        }
        if i + 1 < t.len() && i + 2 < t.len() && matches!(&t[i + 1], Token::Star) && matches!(
            &t[i + 2],
            Token::RBrace,
        ) {
            return Ok((PropertyType::Open(PropMap::new()), i + 3));
        }
        let mut m = PropMap::new();
        let j = match e_fields(t, i + 1, &mut m) {
            Ok(j) => j,
            Err(e) => {
                return Err(e);
            },
        };
        proof {
            if j < t@.len() {
                assert(t.deep_view()[j as int] == t@[j as int]@);
            }
            if j + 1 < t@.len() {
                assert(t.deep_view()[j + 1] == t@[j + 1]@);
            }
            if j + 2 < t@.len() {
                assert(t.deep_view()[j + 2] == t@[j + 2]@);
            }
        }
        if j < t.len() && matches!(&t[j], Token::RBrace) {
            Ok((PropertyType::Open(m), j + 1))
        } else if j < t.len() && j + 1 < t.len() && j + 2 < t.len() && matches!(&t[j], Token::Comma) && matches!(
            &t[j + 1],
            Token::Star,
        ) && matches!(&t[j + 2], Token::RBrace) {
            Ok((PropertyType::Open(m), j + 3))
        } else {
            Err(crate::err_at(j, "expected } or , * } to close an open record"))
        }
    } else {
        Err(crate::err_at(i, "expected { or {{"))
    }
}

/// The descriptor type used when none is written.
fn default_dtype() -> (r: DescriptorType)
    ensures
        r@ == dtype_default(),
        r@.properties.wf(),
{
    DescriptorType { label: LabelType::Star, properties: PropertyType::Open(PropMap::new()) }
}

/// Parses the optional property record after a label.
fn e_dtype_props(t: &Vec<Token>, i: usize, l: LabelType) -> (r: Result<
    (DescriptorType, usize),
    ParseError,
>)
    requires
        i <= t@.len(),
    ensures
        match r {
            Ok((x, j)) => p_dtype_props(t.deep_view(), i as int, l@) == Some((x@, j as int)) && i
                <= j <= t@.len() && x@.properties.wf(),
            Err(_) => p_dtype_props(t.deep_view(), i as int, l@) is None,
        },
{
    proof {
        if i < t@.len() {
            assert(t.deep_view()[i as int] == t@[i as int]@);
        }
    }
    if i < t.len() && (matches!(&t[i], Token::LBrace) || matches!(&t[i], Token::LLBrace)) {
        let (p, j) = match e_prop(t, i) {
            Ok(p) => p,
            Err(e) => {
                return Err(e);
            },
        };
        Ok((DescriptorType { label: l, properties: p }, j))
    } else {
        Ok((DescriptorType { label: l, properties: PropertyType::Open(PropMap::new()) }, i))
    }
}

/// Parses a descriptor type.
fn e_dtype(t: &Vec<Token>, i: usize) -> (r: Result<(DescriptorType, usize), ParseError>)
    requires
        i <= t@.len(),
    ensures
        match r {
            Ok((x, j)) => p_dtype(t.deep_view(), i as int) == Some((x@, j as int)) && i <= j
                <= t@.len() && x@.properties.wf(),
            Err(_) => p_dtype(t.deep_view(), i as int) is None,
        },
{
    proof {
        if i < t@.len() {
            assert(t.deep_view()[i as int] == t@[i as int]@);
        }
    }
    if i < t.len() && (matches!(&t[i], Token::Ident(_)) || matches!(&t[i], Token::Star)
        || matches!(&t[i], Token::LParen)) {
        let (l, j) = match e_label(t, i) {
            Ok(p) => p,
            Err(e) => {
                return Err(e);
            },
        };
        e_dtype_props(t, j, l)
    } else {
        e_dtype_props(t, i, LabelType::Star)
    }
}

/// Parses a descriptor.
fn e_descriptor(t: &Vec<Token>, i: usize) -> (r: Result<(Descriptor, usize), ParseError>)
    requires
        i <= t@.len(),
    ensures
        match r {
            Ok((x, j)) => p_descriptor(t.deep_view(), i as int) == Some((x@, j as int)) && i <= j
                <= t@.len() && x@.descriptor_type.properties.wf(),
            Err(_) => p_descriptor(t.deep_view(), i as int) is None,
        },
{
    proof {
        if i < t@.len() {
            assert(t.deep_view()[i as int] == t@[i as int]@);
        }
    }
    let variable: Option<Var>;
    let j: usize;
    if i < t.len() && matches!(&t[i], Token::Ident(_)) {
        let name: String = match &t[i] {
            Token::Ident(name) => name.clone(),
            _ => {
                return Err(crate::err_at(i, "expected a variable name"));
            },
        };
        variable = Some(Var(name));
        j = i + 1;
    } else {
        variable = None;
        j = i;
    }
    proof {
        if j < t@.len() {
            assert(t.deep_view()[j as int] == t@[j as int]@);
        }
    }
    if j < t.len() && matches!(&t[j], Token::Colon) {
        let (dt, k) = match e_dtype(t, j + 1) {
            Ok(p) => p,
            Err(e) => {
                return Err(e);
            },
        };
        Ok((Descriptor { variable, descriptor_type: dt }, k))
    } else {
        Ok((Descriptor { variable, descriptor_type: default_dtype() }, j))
    }
}

/// Parses a node pattern.
fn e_node(t: &Vec<Token>, i: usize) -> (r: Result<(NodePattern, usize), ParseError>)
    requires
        i <= t@.len(),
    ensures
        match r {
            Ok((x, j)) => p_node(t.deep_view(), i as int) == Some((x@, j as int)) && i < j
                <= t@.len() && x@.descriptor.descriptor_type.properties.wf(),
            Err(_) => p_node(t.deep_view(), i as int) is None,
        },
{
    proof {
        if i < t@.len() {
            assert(t.deep_view()[i as int] == t@[i as int]@);
        }
    }
    if !(i < t.len() && matches!(&t[i], Token::LParen)) {
        return Err(crate::err_at(i, "expected ( to start a node pattern"));
    }
    let (d, j) = match e_descriptor(t, i + 1) {
        Ok(p) => p,
        Err(e) => {
            return Err(e);
        },
    };
    proof {
        if j < t@.len() {
            assert(t.deep_view()[j as int] == t@[j as int]@);
        }
    }
    if j < t.len() && matches!(&t[j], Token::RParen) {
        Ok((NodePattern { descriptor: d }, j + 1))
    } else {
        Err(crate::err_at(j, "expected ) to close a node pattern"))
    }
}

/// Parses an expression atom.
fn e_atom(t: &Vec<Token>, i: usize) -> (r: Result<(Expr, usize), ParseError>)
    requires
        i <= t@.len(),
    ensures
        match r {
            Ok((x, j)) => p_atom(t.deep_view(), i as int) == Some((x@, j as int)) && i < j
                <= t@.len(),
            Err(_) => p_atom(t.deep_view(), i as int) is None,
        },
    decreases t@.len() - i, 0int,
{
    if i == t.len() {
        return Err(crate::err_at(i, "expected an expression, found end of input"));
    }
    proof {
        assert(t.deep_view()[i as int] == t@[i as int]@);
        if i + 1 < t@.len() {
            assert(t.deep_view()[i + 1] == t@[i + 1]@);
        }
        if i + 2 < t@.len() {
            assert(t.deep_view()[i + 2] == t@[i + 2]@);
        }
    }
    match &t[i] {
        Token::IntLit(v) => Ok((Expr::Constant(Constant::Int(*v)), i + 1)),
        Token::StrLit(s) => Ok((Expr::Constant(Constant::String(s.clone())), i + 1)),
        Token::KwTrue => Ok((Expr::Constant(Constant::Bool(true)), i + 1)),
        Token::KwFalse => Ok((Expr::Constant(Constant::Bool(false)), i + 1)),
        Token::KwInt => Ok((Expr::TypeLiteral(SimpleType::Base(BaseType::Int)), i + 1)),
        Token::KwBool => Ok((Expr::TypeLiteral(SimpleType::Base(BaseType::Bool)), i + 1)),
        Token::KwStr => Ok((Expr::TypeLiteral(SimpleType::Base(BaseType::String)), i + 1)),
        Token::Star => Ok((Expr::TypeLiteral(SimpleType::Star), i + 1)),
        Token::Ident(name) => {
            if i + 1 < t.len() && i + 2 < t.len() && matches!(&t[i + 1], Token::Dot) && matches!(
                &t[i + 2],
                Token::Ident(_),
            ) {
                let attr: String = match &t[i + 2] {
                    Token::Ident(a) => a.clone(),
                    _ => {
                        return Err(crate::err_at(i + 2, "expected an attribute name"));
                    },
                };
                Ok(
                    (
                        Expr::AttributeLookup(
                            AttributeLookup { e: Var(name.clone()), a: Var(attr) },
                        ),
                        i + 3,
                    ),
                )
            } else {
                Ok((Expr::Variable(Var(name.clone())), i + 1))
            }
        },
        Token::LParen => {
            let (e, j) = match e_or(t, i + 1) {
                Ok(p) => p,
                Err(er) => {
                    return Err(er);
                },
            };
            proof {
                if j < t@.len() {
                    assert(t.deep_view()[j as int] == t@[j as int]@);
                }
            }
            if j < t.len() && matches!(&t[j], Token::RParen) {
                Ok((e, j + 1))
            } else {
                Err(crate::err_at(j, "expected ) after expression"))
            }
        },
        _ => Err(crate::err_at(i, "expected a constant, variable, type or (")),
    }
}

/// Parses a unary level expression.
fn e_unary(t: &Vec<Token>, i: usize) -> (r: Result<(Expr, usize), ParseError>)
    requires
        i <= t@.len(),
    ensures
        match r {
            Ok((x, j)) => p_unary(t.deep_view(), i as int) == Some((x@, j as int)) && i < j
                <= t@.len(),
            Err(_) => p_unary(t.deep_view(), i as int) is None,
        },
    decreases t@.len() - i, 1int,
{
    proof {
        if i < t@.len() {
            assert(t.deep_view()[i as int] == t@[i as int]@);
        }
    }
    if i < t.len() && matches!(&t[i], Token::Minus) {
        let (e, j) = match e_unary(t, i + 1) {
            Ok(p) => p,
            Err(er) => {
                return Err(er);
            },
        };
        Ok((Expr::Unop(Unop { op: UnOpKind::Neg, e: Box::new(e) }), j))
    } else {
        e_atom(t, i)
    }
}

/// Parses a chain of `* /` operations onto `acc`.
fn e_mul_rest(t: &Vec<Token>, i: usize, acc: Expr) -> (r: Result<(Expr, usize), ParseError>)
    requires
        i <= t@.len(),
    ensures
        match r {
            Ok((x, j)) => p_mul_rest(t.deep_view(), i as int, acc@) == Some((x@, j as int)) && i
                <= j <= t@.len(),
            Err(_) => p_mul_rest(t.deep_view(), i as int, acc@) is None,
        },
    decreases t@.len() - i, 2int,
{
    proof {
        if i < t@.len() {
            assert(t.deep_view()[i as int] == t@[i as int]@);
        }
    }
    if i < t.len() && (matches!(&t[i], Token::Star) || matches!(&t[i], Token::Slash)) {
        let op = if matches!(&t[i], Token::Star) {
            BinOpKind::Mul
        } else {
            BinOpKind::Div
        };
        let (e2, j) = match e_unary(t, i + 1) {
            Ok(p) => p,
            Err(er) => {
                return Err(er);
            },
        };
        e_mul_rest(t, j, Expr::Binop(Binop { op, e1: Box::new(acc), e2: Box::new(e2) }))
    } else {
        Ok((acc, i))
    }
}

/// Parses a multiplicative expression.
fn e_mul(t: &Vec<Token>, i: usize) -> (r: Result<(Expr, usize), ParseError>)
    requires
        i <= t@.len(),
    ensures
        match r {
            Ok((x, j)) => p_mul(t.deep_view(), i as int) == Some((x@, j as int)) && i < j
                <= t@.len(),
            Err(_) => p_mul(t.deep_view(), i as int) is None,
        },
    decreases t@.len() - i, 3int,
{
    let (e, j) = match e_unary(t, i) {
        Ok(p) => p,
        Err(er) => {
            return Err(er);
        },
    };
    e_mul_rest(t, j, e)
}

/// Parses a chain of `+ -` operations onto `acc`.
fn e_add_rest(t: &Vec<Token>, i: usize, acc: Expr) -> (r: Result<(Expr, usize), ParseError>)
    requires
        i <= t@.len(),
    ensures
        match r {
            Ok((x, j)) => p_add_rest(t.deep_view(), i as int, acc@) == Some((x@, j as int)) && i
                <= j <= t@.len(),
            Err(_) => p_add_rest(t.deep_view(), i as int, acc@) is None,
        },
    decreases t@.len() - i, 4int,
{
    proof {
        if i < t@.len() {
            assert(t.deep_view()[i as int] == t@[i as int]@);
        }
    }
    if i < t.len() && (matches!(&t[i], Token::Plus) || matches!(&t[i], Token::Minus)) {
        let op = if matches!(&t[i], Token::Plus) {
            BinOpKind::Add
        } else {
            BinOpKind::Sub
        };
        let (e2, j) = match e_mul(t, i + 1) {
            Ok(p) => p,
            Err(er) => {
                return Err(er);
            },
        };
        e_add_rest(t, j, Expr::Binop(Binop { op, e1: Box::new(acc), e2: Box::new(e2) }))
    } else {
        Ok((acc, i))
    }
}

/// Parses an additive expression.
fn e_add(t: &Vec<Token>, i: usize) -> (r: Result<(Expr, usize), ParseError>)
    requires
        i <= t@.len(),
    ensures
        match r {
            Ok((x, j)) => p_add(t.deep_view(), i as int) == Some((x@, j as int)) && i < j
                <= t@.len(),
            Err(_) => p_add(t.deep_view(), i as int) is None,
        },
    decreases t@.len() - i, 5int,
{
    let (e, j) = match e_mul(t, i) {
        Ok(p) => p,
        Err(er) => {
            return Err(er);
        },
    };
    e_add_rest(t, j, e)
}

/// Parses a chain of `is` / `as` operations onto `acc`.
fn e_isas_rest(t: &Vec<Token>, i: usize, acc: Expr) -> (r: Result<(Expr, usize), ParseError>)
    requires
        i <= t@.len(),
    ensures
        match r {
            Ok((x, j)) => p_isas_rest(t.deep_view(), i as int, acc@) == Some((x@, j as int)) && i
                <= j <= t@.len(),
            Err(_) => p_isas_rest(t.deep_view(), i as int, acc@) is None,
        },
    decreases t@.len() - i, 6int,
{
    proof {
        if i < t@.len() {
            assert(t.deep_view()[i as int] == t@[i as int]@);
        }
    }
    if i < t.len() && (matches!(&t[i], Token::KwIs) || matches!(&t[i], Token::KwAs)) {
        let op = if matches!(&t[i], Token::KwIs) {
            BinOpKind::Is
        } else {
            BinOpKind::As
        };
        let (e2, j) = match e_add(t, i + 1) {
            Ok(p) => p,
            Err(er) => {
                return Err(er);
            },
        };
        e_isas_rest(t, j, Expr::Binop(Binop { op, e1: Box::new(acc), e2: Box::new(e2) }))
    } else {
        Ok((acc, i))
    }
}

/// Parses a type-relational expression.
fn e_isas(t: &Vec<Token>, i: usize) -> (r: Result<(Expr, usize), ParseError>)
    requires
        i <= t@.len(),
    ensures
        match r {
            Ok((x, j)) => p_isas(t.deep_view(), i as int) == Some((x@, j as int)) && i < j
                <= t@.len(),
            Err(_) => p_isas(t.deep_view(), i as int) is None,
        },
    decreases t@.len() - i, 7int,
{
    let (e, j) = match e_add(t, i) {
        Ok(p) => p,
        Err(er) => {
            return Err(er);
        },
    };
    e_isas_rest(t, j, e)
}

/// Parses a chain of comparisons onto `acc`: comparisons chain
/// left-associatively.
fn e_cmp_rest(t: &Vec<Token>, i: usize, acc: Expr) -> (r: Result<(Expr, usize), ParseError>)
    requires
        i <= t@.len(),
    ensures
        match r {
            Ok((x, j)) => p_cmp_rest(t.deep_view(), i as int, acc@) == Some((x@, j as int)) && i
                <= j <= t@.len(),
            Err(_) => p_cmp_rest(t.deep_view(), i as int, acc@) is None,
        },
    decreases t@.len() - i, 8int,
{
    proof {
        if i < t@.len() {
            assert(t.deep_view()[i as int] == t@[i as int]@);
        }
    }
    if i < t.len() && (matches!(&t[i], Token::Eq) || matches!(&t[i], Token::Ne) || matches!(
        &t[i],
        Token::Lt,
    ) || matches!(&t[i], Token::Gt) || matches!(&t[i], Token::Le) || matches!(&t[i], Token::Ge)) {
        let op = match &t[i] {
            Token::Eq => BinOpKind::Eq,
            Token::Ne => BinOpKind::Ne,
            Token::Lt => BinOpKind::Lt,
            Token::Gt => BinOpKind::Gt,
            Token::Le => BinOpKind::Le,
            _ => BinOpKind::Ge,
        };
        let (e2, j) = match e_isas(t, i + 1) {
            Ok(p) => p,
            Err(er) => {
                return Err(er);
            },
        };
        e_cmp_rest(t, j, Expr::Binop(Binop { op, e1: Box::new(acc), e2: Box::new(e2) }))
    } else {
        Ok((acc, i))
    }
}

/// Parses a comparison expression.
fn e_cmp(t: &Vec<Token>, i: usize) -> (r: Result<(Expr, usize), ParseError>)
    requires
        i <= t@.len(),
    ensures
        match r {
            Ok((x, j)) => p_cmp(t.deep_view(), i as int) == Some((x@, j as int)) && i < j
                <= t@.len(),
            Err(_) => p_cmp(t.deep_view(), i as int) is None,
        },
    decreases t@.len() - i, 9int,
{
    let (e, j) = match e_isas(t, i) {
        Ok(p) => p,
        Err(er) => {
            return Err(er);
        },
    };
    e_cmp_rest(t, j, e)
}

/// Parses a `not` level expression.
fn e_not(t: &Vec<Token>, i: usize) -> (r: Result<(Expr, usize), ParseError>)
    requires
        i <= t@.len(),
    ensures
        match r {
            Ok((x, j)) => p_not(t.deep_view(), i as int) == Some((x@, j as int)) && i < j
                <= t@.len(),
            Err(_) => p_not(t.deep_view(), i as int) is None,
        },
    decreases t@.len() - i, 10int,
{
    proof {
        if i < t@.len() {
            assert(t.deep_view()[i as int] == t@[i as int]@);
        }
    }
    if i < t.len() && matches!(&t[i], Token::KwNot) {
        let (e, j) = match e_not(t, i + 1) {
            Ok(p) => p,
            Err(er) => {
                return Err(er);
            },
        };
        Ok((Expr::Unop(Unop { op: UnOpKind::Not, e: Box::new(e) }), j))
    } else {
        e_cmp(t, i)
    }
}

/// Parses a chain of `and` operations onto `acc`.
fn e_and_rest(t: &Vec<Token>, i: usize, acc: Expr) -> (r: Result<(Expr, usize), ParseError>)
    requires
        i <= t@.len(),
    ensures
        match r {
            Ok((x, j)) => p_and_rest(t.deep_view(), i as int, acc@) == Some((x@, j as int)) && i
                <= j <= t@.len(),
            Err(_) => p_and_rest(t.deep_view(), i as int, acc@) is None,
        },
    decreases t@.len() - i, 11int,
{
    proof {
        if i < t@.len() {
            assert(t.deep_view()[i as int] == t@[i as int]@);
        }
    }
    if i < t.len() && matches!(&t[i], Token::KwAnd) {
        let (e2, j) = match e_not(t, i + 1) {
            Ok(p) => p,
            Err(er) => {
                return Err(er);
            },
        };
        e_and_rest(
            t,
            j,
            Expr::Binop(Binop { op: BinOpKind::And, e1: Box::new(acc), e2: Box::new(e2) }),
        )
    } else {
        Ok((acc, i))
    }
}

/// Parses an `and` expression.
fn e_and(t: &Vec<Token>, i: usize) -> (r: Result<(Expr, usize), ParseError>)
    requires
        i <= t@.len(),
    ensures
        match r {
            Ok((x, j)) => p_and(t.deep_view(), i as int) == Some((x@, j as int)) && i < j
                <= t@.len(),
            Err(_) => p_and(t.deep_view(), i as int) is None,
        },
    decreases t@.len() - i, 12int,
{
    let (e, j) = match e_not(t, i) {
        Ok(p) => p,
        Err(er) => {
            return Err(er);
        },
    };
    e_and_rest(t, j, e)
}

/// Parses a chain of `or` operations onto `acc`.
fn e_or_rest(t: &Vec<Token>, i: usize, acc: Expr) -> (r: Result<(Expr, usize), ParseError>)
    requires
        i <= t@.len(),
    ensures
        match r {
            Ok((x, j)) => p_or_rest(t.deep_view(), i as int, acc@) == Some((x@, j as int)) && i <= j
                <= t@.len(),
            Err(_) => p_or_rest(t.deep_view(), i as int, acc@) is None,
        },
    decreases t@.len() - i, 13int,
{
    proof {
        if i < t@.len() {
            assert(t.deep_view()[i as int] == t@[i as int]@);
        }
    }
    if i < t.len() && matches!(&t[i], Token::KwOr) {
        let (e2, j) = match e_and(t, i + 1) {
            Ok(p) => p,
            Err(er) => {
                return Err(er);
            },
        };
        e_or_rest(
            t,
            j,
            Expr::Binop(Binop { op: BinOpKind::Or, e1: Box::new(acc), e2: Box::new(e2) }),
        )
    } else {
        Ok((acc, i))
    }
}

/// Parses an `or` expression (the full expression grammar).
fn e_or(t: &Vec<Token>, i: usize) -> (r: Result<(Expr, usize), ParseError>)
    requires
        i <= t@.len(),
    ensures
        match r {
            Ok((x, j)) => p_or(t.deep_view(), i as int) == Some((x@, j as int)) && i < j
                <= t@.len(),
            Err(_) => p_or(t.deep_view(), i as int) is None,
        },
    decreases t@.len() - i, 14int,
{
    let (e, j) = match e_and(t, i) {
        Ok(p) => p,
        Err(er) => {
            return Err(er);
        },
    };
    e_or_rest(t, j, e)
}

/// Parses a path pattern.
fn e_path(t: &Vec<Token>, i: usize) -> (r: Result<(PathPattern, usize), ParseError>)
    requires
        i <= t@.len(),
    ensures
        match r {
            Ok((x, j)) => p_path(t.deep_view(), i as int) == Some((x@, j as int)) && i < j
                <= t@.len(),
            Err(_) => p_path(t.deep_view(), i as int) is None,
        },
{
    let (n, j) = match e_node(t, i) {
        Ok(p) => p,
        Err(er) => {
            return Err(er);
        },
    };
    proof {
        if j < t@.len() {
            assert(t.deep_view()[j as int] == t@[j as int]@);
        }
    }
    if j < t.len() && matches!(&t[j], Token::KwWhere) {
        let (e, k) = match e_or(t, j + 1) {
            Ok(p) => p,
            Err(er) => {
                return Err(er);
            },
        };
        let ghost nv = n@;
        let ghost ev = e@;
        let inner = PathPattern::Node(n);
        let ghost iv = inner@;
        let px = PathPattern::Filter(Box::new(inner), e);
        proof {
            assert(p_expr(t.deep_view(), j + 1) == p_or(t.deep_view(), j + 1));
            assert(iv == PathV::Node(nv));
            assert(px@ == PathV::Filter(Box::new(iv), ev));
        }
        Ok((px, k))
    } else {
        Ok((PathPattern::Node(n), j))
    }
}

/// Entry point that parses a whole text as a label expression.
pub struct LabelTypeParser;

impl LabelTypeParser {
    /// Builds the entry point.
    pub fn new() -> LabelTypeParser {
        LabelTypeParser
    }

    /// Parses the whole input as a label expression; trailing input after a
    /// complete parse is an error.
    pub fn parse(&self, input: &str) -> (r: Result<LabelType, ParseError>)
        ensures
            match r {
                Ok(l) => label_parse_spec(input@) == Some(l@),
                Err(_) => label_parse_spec(input@) is None,
            },
    {
        let toks = match tokenize(input) {
            Ok(v) => v,
            Err(e) => {
                return Err(e);
            },
        };
        let (l, j) = match e_label(&toks, 0) {
            Ok(p) => p,
            Err(e) => {
                return Err(e);
            },
        };
        if j == toks.len() {
            Ok(l)
        } else {
            Err(crate::err_at(j, "unexpected input after a complete parse"))
        }
    }
}

/// Entry point that parses a whole text as a simple type.
pub struct SimpleTypeParser;

impl SimpleTypeParser {
    /// Builds the entry point.
    pub fn new() -> SimpleTypeParser {
        SimpleTypeParser
    }

    /// Parses the whole input as a simple type; trailing input after a
    /// complete parse is an error.
    pub fn parse(&self, input: &str) -> (r: Result<SimpleType, ParseError>)
        ensures
            match r {
                Ok(t) => simple_parse_spec(input@) == Some(t),
                Err(_) => simple_parse_spec(input@) is None,
            },
    {
        let toks = match tokenize(input) {
            Ok(v) => v,
            Err(e) => {
                return Err(e);
            },
        };
        let (t, j) = match e_simple(&toks, 0) {
            Ok(p) => p,
            Err(e) => {
                return Err(e);
            },
        };
        if j == toks.len() {
            Ok(t)
        } else {
            Err(crate::err_at(j, "unexpected input after a complete parse"))
        }
    }
}

/// Entry point that parses a whole text as a property-record type.
pub struct PropertyTypeParser;

impl PropertyTypeParser {
    /// Builds the entry point.
    pub fn new() -> PropertyTypeParser {
        PropertyTypeParser
    }

    /// Parses the whole input as a property-record type; trailing input after
    /// a complete parse is an error. A returned map is in canonical key order.
    pub fn parse(&self, input: &str) -> (r: Result<PropertyType, ParseError>)
        ensures
            match r {
                Ok(p) => prop_parse_spec(input@) == Some(p@) && p@.wf(),
                Err(_) => prop_parse_spec(input@) is None,
            },
    {
        let toks = match tokenize(input) {
            Ok(v) => v,
            Err(e) => {
                return Err(e);
            },
        };
        let (p, j) = match e_prop(&toks, 0) {
            Ok(p) => p,
            Err(e) => {
                return Err(e);
            },
        };
        if j == toks.len() {
            Ok(p)
        } else {
            Err(crate::err_at(j, "unexpected input after a complete parse"))
        }
    }
}

/// Entry point that parses a whole text as a descriptor type.
pub struct DescriptorTypeParser;

impl DescriptorTypeParser {
    /// Builds the entry point.
    pub fn new() -> DescriptorTypeParser {
        DescriptorTypeParser
    }

    /// Parses the whole input as a descriptor type; trailing input after a
    /// complete parse is an error.
    pub fn parse(&self, input: &str) -> (r: Result<DescriptorType, ParseError>)
        ensures
            match r {
                Ok(d) => dtype_parse_spec(input@) == Some(d@) && d@.properties.wf(),
                Err(_) => dtype_parse_spec(input@) is None,
            },
    {
        let toks = match tokenize(input) {
            Ok(v) => v,
            Err(e) => {
                return Err(e);
            },
        };
        let (d, j) = match e_dtype(&toks, 0) {
            Ok(p) => p,
            Err(e) => {
                return Err(e);
            },
        };
        if j == toks.len() {
            Ok(d)
        } else {
            Err(crate::err_at(j, "unexpected input after a complete parse"))
        }
    }
}

/// Entry point that parses a whole text as a descriptor.
pub struct DescriptorParser;

impl DescriptorParser {
    /// Builds the entry point.
    pub fn new() -> DescriptorParser {
        DescriptorParser
    }

    /// Parses the whole input as a descriptor; trailing input after a
    /// complete parse is an error.
    pub fn parse(&self, input: &str) -> (r: Result<Descriptor, ParseError>)
        ensures
            match r {
                Ok(d) => descriptor_parse_spec(input@) == Some(d@)
                    && d@.descriptor_type.properties.wf(),
                Err(_) => descriptor_parse_spec(input@) is None,
            },
    {
        let toks = match tokenize(input) {
            Ok(v) => v,
            Err(e) => {
                return Err(e);
            },
        };
        let (d, j) = match e_descriptor(&toks, 0) {
            Ok(p) => p,
            Err(e) => {
                return Err(e);
            },
        };
        if j == toks.len() {
            Ok(d)
        } else {
            Err(crate::err_at(j, "unexpected input after a complete parse"))
        }
    }
}

/// Entry point that parses a whole text as a node pattern.
pub struct NodePatternParser;

impl NodePatternParser {
    /// Builds the entry point.
    pub fn new() -> NodePatternParser {
        NodePatternParser
    }

    /// Parses the whole input as a node pattern; trailing input after a
    /// complete parse is an error.
    pub fn parse(&self, input: &str) -> (r: Result<NodePattern, ParseError>)
        ensures
            match r {
                Ok(n) => node_parse_spec(input@) == Some(n@)
                    && n@.descriptor.descriptor_type.properties.wf(),
                Err(_) => node_parse_spec(input@) is None,
            },
    {
        let toks = match tokenize(input) {
            Ok(v) => v,
            Err(e) => {
                return Err(e);
            },
        };
        let (n, j) = match e_node(&toks, 0) {
            Ok(p) => p,
            Err(e) => {
                return Err(e);
            },
        };
        if j == toks.len() {
            Ok(n)
        } else {
            Err(crate::err_at(j, "unexpected input after a complete parse"))
        }
    }
}

/// Entry point that parses a whole text as a path pattern.
pub struct PathPatternParser;

impl PathPatternParser {
    /// Builds the entry point.
    pub fn new() -> PathPatternParser {
        PathPatternParser
    }

    /// Parses the whole input as a path pattern; trailing input after a
    /// complete parse is an error.
    pub fn parse(&self, input: &str) -> (r: Result<PathPattern, ParseError>)
        ensures
            match r {
                Ok(p) => path_parse_spec(input@) == Some(p@),
                Err(_) => path_parse_spec(input@) is None,
            },
    {
        let toks = match tokenize(input) {
            Ok(v) => v,
            Err(e) => {
                return Err(e);
            },
        };
        let (p, j) = match e_path(&toks, 0) {
            Ok(p) => p,
            Err(e) => {
                return Err(e);
            },
        };
        if j == toks.len() {
            Ok(p)
        } else {
            Err(crate::err_at(j, "unexpected input after a complete parse"))
        }
    }
}

/// Entry point that parses a whole text as a filter expression.
pub struct ExprParser;

impl ExprParser {
    /// Builds the entry point.
    pub fn new() -> ExprParser {
        ExprParser
    }

    /// Parses the whole input as an expression; trailing input after a
    /// complete parse is an error.
    pub fn parse(&self, input: &str) -> (r: Result<Expr, ParseError>)
        ensures
            match r {
                Ok(e) => expr_parse_spec(input@) == Some(e@),
                Err(_) => expr_parse_spec(input@) is None,
            },
    {
        let toks = match tokenize(input) {
            Ok(v) => v,
            Err(e) => {
                return Err(e);
            },
        };
        let (e, j) = match e_or(&toks, 0) {
            Ok(p) => p,
            Err(e) => {
                return Err(e);
            },
        };
        if j == toks.len() {
            proof {
                assert(p_expr(toks.deep_view(), 0) == p_or(toks.deep_view(), 0));
            }
            Ok(e)
        } else {
            Err(crate::err_at(j, "unexpected input after a complete parse"))
        }
    }
}

} // verus!
