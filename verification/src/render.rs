//! Canonical rendering: every tree value has one deterministic textual form,
//! independent of the key order or whitespace of the text it was parsed from.
//! The `*_repr` spec functions define that form; the executable renderers are
//! proved to produce exactly it.
use vstd::prelude::*;
use vstd::string::StringExecFns;

use crate::ast::{
    AttributeLookup, BaseType, BinOpKind, ConstantV, Constant, DescTypeV, Descriptor,
    DescriptorType, DescriptorV, Expr, ExprV, LabelType, LabelV, NodePattern, NodePatternV,
    PathPattern, PathV, PropEntry, PropV, PropertyType, SimpleType, UnOpKind,
};

verus! {

/// The decimal digit character for a value below ten.
pub open spec fn digit(d: int) -> char {
    if d == 0 {
        '0'
    } else if d == 1 {
        '1'
    } else if d == 2 {
        '2'
    } else if d == 3 {
        '3'
    } else if d == 4 {
        '4'
    } else if d == 5 {
        '5'
    } else if d == 6 {
        '6'
    } else if d == 7 {
        '7'
    } else if d == 8 {
        '8'
    } else {
        '9'
    }
}

/// Decimal form of a non-negative integer, most significant digit first.
pub open spec fn nat_repr(n: int) -> Seq<char>
    decreases n,
{
    if n < 10 {
        seq![digit(n)]
    } else {
        nat_repr(n / 10) + seq![digit(n % 10)]
    }
}

/// Decimal form of an integer, with a leading minus sign when negative.
pub open spec fn int_repr(i: int) -> Seq<char> {
    if i < 0 {
        seq!['-'] + nat_repr(-i)
    } else {
        nat_repr(i)
    }
}

/// Canonical form of a label expression: binary nodes are always fully
/// parenthesized.
pub open spec fn label_repr(l: LabelV) -> Seq<char>
    decreases l,
{
    match l {
        LabelV::Label(s) => s,
        LabelV::Star => "*"@,
        LabelV::And(a, b) => "("@ + label_repr(*a) + " & "@ + label_repr(*b) + ")"@,
        LabelV::Or(a, b) => "("@ + label_repr(*a) + " | "@ + label_repr(*b) + ")"@,
    }
}

/// Canonical form of a base type.
pub open spec fn base_repr(b: BaseType) -> Seq<char> {
    match b {
        BaseType::Int => "int"@,
        BaseType::Bool => "bool"@,
        BaseType::String => "str"@,
    }
}

/// Canonical form of a simple type.
pub open spec fn simple_repr(t: SimpleType) -> Seq<char> {
    match t {
        SimpleType::Base(b) => base_repr(b),
        SimpleType::Star => "*"@,
    }
}

/// Canonical form of one property entry: `name: type`.
pub open spec fn entry_repr(e: (Seq<char>, SimpleType)) -> Seq<char> {
    e.0 + ": "@ + simple_repr(e.1)
}

/// Canonical form of the entries from position `i` on, comma-separated, with
/// a leading separator for every entry but the first of the whole list.
pub open spec fn fields_from(s: Seq<(Seq<char>, SimpleType)>, i: int) -> Seq<char>
    decreases s.len() - i,
{
    if i < 0 || i >= s.len() {
        Seq::<char>::empty()
    } else if i == 0 {
        entry_repr(s[0]) + fields_from(s, 1)
    } else {
        ", "@ + entry_repr(s[i]) + fields_from(s, i + 1)
    }
}

/// Canonical form of a property-record type. Keys appear in their stored
/// (sorted) order. An empty record renders as `{*}` whether open or closed.
pub open spec fn prop_repr(p: PropV) -> Seq<char> {
    match p {
        PropV::Open(s) => {
            if s.len() == 0 {
                "{*}"@
            } else {
                "{"@ + fields_from(s, 0) + ", *}"@
            }
        },
        PropV::Closed(s) => {
            if s.len() == 0 {
                "{*}"@
            } else {
                "{"@ + fields_from(s, 0) + "}"@
            }
        },
    }
}

/// Canonical form of a descriptor type: label, a space, properties.
pub open spec fn dtype_repr(d: DescTypeV) -> Seq<char> {
    label_repr(d.label) + " "@ + prop_repr(d.properties)
}

/// Canonical form of a descriptor: `Descriptor(var_or_None, type)`.
pub open spec fn descriptor_repr(d: DescriptorV) -> Seq<char> {
    match d.variable {
        Some(v) => "Descriptor("@ + v + ", "@ + dtype_repr(d.descriptor_type) + ")"@,
        None => "Descriptor(None, "@ + dtype_repr(d.descriptor_type) + ")"@,
    }
}

/// Canonical form of a node pattern: the descriptor in parentheses.
pub open spec fn node_repr(n: NodePatternV) -> Seq<char> {
    "("@ + descriptor_repr(n.descriptor) + ")"@
}

/// The symbol of a binary operator.
pub open spec fn binop_sym(op: BinOpKind) -> Seq<char> {
    match op {
        BinOpKind::Add => "+"@,
        BinOpKind::Sub => "-"@,
        BinOpKind::Mul => "*"@,
        BinOpKind::Div => "/"@,
        BinOpKind::Lt => "<"@,
        BinOpKind::Gt => ">"@,
        BinOpKind::Le => "<="@,
        BinOpKind::Ge => ">="@,
        BinOpKind::Eq => "="@,
        BinOpKind::Ne => "<>"@,
        BinOpKind::And => "AND"@,
        BinOpKind::Or => "OR"@,
        BinOpKind::Is => "IS"@,
        BinOpKind::As => "AS"@,
    }
}

/// The symbol of a unary operator.
pub open spec fn unop_sym(op: UnOpKind) -> Seq<char> {
    match op {
        UnOpKind::Neg => "-"@,
        UnOpKind::Not => "NOT"@,
    }
}

/// Canonical form of a constant. String constants are single-quoted so that
/// the rendered form is itself parseable.
pub open spec fn const_repr(c: ConstantV) -> Seq<char> {
    match c {
        ConstantV::String(s) => "'"@ + s + "'"@,
        ConstantV::Int(i) => int_repr(i),
        ConstantV::Bool(b) => if b {
            "true"@
        } else {
            "false"@
        },
    }
}

/// Canonical form of an expression: each binary node parenthesizes itself,
/// a unary node renders its operator, a space, and its operand.
pub open spec fn expr_repr(e: ExprV) -> Seq<char>
    decreases e,
{
    match e {
        ExprV::Constant(c) => const_repr(c),
        ExprV::Variable(v) => v,
        ExprV::TypeLiteral(t) => simple_repr(t),
        ExprV::AttributeLookup(en, at) => en + "."@ + at,
        ExprV::Binop(op, a, b) => "("@ + expr_repr(*a) + " "@ + binop_sym(op) + " "@ + expr_repr(
            *b,
        ) + ")"@,
        ExprV::Unop(op, a) => unop_sym(op) + " "@ + expr_repr(*a),
    }
}

/// Canonical form of a path pattern: a node pattern, or a parenthesized
/// `WHERE`-filtered pattern.
pub open spec fn path_repr(p: PathV) -> Seq<char>
    decreases p,
{
    match p {
        PathV::Node(n) => node_repr(n),
        PathV::Filter(q, e) => "("@ + path_repr(*q) + " WHERE "@ + expr_repr(e) + ")"@,
    }
}

/// Appends one decimal digit.
fn append_digit(out: &mut String, d: u64)
    requires
        d < 10,
    ensures
        final(out)@ == old(out)@ + seq![digit(d as int)],
{
    let s: &str = if d == 0 {
        "0"
    } else if d == 1 {
        "1"
    } else if d == 2 {
        "2"
    } else if d == 3 {
        "3"
    } else if d == 4 {
        "4"
    } else if d == 5 {
        "5"
    } else if d == 6 {
        "6"
    } else if d == 7 {
        "7"
    } else if d == 8 {
        "8"
    } else {
        "9"
    };
    proof {
        reveal_strlit("0");
        reveal_strlit("1");
        reveal_strlit("2");
        reveal_strlit("3");
        reveal_strlit("4");
        reveal_strlit("5");
        reveal_strlit("6");
        reveal_strlit("7");
        reveal_strlit("8");
        reveal_strlit("9");
        assert(s@ =~= seq![digit(d as int)]);
    }
    out.append(s);
}

/// Appends the decimal form of a non-negative number.
fn append_nat(out: &mut String, n: u64)
    ensures
        final(out)@ == old(out)@ + nat_repr(n as int),
    decreases n,
{
    if n < 10 {
        append_digit(out, n);
    } else {
        append_nat(out, n / 10);
        append_digit(out, n % 10);
        proof {
            assert(final(out)@ =~= old(out)@ + nat_repr(n as int));
        }
    }
}

/// Appends the decimal form of a signed number.
fn append_int(out: &mut String, i: i64)
    ensures
        final(out)@ == old(out)@ + int_repr(i as int),
{
    if i < 0 {
        out.append("-");
        let mag: u64 = (-(i as i128)) as u64;
        append_nat(out, mag);
        proof {
            reveal_strlit("-");
            assert("-"@ =~= seq!['-']);
            assert(final(out)@ =~= old(out)@ + int_repr(i as int));
        }
    } else {
        append_nat(out, i as u64);
    }
}

/// Appends the canonical form of a label expression.
fn append_label(out: &mut String, l: &LabelType)
    ensures
        final(out)@ == old(out)@ + label_repr(l@),
    decreases l,
{
    match l {
        LabelType::Label(s) => {
            out.append(s.as_str());
        },
        LabelType::Star => {
            out.append("*");
        },
        LabelType::And(a, b) => {
            out.append("(");
            append_label(out, &**a);
            out.append(" & ");
            append_label(out, &**b);
            out.append(")");
            proof {
                assert(final(out)@ =~= old(out)@ + label_repr(l@));
            }
        },
        LabelType::Or(a, b) => {
            out.append("(");
            append_label(out, &**a);
            out.append(" | ");
            append_label(out, &**b);
            out.append(")");
            proof {
                assert(final(out)@ =~= old(out)@ + label_repr(l@));
            }
        },
    }
}

/// Appends the canonical form of a simple type.
fn append_simple(out: &mut String, t: &SimpleType)
    ensures
        final(out)@ == old(out)@ + simple_repr(*t),
{
    match t {
        SimpleType::Base(BaseType::Int) => out.append("int"),
        SimpleType::Base(BaseType::Bool) => out.append("bool"),
        SimpleType::Base(BaseType::String) => out.append("str"),
        SimpleType::Star => out.append("*"),
    }
}

/// Appends the comma-separated property entries from position `i` on.
fn append_fields(out: &mut String, entries: &Vec<PropEntry>, i: usize)
    requires
        i <= entries@.len(),
    ensures
        final(out)@ == old(out)@ + fields_from(entries@.map_values(|e: PropEntry| e@), i as int),
    decreases entries@.len() - i,
{
    let ghost s = entries@.map_values(|e: PropEntry| e@);
    if i < entries.len() {
        if i > 0 {
            out.append(", ");
        }
        let e = &entries[i];
        proof {
            assert(s[i as int] == e@);
        }
        out.append(e.key.as_str());
        out.append(": ");
        append_simple(out, &e.value);
        append_fields(out, entries, i + 1);
        proof {
            assert(final(out)@ =~= old(out)@ + fields_from(s, i as int));
        }
    }
}

/// Appends the canonical form of a property-record type.
fn append_prop(out: &mut String, p: &PropertyType)
    ensures
        final(out)@ == old(out)@ + prop_repr(p@),
{
    match p {
        PropertyType::Open(m) => {
            if m.is_empty() {
                out.append("{*}");
            } else {
                out.append("{");
                append_fields(out, m.entries(), 0);
                out.append(", *}");
                proof {
                    assert(final(out)@ =~= old(out)@ + prop_repr(p@));
                }
            }
        },
        PropertyType::Closed(m) => {
            if m.is_empty() {
                out.append("{*}");
            } else {
                out.append("{");
                append_fields(out, m.entries(), 0);
                out.append("}");
                proof {
                    assert(final(out)@ =~= old(out)@ + prop_repr(p@));
                }
            }
        },
    }
}

/// Appends the canonical form of a descriptor type.
fn append_dtype(out: &mut String, d: &DescriptorType)
    ensures
        final(out)@ == old(out)@ + dtype_repr(d@),
{
    append_label(out, &d.label);
    out.append(" ");
    append_prop(out, &d.properties);
    proof {
        assert(final(out)@ =~= old(out)@ + dtype_repr(d@));
    }
}

/// Appends the canonical form of a descriptor.
fn append_descriptor(out: &mut String, d: &Descriptor)
    ensures
        final(out)@ == old(out)@ + descriptor_repr(d@),
{
    match &d.variable {
        Some(v) => {
            out.append("Descriptor(");
            out.append(v.0.as_str());
            out.append(", ");
        },
        None => {
            out.append("Descriptor(None, ");
        },
    }
    append_dtype(out, &d.descriptor_type);
    out.append(")");
    proof {
        assert(final(out)@ =~= old(out)@ + descriptor_repr(d@));
    }
}

/// Appends the canonical form of an expression.
fn append_expr(out: &mut String, e: &Expr)
    ensures
        final(out)@ == old(out)@ + expr_repr(e@),
    decreases e,
{
    match e {
        Expr::Constant(c) => {
            match c {
                Constant::String(s) => {
                    out.append("'");
                    out.append(s.as_str());
                    out.append("'");
                    proof {
                        assert(final(out)@ =~= old(out)@ + expr_repr(e@));
                    }
                },
                Constant::Int(i) => {
                    append_int(out, *i);
                },
                Constant::Bool(b) => {
                    if *b {
                        out.append("true");
                    } else {
                        out.append("false");
                    }
                },
            }
        },
        Expr::Variable(v) => {
            out.append(v.0.as_str());
        },
        Expr::TypeLiteral(t) => {
            append_simple(out, t);
        },
        Expr::AttributeLookup(al) => {
            out.append(al.e.0.as_str());
            out.append(".");
            out.append(al.a.0.as_str());
            proof {
                assert(final(out)@ =~= old(out)@ + expr_repr(e@));
            }
        },
        Expr::Binop(b) => {
            out.append("(");
            append_expr(out, &b.e1);
            out.append(" ");
            append_binop_sym(out, b.op);
            out.append(" ");
            append_expr(out, &b.e2);
            out.append(")");
            proof {
                assert(final(out)@ =~= old(out)@ + expr_repr(e@));
            }
        },
        Expr::Unop(u) => {
            match u.op {
                UnOpKind::Neg => out.append("-"),
                UnOpKind::Not => out.append("NOT"),
            }
            out.append(" ");
            append_expr(out, &u.e);
            proof {
                assert(final(out)@ =~= old(out)@ + expr_repr(e@));
            }
        },
    }
}

/// Appends the symbol of a binary operator.
fn append_binop_sym(out: &mut String, op: BinOpKind)
    ensures
        final(out)@ == old(out)@ + binop_sym(op),
{
    match op {
        BinOpKind::Add => out.append("+"),
        BinOpKind::Sub => out.append("-"),
        BinOpKind::Mul => out.append("*"),
        BinOpKind::Div => out.append("/"),
        BinOpKind::Lt => out.append("<"),
        BinOpKind::Gt => out.append(">"),
        BinOpKind::Le => out.append("<="),
        BinOpKind::Ge => out.append(">="),
        BinOpKind::Eq => out.append("="),
        BinOpKind::Ne => out.append("<>"),
        BinOpKind::And => out.append("AND"),
        BinOpKind::Or => out.append("OR"),
        BinOpKind::Is => out.append("IS"),
        BinOpKind::As => out.append("AS"),
    }
}

/// Appends the canonical form of a path pattern.
fn append_path(out: &mut String, p: &PathPattern)
    ensures
        final(out)@ == old(out)@ + path_repr(p@),
    decreases p,
{
    match p {
        PathPattern::Node(n) => {
            out.append("(");
            append_descriptor(out, &n.descriptor);
            out.append(")");
            proof {
                assert(final(out)@ =~= old(out)@ + path_repr(p@));
            }
        },
        PathPattern::Filter(q, e) => {
            out.append("(");
            append_path(out, &**q);
            out.append(" WHERE ");
            append_expr(out, e);
            out.append(")");
            proof {
                assert(final(out)@ =~= old(out)@ + path_repr(p@));
            }
        },
    }
}

impl LabelType {
    /// The canonical textual form of this label expression.
    pub fn render(&self) -> (r: String)
        ensures
            r@ == label_repr(self@),
    {
        let mut out = String::new();
        append_label(&mut out, self);
        out
    }
}

impl SimpleType {
    /// The canonical textual form of this simple type.
    pub fn render(&self) -> (r: String)
        ensures
            r@ == simple_repr(*self),
    {
        let mut out = String::new();
        append_simple(&mut out, self);
        out
    }
}

impl PropertyType {
    /// The canonical textual form of this property-record type.
    pub fn render(&self) -> (r: String)
        ensures
            r@ == prop_repr(self@),
    {
        let mut out = String::new();
        append_prop(&mut out, self);
        out
    }
}

impl DescriptorType {
    /// The canonical textual form of this descriptor type.
    pub fn render(&self) -> (r: String)
        ensures
            r@ == dtype_repr(self@),
    {
        let mut out = String::new();
        append_dtype(&mut out, self);
        out
    }
}

impl Descriptor {
    /// The canonical textual form of this descriptor.
    pub fn render(&self) -> (r: String)
        ensures
            r@ == descriptor_repr(self@),
    {
        let mut out = String::new();
        append_descriptor(&mut out, self);
        out
    }
}

impl NodePattern {
    /// The canonical textual form of this node pattern.
    pub fn render(&self) -> (r: String)
        ensures
            r@ == node_repr(self@),
    {
        let mut out = String::new();
        out.append("(");
        append_descriptor(&mut out, &self.descriptor);
        out.append(")");
        proof {
            assert(out@ =~= node_repr(self@));
        }
        out
    }
}

impl PathPattern {
    /// The canonical textual form of this path pattern.
    pub fn render(&self) -> (r: String)
        ensures
            r@ == path_repr(self@),
    {
        let mut out = String::new();
        append_path(&mut out, self);
        out
    }
}

impl Expr {
    /// The canonical textual form of this expression.
    pub fn render(&self) -> (r: String)
        ensures
            r@ == expr_repr(self@),
    {
        let mut out = String::new();
        append_expr(&mut out, self);
        out
    }
}

} // verus!
