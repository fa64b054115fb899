use fppc::ast::{
    AttributeLookup, BaseType, BinOpKind, Binop, Constant, Expr, LabelType, PropertyType,
    SimpleType, UnOpKind, Unop, Var,
};
use fppc::{
    DescriptorParser, DescriptorTypeParser, ExprParser, LabelTypeParser, NodePatternParser,
    PathPatternParser, PropertyTypeParser, SimpleTypeParser,
};

// ==========================================
// CANONICAL RENDERING
// ==========================================

#[test]
fn render_simple_types() {
    assert_eq!(SimpleTypeParser::new().parse("int").unwrap().render(), "int");
    assert_eq!(SimpleTypeParser::new().parse("bool").unwrap().render(), "bool");
    assert_eq!(SimpleTypeParser::new().parse("str").unwrap().render(), "str");
    assert_eq!(SimpleTypeParser::new().parse("*").unwrap().render(), "*");
    assert_eq!(SimpleTypeParser::new().parse("INT").unwrap().render(), "int");
}

#[test]
fn render_label_fully_parenthesized() {
    let l = LabelTypeParser::new().parse("A & B | C").unwrap();
    assert_eq!(l.render(), "((A & B) | C)");
    let l2 = LabelTypeParser::new().parse("(A | B) & C").unwrap();
    assert_eq!(l2.render(), "((A | B) & C)");
}

#[test]
fn render_property_sorted_keys() {
    let p = PropertyTypeParser::new().parse("{b: bool, a: int}").unwrap();
    assert_eq!(p.render(), "{a: int, b: bool, *}");
    let c = PropertyTypeParser::new().parse("{{b: bool, a: int}}").unwrap();
    assert_eq!(c.render(), "{a: int, b: bool}");
}

#[test]
fn render_empty_records_collapse() {
    // an empty record renders as {*} whether open or closed
    assert_eq!(PropertyTypeParser::new().parse("{}").unwrap().render(), "{*}");
    assert_eq!(PropertyTypeParser::new().parse("{*}").unwrap().render(), "{*}");
    assert_eq!(PropertyTypeParser::new().parse("{{}}").unwrap().render(), "{*}");
}

#[test]
fn render_expressions() {
    assert_eq!(ExprParser::new().parse("1 + 2 * 3").unwrap().render(), "(1 + (2 * 3))");
    assert_eq!(ExprParser::new().parse("(1 + 2) * 3").unwrap().render(), "((1 + 2) * 3)");
    assert_eq!(ExprParser::new().parse("x.a>x.b>1").unwrap().render(), "((x.a > x.b) > 1)");
    assert_eq!(ExprParser::new().parse("1 <> 2").unwrap().render(), "(1 <> 2)");
    assert_eq!(ExprParser::new().parse("true and false").unwrap().render(), "(true AND false)");
    assert_eq!(ExprParser::new().parse("not x.status").unwrap().render(), "NOT x.status");
    assert_eq!(ExprParser::new().parse("-x.status>0").unwrap().render(), "(- x.status > 0)");
    assert_eq!(ExprParser::new().parse("'abc'").unwrap().render(), "'abc'");
    assert_eq!(ExprParser::new().parse("x is *").unwrap().render(), "(x IS *)");
}

#[test]
fn render_node_and_descriptor() {
    let n = NodePatternParser::new().parse("(:{a: int, b: bool})").unwrap();
    assert_eq!(n.render(), "(Descriptor(None, * {a: int, b: bool, *}))");
    let n2 = NodePatternParser::new().parse("(x)").unwrap();
    assert_eq!(n2.render(), "(Descriptor(x, * {*}))");
    let d = DescriptorTypeParser::new().parse("Person {a: int}").unwrap();
    assert_eq!(d.render(), "Person {a: int, *}");
}

#[test]
fn render_path_with_filter() {
    let p = PathPatternParser::new().parse("(x) WHERE x.a > 10").unwrap();
    assert!(matches!(p, fppc::ast::PathPattern::Filter(_, _)));
    assert_eq!(p.render(), "((Descriptor(x, * {*})) WHERE (x.a > 10))");
}

#[test]
fn render_hand_built_expression() {
    let lookup = AttributeLookup::new(Var("e".to_string()), Var("a".to_string()));
    let neg = Unop::new(UnOpKind::Neg, Expr::Constant(Constant::Int(5)));
    let sum = Binop::new(
        BinOpKind::Add,
        Expr::AttributeLookup(lookup),
        Expr::Unop(neg),
    );
    assert_eq!(Expr::Binop(sum).render(), "(e.a + - 5)");
    assert_eq!(Expr::Constant(Constant::Int(-42)).render(), "-42");
    assert_eq!(Expr::Constant(Constant::Int(i64::MIN)).render(), "-9223372036854775808");
    assert_eq!(Expr::Constant(Constant::Int(0)).render(), "0");
}

// ==========================================
// IDEMPOTENT CANONICALIZATION
// ==========================================

fn expr_fixed_point(s: &str) {
    let once = ExprParser::new().parse(s).unwrap().render();
    let twice = ExprParser::new().parse(&once).unwrap().render();
    assert_eq!(once, twice);
}

#[test]
fn canonical_form_is_fixed_point() {
    expr_fixed_point("1 + 2 * 3");
    expr_fixed_point("TRUE AND FALSE OR NOT TRUE");
    expr_fixed_point("x.a>x.b>1");
    expr_fixed_point("- x . a <> 'lit'");
    expr_fixed_point("x is int and y as str = z");

    let once = LabelTypeParser::new().parse("A&B|C&D").unwrap().render();
    let twice = LabelTypeParser::new().parse(&once).unwrap().render();
    assert_eq!(once, twice);

    let once = PropertyTypeParser::new().parse("{z: str, a: int, m: bool, *}").unwrap().render();
    let twice = PropertyTypeParser::new().parse(&once).unwrap().render();
    assert_eq!(once, twice);

    let once = DescriptorTypeParser::new().parse("Person&Employee {b: bool, a: int}").unwrap().render();
    let twice = DescriptorTypeParser::new().parse(&once).unwrap().render();
    assert_eq!(once, twice);

    let once = SimpleTypeParser::new().parse("BOOL").unwrap().render();
    let twice = SimpleTypeParser::new().parse(&once).unwrap().render();
    assert_eq!(once, twice);
}

// ==========================================
// KEY-ORDER INDEPENDENCE
// ==========================================

#[test]
fn key_order_is_canonicalized() {
    let a = PropertyTypeParser::new().parse("{a: int, b: bool, c: str}").unwrap();
    let b = PropertyTypeParser::new().parse("{c: str, a: int, b: bool}").unwrap();
    assert_eq!(a, b);
    assert_eq!(a.render(), b.render());
    assert_eq!(a.render(), "{a: int, b: bool, c: str, *}");
}

#[test]
fn closed_record_render_collapses_to_open() {
    // the canonical form of a non-empty closed record is an open-record
    // literal, so its render re-parses as the open record with the same
    // fields; the rendered string is still a fixed point after that
    let c = PropertyTypeParser::new().parse("{{a: int}}").unwrap();
    let once = c.render();
    assert_eq!(once, "{a: int}");
    let again = PropertyTypeParser::new().parse(&once).unwrap();
    assert!(matches!(again, PropertyType::Open(_)));
    let twice = again.render();
    assert_eq!(twice, "{a: int, *}");
    let thrice = PropertyTypeParser::new().parse(&twice).unwrap().render();
    assert_eq!(twice, thrice);
}

#[test]
fn duplicate_keys_last_write_wins() {
    let p = PropertyTypeParser::new().parse("{a: int, a: bool}").unwrap();
    match &p {
        PropertyType::Open(map) => {
            assert_eq!(map.len(), 1);
            assert!(matches!(map.get("a"), Some(SimpleType::Base(BaseType::Bool))));
        }
        _ => panic!("Expected Open properties"),
    }
}

// ==========================================
// CASE-INSENSITIVE KEYWORDS
// ==========================================

#[test]
fn keywords_any_case_same_tree() {
    let a = ExprParser::new().parse("true and false").unwrap();
    let b = ExprParser::new().parse("TRUE AND FALSE").unwrap();
    let c = ExprParser::new().parse("True And False").unwrap();
    assert_eq!(a, b);
    assert_eq!(b, c);
}

#[test]
fn identifiers_keep_their_case() {
    let a = ExprParser::new().parse("Count").unwrap();
    assert!(matches!(&a, Expr::Variable(Var(s)) if s == "Count"));
    // a word that only starts like a keyword is an identifier
    let b = ExprParser::new().parse("Trueish").unwrap();
    assert!(matches!(&b, Expr::Variable(Var(s)) if s == "Trueish"));
}

// ==========================================
// LABEL ALGEBRA PRECEDENCE
// ==========================================

#[test]
fn label_and_binds_tighter_than_or() {
    let d = DescriptorParser::new().parse(":A & B | C").unwrap();
    match &d.descriptor_type.label {
        LabelType::Or(l, r) => {
            assert_eq!(**r, LabelType::Label("C".to_string()));
            match &**l {
                LabelType::And(a, b) => {
                    assert_eq!(**a, LabelType::Label("A".to_string()));
                    assert_eq!(**b, LabelType::Label("B".to_string()));
                }
                _ => panic!("Expected And under Or"),
            }
        }
        _ => panic!("Expected Or at the top"),
    }
}

// ==========================================
// ERRORS
// ==========================================

#[test]
fn trailing_garbage_is_rejected() {
    assert!(PathPatternParser::new().parse("(x) extra").is_err());
    assert!(ExprParser::new().parse("1 + 2 3").is_err());
    assert!(LabelTypeParser::new().parse("A B").is_err());
    assert!(SimpleTypeParser::new().parse("int int").is_err());
}

#[test]
fn lexical_errors_are_reported() {
    // an unexpected character
    assert!(ExprParser::new().parse("1 # 2").is_err());
    // an unterminated string literal
    assert!(ExprParser::new().parse("'abc").is_err());
    // an integer literal above i64::MAX
    assert!(ExprParser::new().parse("9223372036854775808").is_err());
    // the largest literal that fits
    let e = ExprParser::new().parse("9223372036854775807").unwrap();
    assert!(matches!(e, Expr::Constant(Constant::Int(i64::MAX))));
}

#[test]
fn incomplete_inputs_are_rejected() {
    assert!(PathPatternParser::new().parse("(x").is_err());
    assert!(PropertyTypeParser::new().parse("{a: int").is_err());
    assert!(PropertyTypeParser::new().parse("{a: }").is_err());
    assert!(ExprParser::new().parse("1 +").is_err());
    assert!(ExprParser::new().parse("").is_err());
    let e = PathPatternParser::new().parse("(x:Person{").unwrap_err();
    assert!(!e.message.is_empty());
}

#[test]
fn string_literal_quotes() {
    // single- and double-quoted literals hold the same characters
    let a = ExprParser::new().parse("'hi there'").unwrap();
    let b = ExprParser::new().parse("\"hi there\"").unwrap();
    assert_eq!(a, b);
    assert!(matches!(&a, Expr::Constant(Constant::String(s)) if s == "hi there"));
}

#[test]
fn descriptor_type_defaults() {
    // both the label and the properties may be absent
    let d = DescriptorTypeParser::new().parse("").unwrap();
    assert_eq!(d.label, LabelType::Star);
    assert!(matches!(&d.properties, PropertyType::Open(m) if m.is_empty()));
    assert_eq!(d.render(), "* {*}");
}
