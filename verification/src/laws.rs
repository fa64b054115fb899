//! Laws of the library, stated and proved over the same spec functions the
//! parser's and renderer's contracts use.
use vstd::prelude::*;

use crate::ast::{
    entries_map, entries_sorted, lemma_entries_map_contains, DescTypeV, PathV, PropV, SimpleType,
};
use crate::grammar::{path_parse_spec, simple_parse_spec};
use crate::lexer::{is_keyword, lower, lower_char, word_tok, TokV};
use crate::order::{lemma_lex_lt_asymmetric, lemma_lex_lt_connected, lex_lt};
use crate::render::{prop_repr, simple_repr};

verus! {

/// Parsing is deterministic: each entry point's contract pins its result to a
/// spec function of the input text alone, so two parses of the same text
/// yield the same tree (or both fail).
pub proof fn lemma_parse_deterministic(s: Seq<char>, r1: Option<PathV>, r2: Option<PathV>)
    requires
        r1 == path_parse_spec(s),
        r2 == path_parse_spec(s),
    ensures
        r1 == r2,
{
}

/// A key bound by an entry sequence is one of its keys.
proof fn lemma_entries_map_dom(s: Seq<(Seq<char>, SimpleType)>, k: Seq<char>)
    requires
        entries_map(s).dom().contains(k),
    ensures
        exists|j: int| 0 <= j < s.len() && (#[trigger] s[j]).0 == k,
    decreases s.len(),
{
    if s.len() > 0 {
        if s[0].0 != k {
            lemma_entries_map_dom(s.drop_first(), k);
            let j = choose|j: int| 0 <= j < s.drop_first().len() && (#[trigger] s.drop_first()[j]).0
                == k;
            assert(s[j + 1] == s.drop_first()[j]);
        }
    }
}

/// Dropping the front entry of a sorted sequence removes exactly its binding.
proof fn lemma_entries_map_behead(s: Seq<(Seq<char>, SimpleType)>)
    requires
        entries_sorted(s),
        s.len() > 0,
    ensures
        entries_map(s.drop_first()) == entries_map(s).remove(s[0].0),
{
    let tail = s.drop_first();
    if entries_map(tail).dom().contains(s[0].0) {
        lemma_entries_map_dom(tail, s[0].0);
        let j = choose|j: int| 0 <= j < tail.len() && (#[trigger] tail[j]).0 == s[0].0;
        assert(tail[j] == s[j + 1]);
        assert(lex_lt(s[0].0, s[j + 1].0));
        crate::order::lemma_lex_lt_irreflexive(s[0].0);
        assert(false);
    }
    assert(entries_map(s) == entries_map(tail).insert(s[0].0, s[0].1));
    assert(entries_map(s).remove(s[0].0) =~= entries_map(tail));
}

/// Canonical order makes the representation unique: two sorted entry
/// sequences that stand for the same finite map are the same sequence.
pub proof fn lemma_sorted_entries_canonical(
    a: Seq<(Seq<char>, SimpleType)>,
    b: Seq<(Seq<char>, SimpleType)>,
)
    requires
        entries_sorted(a),
        entries_sorted(b),
        entries_map(a) == entries_map(b),
    ensures
        a == b,
    decreases a.len(),
{
    if a.len() == 0 && b.len() == 0 {
        assert(a =~= b);
    } else if a.len() == 0 {
        lemma_entries_map_contains(b, 0);
        assert(entries_map(a).dom().contains(b[0].0));
        lemma_entries_map_dom(a, b[0].0);
    } else if b.len() == 0 {
        lemma_entries_map_contains(a, 0);
        assert(entries_map(b).dom().contains(a[0].0));
        lemma_entries_map_dom(b, a[0].0);
    } else {
        // the least key of a map in sorted order is its first entry's key,
        // so the heads agree
        if a[0].0 != b[0].0 {
            lemma_lex_lt_connected(a[0].0, b[0].0);
            if lex_lt(a[0].0, b[0].0) {
                lemma_entries_map_contains(a, 0);
                assert(entries_map(b).dom().contains(a[0].0));
                lemma_entries_map_dom(b, a[0].0);
                let j = choose|j: int| 0 <= j < b.len() && (#[trigger] b[j]).0 == a[0].0;
                if j > 0 {
                    assert(lex_lt(b[0].0, b[j].0));
                    lemma_lex_lt_asymmetric(a[0].0, b[0].0);
                    crate::order::lemma_lex_lt_transitive(b[0].0, b[j].0, b[0].0);
                    crate::order::lemma_lex_lt_irreflexive(b[0].0);
                }
                assert(false);
            } else {
                lemma_entries_map_contains(b, 0);
                assert(entries_map(a).dom().contains(b[0].0));
                lemma_entries_map_dom(a, b[0].0);
                let j = choose|j: int| 0 <= j < a.len() && (#[trigger] a[j]).0 == b[0].0;
                if j > 0 {
                    assert(lex_lt(a[0].0, a[j].0));
                    lemma_lex_lt_asymmetric(b[0].0, a[0].0);
                    crate::order::lemma_lex_lt_transitive(a[0].0, a[j].0, a[0].0);
                    crate::order::lemma_lex_lt_irreflexive(a[0].0);
                }
                assert(false);
            }
        }
        lemma_entries_map_contains(a, 0);
        lemma_entries_map_contains(b, 0);
        assert(a[0].1 == b[0].1);
        lemma_entries_map_behead(a);
        lemma_entries_map_behead(b);
        let ta = a.drop_first();
        let tb = b.drop_first();
        assert forall|i: int, j: int| 0 <= i < j < ta.len() implies lex_lt(
            #[trigger] ta[i].0,
            #[trigger] ta[j].0,
        ) by {
            assert(ta[i] == a[i + 1] && ta[j] == a[j + 1]);
        }
        assert forall|i: int, j: int| 0 <= i < j < tb.len() implies lex_lt(
            #[trigger] tb[i].0,
            #[trigger] tb[j].0,
        ) by {
            assert(tb[i] == b[i + 1] && tb[j] == b[j + 1]);
        }
        lemma_sorted_entries_canonical(ta, tb);
        assert(a =~= seq![a[0]] + ta);
        assert(b =~= seq![b[0]] + tb);
    }
}

/// Key-order independence of the canonical form: two well-formed
/// property-record types of the same openness that bind the same names to the
/// same types are equal and render identically, whatever order their literals
/// listed the names in. (The parser's contracts say that every map it returns
/// is well-formed.)
pub proof fn lemma_prop_canonical(a: PropV, b: PropV)
    requires
        a.wf(),
        b.wf(),
        a is Open <==> b is Open,
        entries_map(a.entries()) == entries_map(b.entries()),
    ensures
        a == b,
        prop_repr(a) == prop_repr(b),
{
    lemma_sorted_entries_canonical(a.entries(), b.entries());
}

/// Folding a word to lower case is idempotent.
proof fn lemma_lower_idempotent(w: Seq<char>)
    ensures
        lower(lower(w)) == lower(w),
{
    assert forall|c: char| true implies lower_char(#[trigger] lower_char(c)) == lower_char(c) by {
        if ('A' as int) <= (c as int) <= ('Z' as int) {
            assert(lower_char(c) as int == c as int + 32);
        }
    }
    assert(lower(lower(w)) =~= lower(w));
}

/// Keywords are recognized case-insensitively: a word whose case-folded form
/// is a keyword lexes to the same token as that case-folded form, whatever
/// mix of cases it was written in.
pub proof fn lemma_keyword_case_insensitive(w: Seq<char>)
    requires
        is_keyword(w),
    ensures
        word_tok(w) == word_tok(lower(w)),
{
    lemma_lower_idempotent(w);
}

/// A lower-case identifier-shaped word lexes to its word token: helper that
/// walks the lexer over a text that is one identifier run.
proof fn lemma_tokenize_one_word(s: Seq<char>)
    requires
        s.len() > 0,
        crate::lexer::is_letter(s[0]),
        forall|k: int| 0 <= k < s.len() ==> crate::lexer::is_ident_char(#[trigger] s[k]),
    ensures
        crate::lexer::spec_tokenize(s) == Some(seq![word_tok(s)]),
{
    lemma_ident_end_run(s, 0);
    assert(s.subrange(0, s.len() as int) =~= s);
    assert(crate::lexer::lex_from(s, s.len() as int) == Some(Seq::<TokV>::empty()));
    assert(crate::lexer::lex_cons(s, word_tok(s), s.len() as int) == Some(
        seq![word_tok(s)] + Seq::<TokV>::empty(),
    ));
    assert(seq![word_tok(s)] + Seq::<TokV>::empty() =~= seq![word_tok(s)]);
    assert(!crate::lexer::is_space(s[0]));
}

/// Within a run of identifier characters, the identifier extends to the end.
proof fn lemma_ident_end_run(s: Seq<char>, i: int)
    requires
        0 <= i <= s.len(),
        forall|k: int| i <= k < s.len() ==> crate::lexer::is_ident_char(#[trigger] s[k]),
    ensures
        crate::lexer::ident_end(s, i) == s.len(),
    decreases s.len() - i,
{
    if i < s.len() {
        lemma_ident_end_run(s, i + 1);
    }
}

/// The canonical form of a simple type parses back to the same simple type:
/// canonical rendering is a fixed point of render-then-parse for this entry
/// point.
pub proof fn lemma_simple_roundtrip(t: SimpleType)
    ensures
        simple_parse_spec(simple_repr(t)) == Some(t),
{
    reveal_strlit("true");
    reveal_strlit("false");
    reveal_strlit("and");
    reveal_strlit("or");
    reveal_strlit("not");
    reveal_strlit("is");
    reveal_strlit("as");
    reveal_strlit("int");
    reveal_strlit("bool");
    reveal_strlit("str");
    reveal_strlit("where");
    reveal_strlit("*");
    match t {
        SimpleType::Base(crate::ast::BaseType::Int) => {
            let s = "int"@;
            assert(s.len() == 3 && s[0] == 'i' && s[1] == 'n' && s[2] == 't');
            assert(lower(s) =~= s);
            assert(word_tok(s) == TokV::KwInt);
            lemma_tokenize_one_word(s);
            let toks = seq![TokV::KwInt];
            assert(crate::grammar::p_simple(toks, 0) == Some((t, 1int)));
        },
        SimpleType::Base(crate::ast::BaseType::Bool) => {
            let s = "bool"@;
            assert(s.len() == 4 && s[0] == 'b' && s[1] == 'o' && s[2] == 'o' && s[3] == 'l');
            assert(lower(s) =~= s);
            assert(word_tok(s) == TokV::KwBool);
            lemma_tokenize_one_word(s);
            let toks = seq![TokV::KwBool];
            assert(crate::grammar::p_simple(toks, 0) == Some((t, 1int)));
        },
        SimpleType::Base(crate::ast::BaseType::String) => {
            let s = "str"@;
            assert(s.len() == 3 && s[0] == 's' && s[1] == 't' && s[2] == 'r');
            assert(lower(s) =~= s);
            assert(word_tok(s) == TokV::KwStr);
            lemma_tokenize_one_word(s);
            let toks = seq![TokV::KwStr];
            assert(crate::grammar::p_simple(toks, 0) == Some((t, 1int)));
        },
        SimpleType::Star => {
            let s = "*"@;
            assert(s.len() == 1 && s[0] == '*');
            assert(crate::lexer::lex_from(s, 1) == Some(Seq::<TokV>::empty()));
            assert(crate::lexer::lex_cons(s, TokV::Star, 1) == Some(
                seq![TokV::Star] + Seq::<TokV>::empty(),
            ));
            assert(seq![TokV::Star] + Seq::<TokV>::empty() =~= seq![TokV::Star]);
            assert(crate::lexer::spec_tokenize(s) == Some(seq![TokV::Star]));
            let toks = seq![TokV::Star];
            assert(crate::grammar::p_simple(toks, 0) == Some((t, 1int)));
        },
    }
}

/// Idempotent canonicalization for the simple-type entry point: whatever
/// text parses to a simple type, rendering that type and parsing the result
/// yields the type again (so a second render changes nothing).
pub proof fn lemma_simple_canonical_fixed_point(s: Seq<char>)
    ensures
        simple_parse_spec(s) matches Some(t) ==> simple_parse_spec(simple_repr(t)) == Some(t),
{
    if simple_parse_spec(s) is Some {
        let t = simple_parse_spec(s)->0;
        lemma_simple_roundtrip(t);
    }
}

/// The token stream of a label expression's canonical form: every binary node
/// is parenthesized, so every rendered label is one label atom.
pub open spec fn label_toks(l: crate::ast::LabelV) -> Seq<TokV>
    decreases l,
{
    match l {
        crate::ast::LabelV::Label(s) => seq![TokV::Ident(s)],
        crate::ast::LabelV::Star => seq![TokV::Star],
        crate::ast::LabelV::And(a, b) => seq![TokV::LParen] + label_toks(*a) + seq![TokV::Amp]
            + label_toks(*b) + seq![TokV::RParen],
        crate::ast::LabelV::Or(a, b) => seq![TokV::LParen] + label_toks(*a) + seq![TokV::Pipe]
            + label_toks(*b) + seq![TokV::RParen],
    }
}

proof fn lemma_label_toks_len(l: crate::ast::LabelV)
    ensures
        label_toks(l).len() >= 1,
    decreases l,
{
    match l {
        crate::ast::LabelV::Label(_) => {
        },
        crate::ast::LabelV::Star => {
        },
        crate::ast::LabelV::And(a, b) => {
            lemma_label_toks_len(*a);
            lemma_label_toks_len(*b);
        },
        crate::ast::LabelV::Or(a, b) => {
            lemma_label_toks_len(*a);
            lemma_label_toks_len(*b);
        },
    }
}

/// Wherever the canonical token form of a label stands in a token stream, the
/// grammar parses exactly it back to that label, as one label atom.
proof fn lemma_label_atom_roundtrip(t: Seq<TokV>, i: int, l: crate::ast::LabelV)
    requires
        0 <= i,
        i + label_toks(l).len() <= t.len(),
        t.subrange(i, i + label_toks(l).len() as int) == label_toks(l),
    ensures
        crate::grammar::p_label_atom(t, i) == Some((l, i + label_toks(l).len() as int)),
    decreases l,
{
    let toks = label_toks(l);
    let n = toks.len() as int;
    assert forall|k: int| 0 <= k < n implies t[i + k] == toks[k] by {
        assert(t.subrange(i, i + n)[k] == t[i + k]);
    }
    match l {
        crate::ast::LabelV::Label(s) => {
            assert(t[i] == TokV::Ident(s));
        },
        crate::ast::LabelV::Star => {
            assert(t[i] == TokV::Star);
        },
        crate::ast::LabelV::And(a, b) => {
            let ta = label_toks(*a);
            let tb = label_toks(*b);
            lemma_label_toks_len(*a);
            lemma_label_toks_len(*b);
            let ja = i + 1 + ta.len() as int;
            let jb = ja + 1 + tb.len() as int;
            assert(t[i] == toks[0] && toks[0] == TokV::LParen);
            assert forall|k: int| 0 <= k < ta.len() implies toks[1 + k] == ta[k] by {}
            assert(t.subrange(i + 1, i + 1 + ta.len() as int) =~= ta);
            lemma_label_atom_roundtrip(t, i + 1, *a);
            assert(t[ja] == toks[1 + ta.len() as int] && toks[1 + ta.len() as int] == TokV::Amp);
            assert forall|k: int| 0 <= k < tb.len() implies toks[2 + ta.len() as int + k] == tb[k] by {}
            assert(t.subrange(ja + 1, ja + 1 + tb.len() as int) =~= tb);
            lemma_label_atom_roundtrip(t, ja + 1, *b);
            assert(t[jb] == toks[n - 1] && toks[n - 1] == TokV::RParen);
            assert(crate::grammar::p_label_and_rest(t, jb, l) == Some((l, jb)));
            assert(crate::grammar::p_label_and_rest(t, ja, *a) == Some((l, jb)));
            assert(crate::grammar::p_label_and(t, i + 1) == Some((l, jb)));
            assert(crate::grammar::p_label_or_rest(t, jb, l) == Some((l, jb)));
            assert(crate::grammar::p_label(t, i + 1) == Some((l, jb)));
            assert(crate::grammar::p_label_atom(t, i) == Some((l, jb + 1)));
        },
        crate::ast::LabelV::Or(a, b) => {
            let ta = label_toks(*a);
            let tb = label_toks(*b);
            lemma_label_toks_len(*a);
            lemma_label_toks_len(*b);
            let ja = i + 1 + ta.len() as int;
            let jb = ja + 1 + tb.len() as int;
            assert(t[i] == toks[0] && toks[0] == TokV::LParen);
            assert forall|k: int| 0 <= k < ta.len() implies toks[1 + k] == ta[k] by {}
            assert(t.subrange(i + 1, i + 1 + ta.len() as int) =~= ta);
            lemma_label_atom_roundtrip(t, i + 1, *a);
            assert(t[ja] == toks[1 + ta.len() as int] && toks[1 + ta.len() as int] == TokV::Pipe);
            assert forall|k: int| 0 <= k < tb.len() implies toks[2 + ta.len() as int + k] == tb[k] by {}
            assert(t.subrange(ja + 1, ja + 1 + tb.len() as int) =~= tb);
            lemma_label_atom_roundtrip(t, ja + 1, *b);
            assert(t[jb] == toks[n - 1] && toks[n - 1] == TokV::RParen);
            assert(crate::grammar::p_label_and_rest(t, ja, *a) == Some((*a, ja)));
            assert(crate::grammar::p_label_and(t, i + 1) == Some((*a, ja)));
            assert(crate::grammar::p_label_and_rest(t, jb, *b) == Some((*b, jb)));
            assert(crate::grammar::p_label_and(t, ja + 1) == Some((*b, jb)));
            assert(crate::grammar::p_label_or_rest(t, jb, l) == Some((l, jb)));
            assert(crate::grammar::p_label_or_rest(t, ja, *a) == Some((l, jb)));
            assert(crate::grammar::p_label(t, i + 1) == Some((l, jb)));
            assert(crate::grammar::p_label_atom(t, i) == Some((l, jb + 1)));
        },
    }
}

/// The canonical token form of a label expression parses back to the same
/// label and consumes the whole stream: canonicalization loses nothing at the
/// grammar level.
pub proof fn lemma_label_token_roundtrip(l: crate::ast::LabelV)
    ensures
        crate::grammar::p_label(label_toks(l), 0) == Some((l, label_toks(l).len() as int)),
{
    let t = label_toks(l);
    let n = t.len() as int;
    lemma_label_toks_len(l);
    assert(t.subrange(0, n) =~= t);
    lemma_label_atom_roundtrip(t, 0, l);
    assert(crate::grammar::p_label_and_rest(t, n, l) == Some((l, n)));
    assert(crate::grammar::p_label_and(t, 0) == Some((l, n)));
    assert(crate::grammar::p_label_or_rest(t, n, l) == Some((l, n)));
}

/// One or more tokens at the front of whatever the rest lexes to.
pub open spec fn opt_cons(ts: Seq<TokV>, o: Option<Seq<TokV>>) -> Option<Seq<TokV>> {
    match o {
        Some(r) => Some(ts + r),
        None => None,
    }
}

proof fn lemma_opt_cons_assoc(ts: Seq<TokV>, us: Seq<TokV>, o: Option<Seq<TokV>>)
    ensures
        opt_cons(ts, opt_cons(us, o)) == opt_cons(ts + us, o),
{
    if o is Some {
        assert(ts + (us + o->0) =~= (ts + us) + o->0);
    }
}

proof fn lemma_lex_cons_unfold(s: Seq<char>, t: TokV, e: int)
    requires
        0 <= e <= s.len(),
    ensures
        crate::lexer::lex_cons(s, t, e) == opt_cons(seq![t], crate::lexer::lex_from(s, e)),
{
}

/// An identifier run bounded on the right by a non-identifier character (or
/// the end of the text) ends exactly at that bound.
proof fn lemma_ident_end_bounded(s: Seq<char>, i: int, e: int)
    requires
        0 <= i <= e <= s.len(),
        forall|k: int| i <= k < e ==> crate::lexer::is_ident_char(#[trigger] s[k]),
        e == s.len() || !crate::lexer::is_ident_char(s[e]),
    ensures
        crate::lexer::ident_end(s, i) == e,
    decreases e - i,
{
    if i < e {
        lemma_ident_end_bounded(s, i + 1, e);
    }
}

/// Everything within an identifier run is an identifier character.
proof fn lemma_ident_run_chars(s: Seq<char>, i: int)
    requires
        0 <= i <= s.len(),
    ensures
        i <= crate::lexer::ident_end(s, i) <= s.len(),
        forall|k: int|
            i <= k < crate::lexer::ident_end(s, i) ==> crate::lexer::is_ident_char(#[trigger] s[k]),
    decreases s.len() - i,
{
    if i < s.len() && crate::lexer::is_ident_char(s[i]) {
        lemma_ident_run_chars(s, i + 1);
    }
}

/// A word that may stand as a label name in canonical output: a non-keyword
/// identifier.
pub open spec fn ident_ok(w: Seq<char>) -> bool {
    &&& w.len() > 0
    &&& crate::lexer::is_letter(w[0])
    &&& forall|k: int| 0 <= k < w.len() ==> crate::lexer::is_ident_char(#[trigger] w[k])
    &&& word_tok(w) is Ident
}

/// Every label name in the tree is a non-keyword identifier. This holds of
/// every tree the parser returns, since label names come from identifier
/// tokens.
pub open spec fn label_names_ok(l: crate::ast::LabelV) -> bool
    decreases l,
{
    match l {
        crate::ast::LabelV::Label(s) => ident_ok(s),
        crate::ast::LabelV::Star => true,
        crate::ast::LabelV::And(a, b) => label_names_ok(*a) && label_names_ok(*b),
        crate::ast::LabelV::Or(a, b) => label_names_ok(*a) && label_names_ok(*b),
    }
}

/// Wherever the canonical text of a label stands in a larger text, bounded on
/// the right by a non-identifier character, the lexer turns exactly it into
/// the label's canonical tokens.
#[verifier::rlimit(100)]
#[verifier::spinoff_prover]
proof fn lemma_lex_label_repr(s: Seq<char>, i: int, l: crate::ast::LabelV)
    requires
        label_names_ok(l),
        0 <= i,
        i + crate::render::label_repr(l).len() <= s.len(),
        s.subrange(i, i + crate::render::label_repr(l).len() as int) == crate::render::label_repr(
            l,
        ),
        i + crate::render::label_repr(l).len() == s.len() || !crate::lexer::is_ident_char(
            s[i + crate::render::label_repr(l).len() as int],
        ),
    ensures
        crate::lexer::lex_from(s, i) == opt_cons(
            label_toks(l),
            crate::lexer::lex_from(s, i + crate::render::label_repr(l).len() as int),
        ),
    decreases l,
{
    reveal_strlit("(");
    reveal_strlit(")");
    reveal_strlit(" & ");
    reveal_strlit(" | ");
    reveal_strlit("*");
    let rp = crate::render::label_repr(l);
    let n = rp.len() as int;
    assert forall|k: int| 0 <= k < n implies s[i + k] == rp[k] by {
        assert(s.subrange(i, i + n)[k] == s[i + k]);
    }
    match l {
        crate::ast::LabelV::Label(name) => {
            assert(rp == name);
            assert forall|k: int| i <= k < i + n implies crate::lexer::is_ident_char(
                #[trigger] s[k],
            ) by {
                assert(s[k] == rp[k - i]);
            }
            lemma_ident_end_bounded(s, i, i + n);
            assert(s.subrange(i, i + n) == name);
            assert(crate::lexer::lex_from(s, i) == crate::lexer::lex_cons(
                s,
                word_tok(name),
                i + n,
            ));
            lemma_lex_cons_unfold(s, word_tok(name), i + n);
            assert(word_tok(name) == TokV::Ident(name));
            assert(label_toks(l) =~= seq![word_tok(name)]);
        },
        crate::ast::LabelV::Star => {
            assert(rp[0] == '*');
            assert(s[i] == '*');
            assert(crate::lexer::lex_from(s, i) == crate::lexer::lex_cons(s, TokV::Star, i + 1));
            lemma_lex_cons_unfold(s, TokV::Star, i + 1);
            assert(label_toks(l) =~= seq![TokV::Star]);
        },
        crate::ast::LabelV::And(a, b) => {
            let ra = crate::render::label_repr(*a);
            let rb = crate::render::label_repr(*b);
            let na = ra.len() as int;
            let nb = rb.len() as int;
            let ta = label_toks(*a);
            let tb = label_toks(*b);
            assert(n == 1 + na + 3 + nb + 1);
            assert(rp[0] == '(');
            assert forall|k: int| 0 <= k < na implies rp[1 + k] == ra[k] by {}
            assert(rp[1 + na] == ' ' && rp[2 + na] == '&' && rp[3 + na] == ' ');
            assert forall|k: int| 0 <= k < nb implies rp[4 + na + k] == rb[k] by {}
            assert(rp[4 + na + nb] == ')');
            let pa = i + 1 + na;
            let pb = pa + 3 + nb;
            assert(s.subrange(i + 1, i + 1 + na) =~= ra);
            assert(s.subrange(pa + 3, pa + 3 + nb) =~= rb);
            assert(s[i] == '(');
            assert(s[pa] == ' ' && s[pa + 1] == '&' && s[pa + 2] == ' ');
            assert(s[pb] == ')');
            let o_end = crate::lexer::lex_from(s, i + n);
            assert(crate::lexer::lex_from(s, pb) == crate::lexer::lex_cons(
                s,
                TokV::RParen,
                pb + 1,
            ));
            lemma_lex_cons_unfold(s, TokV::RParen, pb + 1);
            assert(crate::lexer::lex_from(s, pb) == opt_cons(seq![TokV::RParen], o_end));
            lemma_lex_label_repr(s, pa + 3, *b);
            assert(crate::lexer::lex_from(s, pa + 3) == opt_cons(
                tb,
                opt_cons(seq![TokV::RParen], o_end),
            ));
            lemma_opt_cons_assoc(tb, seq![TokV::RParen], o_end);
            assert(crate::lexer::lex_from(s, pa + 2) == crate::lexer::lex_from(s, pa + 3));
            assert(crate::lexer::lex_from(s, pa + 1) == crate::lexer::lex_cons(
                s,
                TokV::Amp,
                pa + 2,
            ));
            lemma_lex_cons_unfold(s, TokV::Amp, pa + 2);
            assert(crate::lexer::lex_from(s, pa + 1) == opt_cons(
                seq![TokV::Amp],
                opt_cons(tb + seq![TokV::RParen], o_end),
            ));
            lemma_opt_cons_assoc(seq![TokV::Amp], tb + seq![TokV::RParen], o_end);
            assert(crate::lexer::lex_from(s, pa) == crate::lexer::lex_from(s, pa + 1));
            lemma_lex_label_repr(s, i + 1, *a);
            assert(crate::lexer::lex_from(s, i + 1) == opt_cons(
                ta,
                opt_cons(seq![TokV::Amp] + (tb + seq![TokV::RParen]), o_end),
            ));
            lemma_opt_cons_assoc(ta, seq![TokV::Amp] + (tb + seq![TokV::RParen]), o_end);
            assert(crate::lexer::lex_from(s, i) == crate::lexer::lex_cons(
                s,
                TokV::LParen,
                i + 1,
            ));
            lemma_lex_cons_unfold(s, TokV::LParen, i + 1);
            assert(crate::lexer::lex_from(s, i) == opt_cons(
                seq![TokV::LParen],
                opt_cons(ta + (seq![TokV::Amp] + (tb + seq![TokV::RParen])), o_end),
            ));
            lemma_opt_cons_assoc(
                seq![TokV::LParen],
                ta + (seq![TokV::Amp] + (tb + seq![TokV::RParen])),
                o_end,
            );
            assert(seq![TokV::LParen] + (ta + (seq![TokV::Amp] + (tb + seq![TokV::RParen])))
                =~= label_toks(l));
        },
        crate::ast::LabelV::Or(a, b) => {
            let ra = crate::render::label_repr(*a);
            let rb = crate::render::label_repr(*b);
            let na = ra.len() as int;
            let nb = rb.len() as int;
            let ta = label_toks(*a);
            let tb = label_toks(*b);
            assert(n == 1 + na + 3 + nb + 1);
            assert(rp[0] == '(');
            assert forall|k: int| 0 <= k < na implies rp[1 + k] == ra[k] by {}
            assert(rp[1 + na] == ' ' && rp[2 + na] == '|' && rp[3 + na] == ' ');
            assert forall|k: int| 0 <= k < nb implies rp[4 + na + k] == rb[k] by {}
            assert(rp[4 + na + nb] == ')');
            let pa = i + 1 + na;
            let pb = pa + 3 + nb;
            assert(s.subrange(i + 1, i + 1 + na) =~= ra);
            assert(s.subrange(pa + 3, pa + 3 + nb) =~= rb);
            assert(s[i] == '(');
            assert(s[pa] == ' ' && s[pa + 1] == '|' && s[pa + 2] == ' ');
            assert(s[pb] == ')');
            let o_end = crate::lexer::lex_from(s, i + n);
            assert(crate::lexer::lex_from(s, pb) == crate::lexer::lex_cons(
                s,
                TokV::RParen,
                pb + 1,
            ));
            lemma_lex_cons_unfold(s, TokV::RParen, pb + 1);
            assert(crate::lexer::lex_from(s, pb) == opt_cons(seq![TokV::RParen], o_end));
            lemma_lex_label_repr(s, pa + 3, *b);
            assert(crate::lexer::lex_from(s, pa + 3) == opt_cons(
                tb,
                opt_cons(seq![TokV::RParen], o_end),
            ));
            lemma_opt_cons_assoc(tb, seq![TokV::RParen], o_end);
            assert(crate::lexer::lex_from(s, pa + 2) == crate::lexer::lex_from(s, pa + 3));
            assert(crate::lexer::lex_from(s, pa + 1) == crate::lexer::lex_cons(
                s,
                TokV::Pipe,
                pa + 2,
            ));
            lemma_lex_cons_unfold(s, TokV::Pipe, pa + 2);
            assert(crate::lexer::lex_from(s, pa + 1) == opt_cons(
                seq![TokV::Pipe],
                opt_cons(tb + seq![TokV::RParen], o_end),
            ));
            lemma_opt_cons_assoc(seq![TokV::Pipe], tb + seq![TokV::RParen], o_end);
            assert(crate::lexer::lex_from(s, pa) == crate::lexer::lex_from(s, pa + 1));
            lemma_lex_label_repr(s, i + 1, *a);
            assert(crate::lexer::lex_from(s, i + 1) == opt_cons(
                ta,
                opt_cons(seq![TokV::Pipe] + (tb + seq![TokV::RParen]), o_end),
            ));
            lemma_opt_cons_assoc(ta, seq![TokV::Pipe] + (tb + seq![TokV::RParen]), o_end);
            assert(crate::lexer::lex_from(s, i) == crate::lexer::lex_cons(
                s,
                TokV::LParen,
                i + 1,
            ));
            lemma_lex_cons_unfold(s, TokV::LParen, i + 1);
            assert(crate::lexer::lex_from(s, i) == opt_cons(
                seq![TokV::LParen],
                opt_cons(ta + (seq![TokV::Pipe] + (tb + seq![TokV::RParen])), o_end),
            ));
            lemma_opt_cons_assoc(
                seq![TokV::LParen],
                ta + (seq![TokV::Pipe] + (tb + seq![TokV::RParen])),
                o_end,
            );
            assert(seq![TokV::LParen] + (ta + (seq![TokV::Pipe] + (tb + seq![TokV::RParen])))
                =~= label_toks(l));
        },
    }
}

/// Every identifier token in a lexed stream carries a non-keyword identifier.
pub open spec fn toks_ok(ts: Seq<TokV>) -> bool {
    forall|j: int|
        0 <= j < ts.len() ==> ((#[trigger] ts[j]) is Ident ==> ident_ok(ts[j]->Ident_0))
}

proof fn lemma_toks_ok_cons(t: TokV, rest: Seq<TokV>)
    requires
        t is Ident ==> ident_ok(t->Ident_0),
        toks_ok(rest),
    ensures
        toks_ok(seq![t] + rest),
{
    let ts = seq![t] + rest;
    assert forall|j: int| 0 <= j < ts.len() implies ((#[trigger] ts[j]) is Ident ==> ident_ok(
        ts[j]->Ident_0,
    )) by {
        if j > 0 {
            assert(ts[j] == rest[j - 1]);
        }
    }
}

/// What the lexer hands out is well-formed: every identifier token holds a
/// letter-led identifier that is not a keyword.
proof fn lemma_lex_toks_ok(s: Seq<char>, i: int)
    requires
        0 <= i,
    ensures
        crate::lexer::lex_from(s, i) matches Some(ts) ==> toks_ok(ts),
    decreases s.len() - i,
{
    if i >= s.len() {
    } else {
        let c = s[i];
        if crate::lexer::is_space(c) {
            lemma_lex_toks_ok(s, i + 1);
        } else if crate::lexer::is_letter(c) {
            let e = crate::lexer::ident_end(s, i);
            lemma_ident_run_chars(s, i);
            if i < e <= s.len() {
                let w = s.subrange(i, e);
                lemma_lex_toks_ok(s, e);
                lemma_lex_cons_unfold(s, word_tok(w), e);
                assert(w.len() > 0 && crate::lexer::is_letter(w[0]));
                assert forall|k: int| 0 <= k < w.len() implies crate::lexer::is_ident_char(
                    #[trigger] w[k],
                ) by {
                    assert(w[k] == s[i + k]);
                }
                if crate::lexer::lex_from(s, e) is Some {
                    lemma_toks_ok_cons(word_tok(w), crate::lexer::lex_from(s, e)->0);
                }
            }
        } else if crate::lexer::is_digit(c) {
            let e = crate::lexer::digits_end(s, i);
            let v = crate::lexer::digits_val(s.subrange(i, e));
            if v <= i64::MAX && i < e <= s.len() {
                lemma_lex_toks_ok(s, e);
                lemma_lex_cons_unfold(s, TokV::IntLit(v), e);
                if crate::lexer::lex_from(s, e) is Some {
                    lemma_toks_ok_cons(TokV::IntLit(v), crate::lexer::lex_from(s, e)->0);
                }
            }
        } else if c == '\'' || c == '"' {
            let j = crate::lexer::quote_end(s, i + 1, c);
            if i + 1 <= j < s.len() {
                lemma_lex_toks_ok(s, j + 1);
                lemma_lex_cons_unfold(s, TokV::StrLit(s.subrange(i + 1, j)), j + 1);
                if crate::lexer::lex_from(s, j + 1) is Some {
                    lemma_toks_ok_cons(
                        TokV::StrLit(s.subrange(i + 1, j)),
                        crate::lexer::lex_from(s, j + 1)->0,
                    );
                }
            }
        } else {
            // punctuation: one or two characters, and the token is never an
            // identifier
            let pair: Option<(TokV, int)> = if c == '{' && i + 1 < s.len() && s[i + 1] == '{' {
                Some((TokV::LLBrace, i + 2))
            } else if c == '}' && i + 1 < s.len() && s[i + 1] == '}' {
                Some((TokV::RRBrace, i + 2))
            } else if c == '<' && i + 1 < s.len() && s[i + 1] == '=' {
                Some((TokV::Le, i + 2))
            } else if c == '<' && i + 1 < s.len() && s[i + 1] == '>' {
                Some((TokV::Ne, i + 2))
            } else if c == '>' && i + 1 < s.len() && s[i + 1] == '=' {
                Some((TokV::Ge, i + 2))
            } else if c == '(' {
                Some((TokV::LParen, i + 1))
            } else if c == ')' {
                Some((TokV::RParen, i + 1))
            } else if c == '{' {
                Some((TokV::LBrace, i + 1))
            } else if c == '}' {
                Some((TokV::RBrace, i + 1))
            } else if c == ':' {
                Some((TokV::Colon, i + 1))
            } else if c == ',' {
                Some((TokV::Comma, i + 1))
            } else if c == '&' {
                Some((TokV::Amp, i + 1))
            } else if c == '|' {
                Some((TokV::Pipe, i + 1))
            } else if c == '+' {
                Some((TokV::Plus, i + 1))
            } else if c == '-' {
                Some((TokV::Minus, i + 1))
            } else if c == '*' {
                Some((TokV::Star, i + 1))
            } else if c == '/' {
                Some((TokV::Slash, i + 1))
            } else if c == '<' {
                Some((TokV::Lt, i + 1))
            } else if c == '>' {
                Some((TokV::Gt, i + 1))
            } else if c == '=' {
                Some((TokV::Eq, i + 1))
            } else if c == '.' {
                Some((TokV::Dot, i + 1))
            } else {
                None
            };
            if pair is Some {
                let (tok, e) = pair->0;
                assert(crate::lexer::lex_from(s, i) == crate::lexer::lex_cons(s, tok, e));
                assert(!(tok is Ident));
                if e <= s.len() {
                    lemma_lex_toks_ok(s, e);
                    lemma_lex_cons_unfold(s, tok, e);
                    if crate::lexer::lex_from(s, e) is Some {
                        lemma_toks_ok_cons(tok, crate::lexer::lex_from(s, e)->0);
                    }
                }
            }
        }
    }
}

proof fn lemma_label_atom_names(t: Seq<TokV>, i: int)
    requires
        toks_ok(t),
    ensures
        crate::grammar::p_label_atom(t, i) matches Some(r) ==> label_names_ok(r.0),
    decreases t.len() - i, 0int,
{
    if 0 <= i < t.len() && t[i] is LParen {
        lemma_label_names(t, i + 1);
    }
}

proof fn lemma_label_and_rest_names(t: Seq<TokV>, i: int, acc: crate::ast::LabelV)
    requires
        toks_ok(t),
        label_names_ok(acc),
    ensures
        crate::grammar::p_label_and_rest(t, i, acc) matches Some(r) ==> label_names_ok(r.0),
    decreases t.len() - i, 1int,
{
    if 0 <= i < t.len() && t[i] is Amp {
        lemma_label_atom_names(t, i + 1);
        if crate::grammar::p_label_atom(t, i + 1) is Some {
            let (x, j) = crate::grammar::p_label_atom(t, i + 1)->0;
            if i + 1 < j <= t.len() {
                lemma_label_and_rest_names(
                    t,
                    j,
                    crate::ast::LabelV::And(Box::new(acc), Box::new(x)),
                );
            }
        }
    }
}

proof fn lemma_label_and_names(t: Seq<TokV>, i: int)
    requires
        toks_ok(t),
    ensures
        crate::grammar::p_label_and(t, i) matches Some(r) ==> label_names_ok(r.0),
    decreases t.len() - i, 2int,
{
    lemma_label_atom_names(t, i);
    if crate::grammar::p_label_atom(t, i) is Some {
        let (x, j) = crate::grammar::p_label_atom(t, i)->0;
        if i < j <= t.len() {
            lemma_label_and_rest_names(t, j, x);
        }
    }
}

proof fn lemma_label_or_rest_names(t: Seq<TokV>, i: int, acc: crate::ast::LabelV)
    requires
        toks_ok(t),
        label_names_ok(acc),
    ensures
        crate::grammar::p_label_or_rest(t, i, acc) matches Some(r) ==> label_names_ok(r.0),
    decreases t.len() - i, 3int,
{
    if 0 <= i < t.len() && t[i] is Pipe {
        lemma_label_and_names(t, i + 1);
        if crate::grammar::p_label_and(t, i + 1) is Some {
            let (x, j) = crate::grammar::p_label_and(t, i + 1)->0;
            if i + 1 < j <= t.len() {
                lemma_label_or_rest_names(
                    t,
                    j,
                    crate::ast::LabelV::Or(Box::new(acc), Box::new(x)),
                );
            }
        }
    }
}

/// Every label the grammar parses out of a lexed token stream has non-keyword
/// identifiers as its names.
proof fn lemma_label_names(t: Seq<TokV>, i: int)
    requires
        toks_ok(t),
    ensures
        crate::grammar::p_label(t, i) matches Some(r) ==> label_names_ok(r.0),
    decreases t.len() - i, 4int,
{
    lemma_label_and_names(t, i);
    if crate::grammar::p_label_and(t, i) is Some {
        let (x, j) = crate::grammar::p_label_and(t, i)->0;
        if i < j <= t.len() {
            lemma_label_or_rest_names(t, j, x);
        }
    }
}

/// The canonical text of a label whose names are non-keyword identifiers
/// parses back to the same label: render-then-parse is the identity on
/// rendered labels.
pub proof fn lemma_label_roundtrip(l: crate::ast::LabelV)
    requires
        label_names_ok(l),
    ensures
        crate::grammar::label_parse_spec(crate::render::label_repr(l)) == Some(l),
{
    let s = crate::render::label_repr(l);
    let n = s.len() as int;
    assert(s.subrange(0, n) =~= s);
    lemma_lex_label_repr(s, 0, l);
    assert(crate::lexer::lex_from(s, n) == Some(Seq::<TokV>::empty()));
    assert(label_toks(l) + Seq::<TokV>::empty() =~= label_toks(l));
    assert(crate::lexer::spec_tokenize(s) == Some(label_toks(l)));
    lemma_label_token_roundtrip(l);
}

/// The token a simple type renders to.
pub open spec fn simple_tok(t: SimpleType) -> TokV {
    match t {
        SimpleType::Base(crate::ast::BaseType::Int) => TokV::KwInt,
        SimpleType::Base(crate::ast::BaseType::Bool) => TokV::KwBool,
        SimpleType::Base(crate::ast::BaseType::String) => TokV::KwStr,
        SimpleType::Star => TokV::Star,
    }
}

/// The canonical token form of the property entries from position `m` on:
/// `name : type` groups separated by commas, in the stored (sorted) order.
pub open spec fn fields_toks(s: Seq<(Seq<char>, SimpleType)>, m: int) -> Seq<TokV>
    decreases s.len() - m,
{
    if m < 0 || m >= s.len() {
        Seq::<TokV>::empty()
    } else {
        (if m > 0 {
            seq![TokV::Comma]
        } else {
            Seq::<TokV>::empty()
        }) + seq![TokV::Ident(s[m].0), TokV::Colon, simple_tok(s[m].1)] + fields_toks(s, m + 1)
    }
}

/// The canonical token form of a property-record type, as its record literal:
/// an empty record is `{ * }`-shaped when open and `{{ }}`-shaped when
/// closed; a non-empty open record ends with `, *`.
pub open spec fn prop_toks(p: PropV) -> Seq<TokV> {
    match p {
        PropV::Open(s) => {
            if s.len() == 0 {
                seq![TokV::LBrace, TokV::Star, TokV::RBrace]
            } else {
                seq![TokV::LBrace] + fields_toks(s, 0) + seq![
                    TokV::Comma,
                    TokV::Star,
                    TokV::RBrace,
                ]
            }
        },
        PropV::Closed(s) => {
            if s.len() == 0 {
                seq![TokV::LLBrace, TokV::RRBrace]
            } else {
                seq![TokV::LLBrace] + fields_toks(s, 0) + seq![TokV::RRBrace]
            }
        },
    }
}

/// Parsing the canonical field list of a sorted entry sequence, with the
/// first `m` entries already folded in, folds in exactly the remaining
/// entries: inserting keys in ascending order appends each at the end.
proof fn lemma_fields_parse(t: Seq<TokV>, i: int, s: Seq<(Seq<char>, SimpleType)>, m: int)
    requires
        entries_sorted(s),
        0 <= m < s.len(),
        0 <= i,
        i + 3 + fields_toks(s, m + 1).len() <= t.len(),
        t.subrange(i, i + 3 + fields_toks(s, m + 1).len() as int) == seq![
            TokV::Ident(s[m].0),
            TokV::Colon,
            simple_tok(s[m].1),
        ] + fields_toks(s, m + 1),
        ({
            let end = i + 3 + fields_toks(s, m + 1).len() as int;
            !(end + 1 < t.len() && t[end] is Comma && t[end + 1] is Ident)
        }),
    ensures
        crate::grammar::p_fields(t, i, s.take(m)) == Some(
            (s, i + 3 + fields_toks(s, m + 1).len() as int),
        ),
    decreases s.len() - m,
{
    let ft = seq![TokV::Ident(s[m].0), TokV::Colon, simple_tok(s[m].1)] + fields_toks(s, m + 1);
    let end = i + 3 + fields_toks(s, m + 1).len() as int;
    assert forall|k: int| 0 <= k < ft.len() implies t[i + k] == ft[k] by {
        assert(t.subrange(i, end)[k] == t[i + k]);
    }
    assert(t[i + 0] == ft[0] && ft[0] == TokV::Ident(s[m].0));
    assert(t[i + 1] == ft[1] && ft[1] == TokV::Colon);
    assert(t[i + 2] == ft[2] && ft[2] == simple_tok(s[m].1));
    assert(t[i] == TokV::Ident(s[m].0));
    assert(crate::grammar::p_simple(t, i + 2) == Some((s[m].1, i + 3)));
    assert forall|k: int| 0 <= k < m implies lex_lt((#[trigger] s.take(m)[k]).0, s[m].0) by {
        assert(s.take(m)[k] == s[k]);
    }
    assert forall|a: int, b: int| 0 <= a < b < s.take(m).len() implies lex_lt(
        (#[trigger] s.take(m)[a]).0,
        (#[trigger] s.take(m)[b]).0,
    ) by {
        assert(s.take(m)[a] == s[a] && s.take(m)[b] == s[b]);
    }
    crate::ast::lemma_entries_insert_append(s.take(m), s[m].0, s[m].1);
    assert(s.take(m) + seq![(s[m].0, s[m].1)] =~= s.take(m + 1));
    assert(crate::ast::entries_insert(s.take(m), s[m].0, s[m].1) == s.take(m + 1));
    if m + 1 < s.len() {
        let ft2 = seq![TokV::Ident(s[m + 1].0), TokV::Colon, simple_tok(s[m + 1].1)]
            + fields_toks(s, m + 2);
        assert(fields_toks(s, m + 1) == seq![TokV::Comma] + ft2);
        assert(ft[3] == TokV::Comma);
        assert(ft[4] == TokV::Ident(s[m + 1].0));
        assert(t[i + 3] == ft[3] && t[i + 4] == ft[4]);
        assert forall|k: int| 0 <= k < ft2.len() implies t.subrange(i + 4, end)[k] == ft2[k] by {
            assert(ft[4 + k] == ft2[k]);
            assert(t[i + (4 + k)] == ft[4 + k]);
            assert(t.subrange(i + 4, end)[k] == t[i + 4 + k]);
        }
        assert(t.subrange(i + 4, end) =~= ft2);
        lemma_fields_parse(t, i + 4, s, m + 1);
        assert(end == i + 4 + 3 + fields_toks(s, m + 2).len());
    } else {
        assert(fields_toks(s, m + 1).len() == 0);
        assert(end == i + 3);
        assert(s.take(m + 1) =~= s);
        // the lookahead finds no further field, so the fold stops here
    }
}

/// The canonical record literal of a well-formed property-record type parses
/// back to the same value and consumes the whole stream: at the grammar
/// level, canonicalization of records loses nothing, whether open or closed.
/// Wherever the canonical token form of a well-formed property-record type
/// stands in a token stream, the grammar parses exactly it back to that
/// value.
proof fn lemma_prop_token_at(t: Seq<TokV>, i: int, p: PropV)
    requires
        p.wf(),
        0 <= i,
        i + prop_toks(p).len() <= t.len(),
        t.subrange(i, i + prop_toks(p).len() as int) == prop_toks(p),
    ensures
        crate::grammar::p_prop(t, i) == Some((p, i + prop_toks(p).len() as int)),
{
    let pt = prop_toks(p);
    let n = pt.len() as int;
    assert forall|k: int| 0 <= k < n implies t[i + k] == pt[k] by {
        assert(t.subrange(i, i + n)[k] == t[i + k]);
    }
    match p {
        PropV::Open(s) => {
            if s.len() == 0 {
                assert(t[i + 0] == pt[0] && t[i + 1] == pt[1] && t[i + 2] == pt[2]);
                assert(t[i] == TokV::LBrace && t[i + 1] == TokV::Star && t[i + 2] == TokV::RBrace);
                assert(crate::grammar::p_prop(t, i) == Some((PropV::Open(Seq::empty()), i + 3)));
                assert(s =~= Seq::<(Seq<char>, SimpleType)>::empty());
            } else {
                let fl = fields_toks(s, 0).len() as int;
                assert(t[i + 0] == pt[0] && pt[0] == TokV::LBrace);
                assert forall|k: int| 0 <= k < fl implies t[i + 1 + k] == fields_toks(s, 0)[k] by {
                    assert(t[i + (1 + k)] == pt[1 + k]);
                }
                assert(t[i + (1 + fl)] == pt[1 + fl] && t[i + (2 + fl)] == pt[2 + fl] && t[i + (3
                    + fl)] == pt[3 + fl]);
                assert(t[i + 1 + fl] == TokV::Comma && t[i + 2 + fl] == TokV::Star && t[i + 3 + fl]
                    == TokV::RBrace);
                assert(fields_toks(s, 0) == seq![
                    TokV::Ident(s[0].0),
                    TokV::Colon,
                    simple_tok(s[0].1),
                ] + fields_toks(s, 1));
                assert(t.subrange(i + 1, i + 1 + fl) =~= fields_toks(s, 0));
                assert(s.take(0) =~= Seq::<(Seq<char>, SimpleType)>::empty());
                lemma_fields_parse(t, i + 1, s, 0);
                assert(crate::grammar::p_fields(
                    t,
                    i + 1,
                    Seq::<(Seq<char>, SimpleType)>::empty(),
                ) == Some((s, i + 1 + fl)));
                assert(fields_toks(s, 0)[0] == TokV::Ident(s[0].0));
                assert(t[i + 1 + 0] == fields_toks(s, 0)[0]);
                assert(t[i + 1] == TokV::Ident(s[0].0));
            }
        },
        PropV::Closed(s) => {
            if s.len() == 0 {
                assert(t[i + 0] == pt[0] && t[i + 1] == pt[1]);
                assert(t[i] == TokV::LLBrace && t[i + 1] == TokV::RRBrace);
                assert(crate::grammar::p_prop(t, i) == Some((PropV::Closed(Seq::empty()), i + 2)));
                assert(s =~= Seq::<(Seq<char>, SimpleType)>::empty());
            } else {
                let fl = fields_toks(s, 0).len() as int;
                assert(t[i + 0] == pt[0] && pt[0] == TokV::LLBrace);
                assert forall|k: int| 0 <= k < fl implies t[i + 1 + k] == fields_toks(s, 0)[k] by {
                    assert(t[i + (1 + k)] == pt[1 + k]);
                }
                assert(t[i + (1 + fl)] == pt[1 + fl]);
                assert(t[i + 1 + fl] == TokV::RRBrace);
                assert(fields_toks(s, 0) == seq![
                    TokV::Ident(s[0].0),
                    TokV::Colon,
                    simple_tok(s[0].1),
                ] + fields_toks(s, 1));
                assert(t.subrange(i + 1, i + 1 + fl) =~= fields_toks(s, 0));
                assert(s.take(0) =~= Seq::<(Seq<char>, SimpleType)>::empty());
                lemma_fields_parse(t, i + 1, s, 0);
                assert(crate::grammar::p_fields(
                    t,
                    i + 1,
                    Seq::<(Seq<char>, SimpleType)>::empty(),
                ) == Some((s, i + 1 + fl)));
                assert(fields_toks(s, 0)[0] == TokV::Ident(s[0].0));
                assert(t[i + 1 + 0] == fields_toks(s, 0)[0]);
                assert(t[i + 1] == TokV::Ident(s[0].0));
            }
        },
    }
}

/// The canonical record literal of a well-formed property-record type parses
/// back to the same value and consumes the whole stream: at the grammar
/// level, canonicalization of records loses nothing, whether open or closed.
pub proof fn lemma_prop_token_roundtrip(p: PropV)
    requires
        p.wf(),
    ensures
        crate::grammar::p_prop(prop_toks(p), 0) == Some((p, prop_toks(p).len() as int)),
{
    let t = prop_toks(p);
    assert(t.subrange(0, t.len() as int) =~= t);
    lemma_prop_token_at(t, 0, p);
}

/// Wherever the canonical text of a simple type stands in a larger text,
/// bounded on the right by a non-identifier character, the lexer turns
/// exactly it into the simple type's token.
proof fn lemma_lex_simple_repr(s: Seq<char>, i: int, t: SimpleType)
    requires
        0 <= i,
        i + simple_repr(t).len() <= s.len(),
        s.subrange(i, i + simple_repr(t).len() as int) == simple_repr(t),
        i + simple_repr(t).len() == s.len() || !crate::lexer::is_ident_char(
            s[i + simple_repr(t).len() as int],
        ),
    ensures
        crate::lexer::lex_from(s, i) == opt_cons(
            seq![simple_tok(t)],
            crate::lexer::lex_from(s, i + simple_repr(t).len() as int),
        ),
{
    reveal_strlit("true");
    reveal_strlit("false");
    reveal_strlit("and");
    reveal_strlit("or");
    reveal_strlit("not");
    reveal_strlit("is");
    reveal_strlit("as");
    reveal_strlit("int");
    reveal_strlit("bool");
    reveal_strlit("str");
    reveal_strlit("where");
    reveal_strlit("*");
    let rp = simple_repr(t);
    let n = rp.len() as int;
    assert forall|k: int| 0 <= k < n implies s[i + k] == rp[k] by {
        assert(s.subrange(i, i + n)[k] == s[i + k]);
    }
    if t is Star {
        assert(rp[0] == '*');
        assert(s[i] == '*');
        assert(crate::lexer::lex_from(s, i) == crate::lexer::lex_cons(s, TokV::Star, i + 1));
        lemma_lex_cons_unfold(s, TokV::Star, i + 1);
    } else {
        // a base type renders as one of the lower-case keywords int, bool, str
        match t {
            SimpleType::Base(crate::ast::BaseType::Int) => {
                assert(rp == "int"@);
                assert(rp.len() == 3 && rp[0] == 'i' && rp[1] == 'n' && rp[2] == 't');
                assert(lower(rp) =~= rp);
                assert(word_tok(rp) == TokV::KwInt);
            },
            SimpleType::Base(crate::ast::BaseType::Bool) => {
                assert(rp == "bool"@);
                assert(rp.len() == 4 && rp[0] == 'b' && rp[1] == 'o' && rp[2] == 'o' && rp[3]
                    == 'l');
                assert(lower(rp) =~= rp);
                assert(word_tok(rp) == TokV::KwBool);
            },
            SimpleType::Base(crate::ast::BaseType::String) => {
                assert(rp == "str"@);
                assert(rp.len() == 3 && rp[0] == 's' && rp[1] == 't' && rp[2] == 'r');
                assert(lower(rp) =~= rp);
                assert(word_tok(rp) == TokV::KwStr);
            },
            SimpleType::Star => {
            },
        }
        assert forall|k: int| i <= k < i + n implies crate::lexer::is_ident_char(
            #[trigger] s[k],
        ) by {
            assert(s[k] == rp[k - i]);
        }
        lemma_ident_end_bounded(s, i, i + n);
        assert(s.subrange(i, i + n) == rp);
        assert(word_tok(rp) == simple_tok(t));
        assert(crate::lexer::lex_from(s, i) == crate::lexer::lex_cons(s, word_tok(rp), i + n));
        lemma_lex_cons_unfold(s, word_tok(rp), i + n);
    }
}

/// Every key of a well-formed property map in canonical output is a
/// non-keyword identifier.
pub open spec fn keys_ok(s: Seq<(Seq<char>, SimpleType)>) -> bool {
    forall|j: int| 0 <= j < s.len() ==> ident_ok((#[trigger] s[j]).0)
}

/// Wherever the canonical text of the property entries from `m` on stands in
/// a larger text, bounded on the right by a non-identifier character, the
/// lexer turns exactly it into those entries' canonical tokens.
#[verifier::rlimit(100)]
#[verifier::spinoff_prover]
proof fn lemma_lex_fields_repr(s: Seq<char>, i: int, en: Seq<(Seq<char>, SimpleType)>, m: int)
    requires
        keys_ok(en),
        0 <= m < en.len(),
        0 <= i,
        i + crate::render::fields_from(en, m).len() <= s.len(),
        s.subrange(i, i + crate::render::fields_from(en, m).len() as int)
            == crate::render::fields_from(en, m),
        i + crate::render::fields_from(en, m).len() == s.len() || !crate::lexer::is_ident_char(
            s[i + crate::render::fields_from(en, m).len() as int],
        ),
    ensures
        crate::lexer::lex_from(s, i) == opt_cons(
            fields_toks(en, m),
            crate::lexer::lex_from(s, i + crate::render::fields_from(en, m).len() as int),
        ),
    decreases en.len() - m,
{
    reveal_strlit(": ");
    reveal_strlit(", ");
    let rp = crate::render::fields_from(en, m);
    let n = rp.len() as int;
    let key = en[m].0;
    let ty = en[m].1;
    let er = crate::render::entry_repr(en[m]);
    let tr = simple_repr(ty);
    let rest = crate::render::fields_from(en, m + 1);
    assert forall|k: int| 0 <= k < n implies s[i + k] == rp[k] by {
        assert(s.subrange(i, i + n)[k] == s[i + k]);
    }
    // the position where the entry's own text begins (after a separator when
    // this is not the first entry), and the positions of its pieces
    let base = if m == 0 {
        i
    } else {
        i + 2
    };
    let keyed = base + key.len() as int;
    let typed = keyed + 2 + tr.len() as int;
    if m == 0 {
        assert(rp == er + rest);
        assert forall|k: int| 0 <= k < er.len() implies rp[k] == er[k] by {}
    } else {
        assert(rp == ", "@ + er + rest);
        assert(rp[0] == ',' && rp[1] == ' ');
        assert(s[i] == ',' && s[i + 1] == ' ');
        assert forall|k: int| 0 <= k < er.len() implies rp[2 + k] == er[k] by {}
    }
    assert forall|k: int| 0 <= k < key.len() implies s[base + k] == key[k] by {
        assert(er[k] == key[k]);
    }
    assert(er[key.len() as int] == ':' && er[key.len() as int + 1] == ' ');
    assert(s[keyed] == ':' && s[keyed + 1] == ' ');
    assert forall|k: int| 0 <= k < tr.len() implies s[keyed + 2 + k] == tr[k] by {
        assert(er[key.len() as int + 2 + k] == tr[k]);
    }
    assert(s.subrange(base, keyed) =~= key);
    assert(s.subrange(keyed + 2, typed) =~= tr);
    // the character after the entry's type is a comma, the closing brace, or
    // whatever bounds the whole list: never an identifier character
    if m + 1 < en.len() {
        assert(rest.len() > 0);
        assert(rest[0] == ',');
        if m == 0 {
            assert(rp[er.len() as int] == rest[0]);
            assert(typed == i + er.len());
            assert(s[i + er.len() as int] == rp[er.len() as int]);
        } else {
            assert(rp[2 + er.len() as int] == rest[0]);
            assert(typed == i + 2 + er.len());
            assert(s[i + (2 + er.len() as int)] == rp[2 + er.len() as int]);
        }
        assert(s[typed] == ',');
    }
    let o_after = crate::lexer::lex_from(s, typed);
    lemma_lex_simple_repr(s, keyed + 2, ty);
    assert(crate::lexer::lex_from(s, keyed + 2) == opt_cons(seq![simple_tok(ty)], o_after));
    assert(crate::lexer::lex_from(s, keyed + 1) == crate::lexer::lex_from(s, keyed + 2));
    assert(crate::lexer::lex_from(s, keyed) == crate::lexer::lex_cons(s, TokV::Colon, keyed + 1));
    lemma_lex_cons_unfold(s, TokV::Colon, keyed + 1);
    assert(crate::lexer::lex_from(s, keyed) == opt_cons(
        seq![TokV::Colon],
        opt_cons(seq![simple_tok(ty)], o_after),
    ));
    // the key itself
    assert forall|k: int| base <= k < keyed implies crate::lexer::is_ident_char(
        #[trigger] s[k],
    ) by {
        assert(s[k] == key[k - base]);
    }
    lemma_ident_end_bounded(s, base, keyed);
    assert(crate::lexer::lex_from(s, base) == crate::lexer::lex_cons(s, word_tok(key), keyed));
    lemma_lex_cons_unfold(s, word_tok(key), keyed);
    assert(word_tok(key) == TokV::Ident(key));
    lemma_opt_cons_assoc(seq![TokV::Colon], seq![simple_tok(ty)], o_after);
    lemma_opt_cons_assoc(seq![TokV::Ident(key)], seq![TokV::Colon] + seq![simple_tok(ty)], o_after);
    assert(crate::lexer::lex_from(s, base) == opt_cons(
        seq![TokV::Ident(key)] + (seq![TokV::Colon] + seq![simple_tok(ty)]),
        o_after,
    ));
    let head = seq![TokV::Ident(key), TokV::Colon, simple_tok(ty)];
    assert(seq![TokV::Ident(key)] + (seq![TokV::Colon] + seq![simple_tok(ty)]) =~= head);
    // the rest of the list
    if m + 1 < en.len() {
        assert(s.subrange(typed, i + n) =~= rest) by {
            assert forall|k: int| 0 <= k < rest.len() implies s.subrange(typed, i + n)[k]
                == rest[k] by {
                if m == 0 {
                    assert(rp[er.len() + k] == rest[k]);
                    assert(s[i + (er.len() + k)] == rp[er.len() + k]);
                } else {
                    assert(rp[2 + er.len() + k] == rest[k]);
                    assert(s[i + (2 + er.len() + k)] == rp[2 + er.len() + k]);
                }
            }
        }
        lemma_lex_fields_repr(s, typed, en, m + 1);
        assert(o_after == opt_cons(fields_toks(en, m + 1), crate::lexer::lex_from(s, i + n)));
        lemma_opt_cons_assoc(
            head,
            fields_toks(en, m + 1),
            crate::lexer::lex_from(s, i + n),
        );
        assert(crate::lexer::lex_from(s, base) == opt_cons(
            head + fields_toks(en, m + 1),
            crate::lexer::lex_from(s, i + n),
        ));
    } else {
        assert(rest.len() == 0);
        assert(typed == i + n);
        assert(fields_toks(en, m + 1).len() == 0);
        assert(head + fields_toks(en, m + 1) =~= head);
    }
    if m == 0 {
        assert(fields_toks(en, m) =~= head + fields_toks(en, m + 1));
    } else {
        // the separating comma
        assert(crate::lexer::lex_from(s, i + 1) == crate::lexer::lex_from(s, i + 2));
        assert(crate::lexer::lex_from(s, i) == crate::lexer::lex_cons(s, TokV::Comma, i + 1));
        lemma_lex_cons_unfold(s, TokV::Comma, i + 1);
        lemma_opt_cons_assoc(
            seq![TokV::Comma],
            head + fields_toks(en, m + 1),
            crate::lexer::lex_from(s, i + n),
        );
        assert(fields_toks(en, m) =~= seq![TokV::Comma] + (head + fields_toks(en, m + 1)));
    }
}

/// Where the canonical text of an open record whose keys are non-keyword
/// identifiers ends a text, the lexer turns it into exactly its canonical
/// tokens.
#[verifier::rlimit(100)]
#[verifier::spinoff_prover]
proof fn lemma_lex_prop_open_at(s: Seq<char>, i: int, sq: Seq<(Seq<char>, SimpleType)>)
    requires
        keys_ok(sq),
        0 <= i <= s.len(),
        s.subrange(i, s.len() as int) == prop_repr(PropV::Open(sq)),
    ensures
        crate::lexer::lex_from(s, i) == Some(prop_toks(PropV::Open(sq))),
{
    reveal_strlit("{*}");
    reveal_strlit("{");
    reveal_strlit(", *}");
    let rp = prop_repr(PropV::Open(sq));
    let n = rp.len() as int;
    assert(i + n == s.len());
    assert forall|k: int| 0 <= k < n implies s[i + k] == rp[k] by {
        assert(s.subrange(i, i + n)[k] == s[i + k]);
    }
    assert(crate::lexer::lex_from(s, i + n) == Some(Seq::<TokV>::empty()));
    let o_end = crate::lexer::lex_from(s, i + n);
    if sq.len() == 0 {
        assert(rp.len() == 3 && rp[0] == '{' && rp[1] == '*' && rp[2] == '}');
        assert(s[i + 0] == '{' && s[i + 1] == '*' && s[i + 2] == '}');
        assert(crate::lexer::lex_from(s, i + 2) == crate::lexer::lex_cons(s, TokV::RBrace, i + 3));
        lemma_lex_cons_unfold(s, TokV::RBrace, i + 3);
        assert(crate::lexer::lex_from(s, i + 1) == crate::lexer::lex_cons(s, TokV::Star, i + 2));
        lemma_lex_cons_unfold(s, TokV::Star, i + 2);
        assert(crate::lexer::lex_from(s, i) == crate::lexer::lex_cons(s, TokV::LBrace, i + 1));
        lemma_lex_cons_unfold(s, TokV::LBrace, i + 1);
        lemma_opt_cons_assoc(seq![TokV::Star], seq![TokV::RBrace], o_end);
        lemma_opt_cons_assoc(seq![TokV::LBrace], seq![TokV::Star] + seq![TokV::RBrace], o_end);
        assert((seq![TokV::LBrace] + (seq![TokV::Star] + seq![TokV::RBrace])) + Seq::<
            TokV,
        >::empty() =~= prop_toks(PropV::Open(sq)));
    } else {
        let fr = crate::render::fields_from(sq, 0);
        let nf = fr.len() as int;
        let er = crate::render::entry_repr(sq[0]);
        assert(rp == "{"@ + fr + ", *}"@);
        assert(fr == er + crate::render::fields_from(sq, 1));
        assert(sq[0].0.len() > 0);
        assert(er.len() > 0 && er[0] == sq[0].0[0]);
        assert(n == nf + 5);
        assert forall|k: int| 0 <= k < nf implies s[i + 1 + k] == fr[k] by {
            assert(s[i + (1 + k)] == rp[1 + k]);
        }
        assert(s[i + 0] == rp[0] && rp[0] == '{');
        assert(fr[0] == er[0]);
        assert(s[i + 1] == rp[1] && rp[1] == sq[0].0[0]);
        assert(crate::lexer::is_letter(s[i + 1]));
        assert(s[i + (1 + nf)] == rp[1 + nf] && s[i + (2 + nf)] == rp[2 + nf] && s[i + (3 + nf)]
            == rp[3 + nf] && s[i + (4 + nf)] == rp[4 + nf]);
        assert(s[i + 1 + nf] == ',' && s[i + 2 + nf] == ' ' && s[i + 3 + nf] == '*' && s[i + 4
            + nf] == '}');
        // close of the record
        assert(crate::lexer::lex_from(s, i + nf + 4) == crate::lexer::lex_cons(
            s,
            TokV::RBrace,
            i + nf + 5,
        ));
        lemma_lex_cons_unfold(s, TokV::RBrace, i + nf + 5);
        assert(crate::lexer::lex_from(s, i + nf + 3) == crate::lexer::lex_cons(
            s,
            TokV::Star,
            i + nf + 4,
        ));
        lemma_lex_cons_unfold(s, TokV::Star, i + nf + 4);
        assert(crate::lexer::lex_from(s, i + nf + 2) == crate::lexer::lex_from(s, i + nf + 3));
        assert(crate::lexer::lex_from(s, i + nf + 1) == crate::lexer::lex_cons(
            s,
            TokV::Comma,
            i + nf + 2,
        ));
        lemma_lex_cons_unfold(s, TokV::Comma, i + nf + 2);
        // the field list
        assert(s.subrange(i + 1, i + 1 + nf) =~= fr);
        lemma_lex_fields_repr(s, i + 1, sq, 0);
        // the opening brace: the next character is a letter, so this is a
        // single `{`
        assert(crate::lexer::lex_from(s, i) == crate::lexer::lex_cons(s, TokV::LBrace, i + 1));
        lemma_lex_cons_unfold(s, TokV::LBrace, i + 1);
        lemma_opt_cons_assoc(seq![TokV::Star], seq![TokV::RBrace], o_end);
        lemma_opt_cons_assoc(seq![TokV::Comma], seq![TokV::Star] + seq![TokV::RBrace], o_end);
        lemma_opt_cons_assoc(
            fields_toks(sq, 0),
            seq![TokV::Comma] + (seq![TokV::Star] + seq![TokV::RBrace]),
            o_end,
        );
        lemma_opt_cons_assoc(
            seq![TokV::LBrace],
            fields_toks(sq, 0) + (seq![TokV::Comma] + (seq![TokV::Star] + seq![TokV::RBrace])),
            o_end,
        );
        assert((seq![TokV::LBrace] + (fields_toks(sq, 0) + (seq![TokV::Comma] + (seq![TokV::Star]
            + seq![TokV::RBrace])))) + Seq::<TokV>::empty() =~= prop_toks(PropV::Open(sq)));
    }
}

/// The canonical text of an open record whose keys are non-keyword
/// identifiers lexes to exactly its canonical tokens.
proof fn lemma_tokenize_prop_open(sq: Seq<(Seq<char>, SimpleType)>)
    requires
        keys_ok(sq),
    ensures
        crate::lexer::spec_tokenize(prop_repr(PropV::Open(sq))) == Some(prop_toks(PropV::Open(sq))),
{
    let s = prop_repr(PropV::Open(sq));
    assert(s.subrange(0, s.len() as int) =~= s);
    lemma_lex_prop_open_at(s, 0, sq);
}

/// The entry sequences the field parser builds stay sorted, with every key a
/// non-keyword identifier taken from an identifier token.
proof fn lemma_fields_wf(t: Seq<TokV>, i: int, acc: Seq<(Seq<char>, SimpleType)>)
    requires
        toks_ok(t),
        entries_sorted(acc),
        keys_ok(acc),
    ensures
        crate::grammar::p_fields(t, i, acc) matches Some(r) ==> entries_sorted(r.0) && keys_ok(
            r.0,
        ),
    decreases t.len() - i,
{
    if 0 <= i < t.len() && t[i] is Ident && i + 1 < t.len() && t[i + 1] is Colon {
        if crate::grammar::p_simple(t, i + 2) is Some {
            let name = t[i]->Ident_0;
            let (v, j) = crate::grammar::p_simple(t, i + 2)->0;
            let acc2 = crate::ast::entries_insert(acc, name, v);
            crate::ast::lemma_entries_insert_sorted(acc, name, v);
            crate::ast::lemma_entries_insert_keys(acc, name, v);
            assert(ident_ok(name));
            assert forall|m: int| 0 <= m < acc2.len() implies ident_ok(
                (#[trigger] acc2[m]).0,
            ) by {
                if acc2[m].0 != name {
                    assert(acc.contains(acc2[m]));
                    let q = choose|q: int| 0 <= q < acc.len() && acc[q] == acc2[m];
                    assert(ident_ok(acc[q].0));
                }
            }
            if j + 1 < t.len() && t[j] is Comma && t[j + 1] is Ident && j + 1 > i {
                lemma_fields_wf(t, j + 1, acc2);
            }
        }
    }
}

/// Every property-record type the grammar parses out of a lexed token stream
/// is well-formed, with non-keyword identifiers as keys.
proof fn lemma_prop_wf(t: Seq<TokV>, i: int)
    requires
        toks_ok(t),
    ensures
        crate::grammar::p_prop(t, i) matches Some(r) ==> entries_sorted(r.0.entries()) && keys_ok(
            r.0.entries(),
        ),
{
    let e: Seq<(Seq<char>, SimpleType)> = Seq::empty();
    assert(entries_sorted(e) && keys_ok(e));
    lemma_fields_wf(t, i + 1, e);
}

/// Idempotent canonicalization for the property-record entry point, for open
/// records: whatever text parses to an open record, rendering that record and
/// parsing the result yields the record again. (A non-empty closed record is
/// excluded: its canonical form is an open-record literal, so it re-parses as
/// the open record with the same fields.)
pub proof fn lemma_prop_canonical_fixed_point(s: Seq<char>)
    ensures
        crate::grammar::prop_parse_spec(s) matches Some(p) ==> (p is Open
            ==> crate::grammar::prop_parse_spec(prop_repr(p)) == Some(p)),
{
    if crate::grammar::prop_parse_spec(s) is Some {
        let p = crate::grammar::prop_parse_spec(s)->0;
        if p is Open {
            let toks = crate::lexer::spec_tokenize(s)->0;
            lemma_lex_toks_ok(s, 0);
            lemma_prop_wf(toks, 0);
            lemma_tokenize_prop_open(p.entries());
            assert(prop_repr(p) == prop_repr(PropV::Open(p.entries())));
            lemma_prop_token_roundtrip(p);
        }
    }
}

/// The canonical token form of a descriptor type: its label's tokens, then
/// its property record's tokens (the rendered form always writes both).
pub open spec fn dtype_toks(d: DescTypeV) -> Seq<TokV> {
    label_toks(d.label) + prop_toks(d.properties)
}

/// The canonical token form of a well-formed descriptor type parses back to
/// the same value and consumes the whole stream.
pub proof fn lemma_dtype_token_roundtrip(d: DescTypeV)
    requires
        d.properties.wf(),
    ensures
        crate::grammar::p_dtype(dtype_toks(d), 0) == Some((d, dtype_toks(d).len() as int)),
{
    let t = dtype_toks(d);
    let lt = label_toks(d.label);
    let pt = prop_toks(d.properties);
    let nl = lt.len() as int;
    let n = t.len() as int;
    lemma_label_toks_len(d.label);
    assert forall|k: int| 0 <= k < nl implies t[k] == lt[k] by {}
    assert forall|k: int| 0 <= k < pt.len() implies t[nl + k] == pt[k] by {}
    // the label's first token selects the label branch of the production
    match d.label {
        crate::ast::LabelV::Label(name) => {
            assert(lt[0] == TokV::Ident(name));
        },
        crate::ast::LabelV::Star => {
            assert(lt[0] == TokV::Star);
        },
        crate::ast::LabelV::And(_, _) => {
            assert(lt[0] == TokV::LParen);
        },
        crate::ast::LabelV::Or(_, _) => {
            assert(lt[0] == TokV::LParen);
        },
    }
    assert(t[0] == lt[0]);
    assert(t[0] is Ident || t[0] is Star || t[0] is LParen);
    // the label parses as one atom and the record's opening brace stops the
    // label's operator chains
    assert(t.subrange(0, nl) =~= lt);
    lemma_label_atom_roundtrip(t, 0, d.label);
    match d.properties {
        PropV::Open(sq) => {
            if sq.len() == 0 {
                assert(pt[0] == TokV::LBrace);
            } else {
                assert(pt[0] == TokV::LBrace);
            }
        },
        PropV::Closed(sq) => {
            if sq.len() == 0 {
                assert(pt[0] == TokV::LLBrace);
            } else {
                assert(pt[0] == TokV::LLBrace);
            }
        },
    }
    assert(t[nl + 0] == pt[0]);
    assert(t[nl] is LBrace || t[nl] is LLBrace);
    assert(crate::grammar::p_label_and_rest(t, nl, d.label) == Some((d.label, nl)));
    assert(crate::grammar::p_label_and(t, 0) == Some((d.label, nl)));
    assert(crate::grammar::p_label_or_rest(t, nl, d.label) == Some((d.label, nl)));
    assert(crate::grammar::p_label(t, 0) == Some((d.label, nl)));
    // the record parses right after the label
    assert(t.subrange(nl, nl + pt.len() as int) =~= pt);
    lemma_prop_token_at(t, nl, d.properties);
    assert(crate::grammar::p_dtype_props(t, nl, d.label) == Some((d, n)));
}

/// Every descriptor type the grammar parses out of a lexed token stream has
/// non-keyword identifiers as its label names and property keys, and a
/// well-formed property map.
proof fn lemma_dtype_wf(t: Seq<TokV>, i: int)
    requires
        toks_ok(t),
    ensures
        crate::grammar::p_dtype(t, i) matches Some(r) ==> label_names_ok(r.0.label)
            && entries_sorted(r.0.properties.entries()) && keys_ok(r.0.properties.entries()),
{
    let e: Seq<(Seq<char>, SimpleType)> = Seq::empty();
    assert(entries_sorted(e) && keys_ok(e));
    if 0 <= i < t.len() && (t[i] is Ident || t[i] is Star || t[i] is LParen) {
        lemma_label_names(t, i);
        if crate::grammar::p_label(t, i) is Some {
            let (l, j) = crate::grammar::p_label(t, i)->0;
            if i <= j <= t.len() {
                lemma_prop_wf(t, j);
            }
        }
    } else {
        lemma_prop_wf(t, i);
    }
}

/// Idempotent canonicalization for the descriptor-type entry point, for open
/// records: whatever text parses to a descriptor type with an open property
/// record, rendering it and parsing the result yields the same value. (As
/// with the property entry point, a non-empty closed record is excluded:
/// its canonical form is an open-record literal.)
pub proof fn lemma_dtype_canonical_fixed_point(s: Seq<char>)
    ensures
        crate::grammar::dtype_parse_spec(s) matches Some(d) ==> (d.properties is Open
            ==> crate::grammar::dtype_parse_spec(crate::render::dtype_repr(d)) == Some(d)),
{
    reveal_strlit(" ");
    if crate::grammar::dtype_parse_spec(s) is Some {
        let d = crate::grammar::dtype_parse_spec(s)->0;
        if d.properties is Open {
            let toks = crate::lexer::spec_tokenize(s)->0;
            lemma_lex_toks_ok(s, 0);
            lemma_dtype_wf(toks, 0);
            let sq = d.properties.entries();
            assert(d.properties == PropV::Open(sq));
            // the rendered text: the label, one space, the record
            let rt = crate::render::dtype_repr(d);
            let lr = crate::render::label_repr(d.label);
            let nl = lr.len() as int;
            let pr = prop_repr(d.properties);
            assert(rt == lr + " "@ + pr);
            assert forall|k: int| 0 <= k < nl implies rt[k] == lr[k] by {}
            assert(rt[nl] == ' ');
            assert forall|k: int| 0 <= k < pr.len() implies rt[nl + 1 + k] == pr[k] by {
                assert(rt[nl + (1 + k)] == (lr + " "@ + pr)[nl + 1 + k]);
            }
            assert(rt.subrange(0, nl) =~= lr);
            assert(!crate::lexer::is_ident_char(rt[nl]));
            lemma_lex_label_repr(rt, 0, d.label);
            assert(crate::lexer::lex_from(rt, nl) == crate::lexer::lex_from(rt, nl + 1));
            assert(rt.subrange(nl + 1, rt.len() as int) =~= pr);
            lemma_lex_prop_open_at(rt, nl + 1, sq);
            assert(crate::lexer::lex_from(rt, 0) == Some(
                label_toks(d.label) + prop_toks(d.properties),
            ));
            assert(crate::lexer::spec_tokenize(rt) == Some(dtype_toks(d)));
            lemma_dtype_token_roundtrip(d);
        }
    }
}

/// Idempotent canonicalization for the label entry point: whatever text
/// parses to a label, rendering that label and parsing the result yields the
/// label again, so a second render changes nothing.
pub proof fn lemma_label_canonical_fixed_point(s: Seq<char>)
    ensures
        crate::grammar::label_parse_spec(s) matches Some(l)
            ==> crate::grammar::label_parse_spec(crate::render::label_repr(l)) == Some(l),
{
    if crate::grammar::label_parse_spec(s) is Some {
        let l = crate::grammar::label_parse_spec(s)->0;
        let toks = crate::lexer::spec_tokenize(s)->0;
        lemma_lex_toks_ok(s, 0);
        lemma_label_names(toks, 0);
        lemma_label_roundtrip(l);
    }
}

/// Chained-comparison associativity: a comparison chain over three variables
/// parses left-associatively, whatever the variable names: `a > b > c` is
/// `(a > b) > c`.
pub proof fn lemma_chained_comparison_left_assoc(a: Seq<char>, b: Seq<char>, c: Seq<char>)
    ensures
        crate::grammar::p_expr(
            seq![TokV::Ident(a), TokV::Gt, TokV::Ident(b), TokV::Gt, TokV::Ident(c)],
            0,
        ) == Some(
            (
                crate::ast::ExprV::Binop(
                    crate::ast::BinOpKind::Gt,
                    Box::new(
                        crate::ast::ExprV::Binop(
                            crate::ast::BinOpKind::Gt,
                            Box::new(crate::ast::ExprV::Variable(a)),
                            Box::new(crate::ast::ExprV::Variable(b)),
                        ),
                    ),
                    Box::new(crate::ast::ExprV::Variable(c)),
                ),
                5int,
            ),
        ),
{
    let t = seq![TokV::Ident(a), TokV::Gt, TokV::Ident(b), TokV::Gt, TokV::Ident(c)];
    let va = crate::ast::ExprV::Variable(a);
    let vb = crate::ast::ExprV::Variable(b);
    let vc = crate::ast::ExprV::Variable(c);
    let ab = crate::ast::ExprV::Binop(crate::ast::BinOpKind::Gt, Box::new(va), Box::new(vb));
    let abc = crate::ast::ExprV::Binop(crate::ast::BinOpKind::Gt, Box::new(ab), Box::new(vc));
    assert(crate::grammar::p_atom(t, 0) == Some((va, 1int)));
    assert(crate::grammar::p_atom(t, 2) == Some((vb, 3int)));
    assert(crate::grammar::p_atom(t, 4) == Some((vc, 5int)));
    assert(crate::grammar::p_unary(t, 0) == Some((va, 1int)));
    assert(crate::grammar::p_unary(t, 2) == Some((vb, 3int)));
    assert(crate::grammar::p_unary(t, 4) == Some((vc, 5int)));
    assert(crate::grammar::p_mul_rest(t, 1, va) == Some((va, 1int)));
    assert(crate::grammar::p_mul_rest(t, 3, vb) == Some((vb, 3int)));
    assert(crate::grammar::p_mul_rest(t, 5, vc) == Some((vc, 5int)));
    assert(crate::grammar::p_mul(t, 0) == Some((va, 1int)));
    assert(crate::grammar::p_mul(t, 2) == Some((vb, 3int)));
    assert(crate::grammar::p_mul(t, 4) == Some((vc, 5int)));
    assert(crate::grammar::p_add_rest(t, 1, va) == Some((va, 1int)));
    assert(crate::grammar::p_add_rest(t, 3, vb) == Some((vb, 3int)));
    assert(crate::grammar::p_add_rest(t, 5, vc) == Some((vc, 5int)));
    assert(crate::grammar::p_add(t, 0) == Some((va, 1int)));
    assert(crate::grammar::p_add(t, 2) == Some((vb, 3int)));
    assert(crate::grammar::p_add(t, 4) == Some((vc, 5int)));
    assert(crate::grammar::p_isas_rest(t, 1, va) == Some((va, 1int)));
    assert(crate::grammar::p_isas_rest(t, 3, vb) == Some((vb, 3int)));
    assert(crate::grammar::p_isas_rest(t, 5, vc) == Some((vc, 5int)));
    assert(crate::grammar::p_isas(t, 0) == Some((va, 1int)));
    assert(crate::grammar::p_isas(t, 2) == Some((vb, 3int)));
    assert(crate::grammar::p_isas(t, 4) == Some((vc, 5int)));
    assert(crate::grammar::p_cmp_rest(t, 5, abc) == Some((abc, 5int)));
    assert(crate::grammar::p_cmp_rest(t, 3, ab) == Some((abc, 5int)));
    assert(crate::grammar::p_cmp_rest(t, 1, va) == Some((abc, 5int)));
    assert(crate::grammar::p_cmp(t, 0) == Some((abc, 5int)));
    assert(crate::grammar::p_not(t, 0) == Some((abc, 5int)));
    assert(crate::grammar::p_and_rest(t, 5, abc) == Some((abc, 5int)));
    assert(crate::grammar::p_and(t, 0) == Some((abc, 5int)));
    assert(crate::grammar::p_or_rest(t, 5, abc) == Some((abc, 5int)));
    assert(crate::grammar::p_or(t, 0) == Some((abc, 5int)));
}

/// Precedence of the arithmetic operators: multiplication binds tighter than
/// addition, whatever the operands: `x + y * z` is `x + (y * z)`.
pub proof fn lemma_mul_binds_tighter_than_add(x: int, y: int, z: int)
    ensures
        crate::grammar::p_expr(
            seq![TokV::IntLit(x), TokV::Plus, TokV::IntLit(y), TokV::Star, TokV::IntLit(z)],
            0,
        ) == Some(
            (
                crate::ast::ExprV::Binop(
                    crate::ast::BinOpKind::Add,
                    Box::new(crate::ast::ExprV::Constant(crate::ast::ConstantV::Int(x))),
                    Box::new(
                        crate::ast::ExprV::Binop(
                            crate::ast::BinOpKind::Mul,
                            Box::new(crate::ast::ExprV::Constant(crate::ast::ConstantV::Int(y))),
                            Box::new(crate::ast::ExprV::Constant(crate::ast::ConstantV::Int(z))),
                        ),
                    ),
                ),
                5int,
            ),
        ),
{
    let t = seq![TokV::IntLit(x), TokV::Plus, TokV::IntLit(y), TokV::Star, TokV::IntLit(z)];
    let cx = crate::ast::ExprV::Constant(crate::ast::ConstantV::Int(x));
    let cy = crate::ast::ExprV::Constant(crate::ast::ConstantV::Int(y));
    let cz = crate::ast::ExprV::Constant(crate::ast::ConstantV::Int(z));
    let yz = crate::ast::ExprV::Binop(crate::ast::BinOpKind::Mul, Box::new(cy), Box::new(cz));
    let xyz = crate::ast::ExprV::Binop(crate::ast::BinOpKind::Add, Box::new(cx), Box::new(yz));
    assert(crate::grammar::p_atom(t, 0) == Some((cx, 1int)));
    assert(crate::grammar::p_atom(t, 2) == Some((cy, 3int)));
    assert(crate::grammar::p_atom(t, 4) == Some((cz, 5int)));
    assert(crate::grammar::p_unary(t, 0) == Some((cx, 1int)));
    assert(crate::grammar::p_unary(t, 2) == Some((cy, 3int)));
    assert(crate::grammar::p_unary(t, 4) == Some((cz, 5int)));
    assert(crate::grammar::p_mul_rest(t, 5, yz) == Some((yz, 5int)));
    assert(crate::grammar::p_mul_rest(t, 3, cy) == Some((yz, 5int)));
    assert(crate::grammar::p_mul_rest(t, 1, cx) == Some((cx, 1int)));
    assert(crate::grammar::p_mul(t, 0) == Some((cx, 1int)));
    assert(crate::grammar::p_mul(t, 2) == Some((yz, 5int)));
    assert(crate::grammar::p_add_rest(t, 5, xyz) == Some((xyz, 5int)));
    assert(crate::grammar::p_add_rest(t, 1, cx) == Some((xyz, 5int)));
    assert(crate::grammar::p_add(t, 0) == Some((xyz, 5int)));
    assert(crate::grammar::p_isas_rest(t, 5, xyz) == Some((xyz, 5int)));
    assert(crate::grammar::p_isas(t, 0) == Some((xyz, 5int)));
    assert(crate::grammar::p_cmp_rest(t, 5, xyz) == Some((xyz, 5int)));
    assert(crate::grammar::p_cmp(t, 0) == Some((xyz, 5int)));
    assert(crate::grammar::p_not(t, 0) == Some((xyz, 5int)));
    assert(crate::grammar::p_and_rest(t, 5, xyz) == Some((xyz, 5int)));
    assert(crate::grammar::p_and(t, 0) == Some((xyz, 5int)));
    assert(crate::grammar::p_or_rest(t, 5, xyz) == Some((xyz, 5int)));
    assert(crate::grammar::p_or(t, 0) == Some((xyz, 5int)));
}

/// Precedence in the label algebra: `&` binds tighter than `|`, whatever the
/// label names: `A & B | C` is `Or(And(A, B), C)`.
pub proof fn lemma_label_and_binds_tighter_than_or(a: Seq<char>, b: Seq<char>, c: Seq<char>)
    ensures
        crate::grammar::p_label(
            seq![TokV::Ident(a), TokV::Amp, TokV::Ident(b), TokV::Pipe, TokV::Ident(c)],
            0,
        ) == Some(
            (
                crate::ast::LabelV::Or(
                    Box::new(
                        crate::ast::LabelV::And(
                            Box::new(crate::ast::LabelV::Label(a)),
                            Box::new(crate::ast::LabelV::Label(b)),
                        ),
                    ),
                    Box::new(crate::ast::LabelV::Label(c)),
                ),
                5int,
            ),
        ),
{
    let t = seq![TokV::Ident(a), TokV::Amp, TokV::Ident(b), TokV::Pipe, TokV::Ident(c)];
    let la = crate::ast::LabelV::Label(a);
    let lb = crate::ast::LabelV::Label(b);
    let lc = crate::ast::LabelV::Label(c);
    let ab = crate::ast::LabelV::And(Box::new(la), Box::new(lb));
    let abc = crate::ast::LabelV::Or(Box::new(ab), Box::new(lc));
    assert(crate::grammar::p_label_atom(t, 0) == Some((la, 1int)));
    assert(crate::grammar::p_label_atom(t, 2) == Some((lb, 3int)));
    assert(crate::grammar::p_label_atom(t, 4) == Some((lc, 5int)));
    assert(crate::grammar::p_label_and_rest(t, 3, ab) == Some((ab, 3int)));
    assert(crate::grammar::p_label_and_rest(t, 1, la) == Some((ab, 3int)));
    assert(crate::grammar::p_label_and(t, 0) == Some((ab, 3int)));
    assert(crate::grammar::p_label_and_rest(t, 5, lc) == Some((lc, 5int)));
    assert(crate::grammar::p_label_and(t, 4) == Some((lc, 5int)));
    assert(crate::grammar::p_label_or_rest(t, 5, abc) == Some((abc, 5int)));
    assert(crate::grammar::p_label_or_rest(t, 3, ab) == Some((abc, 5int)));
    assert(crate::grammar::p_label(t, 0) == Some((abc, 5int)));
}

} // verus!

