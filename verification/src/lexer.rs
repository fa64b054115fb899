//! Lexical layer: turns source text into a token stream. Identifiers are
//! letter-led alphanumeric/underscore runs, integer literals are unsigned
//! decimal runs, string literals are single- or double-quoted with no escapes,
//! and keywords are recognized case-insensitively. `{{` and `}}` lex as single
//! closed-record delimiters. Whitespace only separates tokens.
use vstd::prelude::*;
use vstd::string::StrSliceExecFns;

verus! {

/// A lexical token.
#[derive(Debug, PartialEq, Eq)]
pub enum Token {
    Ident(String),
    IntLit(i64),
    StrLit(String),
    KwTrue,
    KwFalse,
    KwAnd,
    KwOr,
    KwNot,
    KwIs,
    KwAs,
    KwInt,
    KwBool,
    KwStr,
    KwWhere,
    LParen,
    RParen,
    LBrace,
    RBrace,
    LLBrace,
    RRBrace,
    Colon,
    Comma,
    Amp,
    Pipe,
    Plus,
    Minus,
    Star,
    Slash,
    Lt,
    Gt,
    Le,
    Ge,
    Eq,
    Ne,
    Dot,
}

/// Mathematical model of a token.
pub enum TokV {
    Ident(Seq<char>),
    IntLit(int),
    StrLit(Seq<char>),
    KwTrue,
    KwFalse,
    KwAnd,
    KwOr,
    KwNot,
    KwIs,
    KwAs,
    KwInt,
    KwBool,
    KwStr,
    KwWhere,
    LParen,
    RParen,
    LBrace,
    RBrace,
    LLBrace,
    RRBrace,
    Colon,
    Comma,
    Amp,
    Pipe,
    Plus,
    Minus,
    Star,
    Slash,
    Lt,
    Gt,
    Le,
    Ge,
    Eq,
    Ne,
    Dot,
}

impl View for Token {
    type V = TokV;

    open spec fn view(&self) -> TokV {
        match self {
            Token::Ident(s) => TokV::Ident(s@),
            Token::IntLit(i) => TokV::IntLit(*i as int),
            Token::StrLit(s) => TokV::StrLit(s@),
            Token::KwTrue => TokV::KwTrue,
            Token::KwFalse => TokV::KwFalse,
            Token::KwAnd => TokV::KwAnd,
            Token::KwOr => TokV::KwOr,
            Token::KwNot => TokV::KwNot,
            Token::KwIs => TokV::KwIs,
            Token::KwAs => TokV::KwAs,
            Token::KwInt => TokV::KwInt,
            Token::KwBool => TokV::KwBool,
            Token::KwStr => TokV::KwStr,
            Token::KwWhere => TokV::KwWhere,
            Token::LParen => TokV::LParen,
            Token::RParen => TokV::RParen,
            Token::LBrace => TokV::LBrace,
            Token::RBrace => TokV::RBrace,
            Token::LLBrace => TokV::LLBrace,
            Token::RRBrace => TokV::RRBrace,
            Token::Colon => TokV::Colon,
            Token::Comma => TokV::Comma,
            Token::Amp => TokV::Amp,
            Token::Pipe => TokV::Pipe,
            Token::Plus => TokV::Plus,
            Token::Minus => TokV::Minus,
            Token::Star => TokV::Star,
            Token::Slash => TokV::Slash,
            Token::Lt => TokV::Lt,
            Token::Gt => TokV::Gt,
            Token::Le => TokV::Le,
            Token::Ge => TokV::Ge,
            Token::Eq => TokV::Eq,
            Token::Ne => TokV::Ne,
            Token::Dot => TokV::Dot,
        }
    }
}

impl DeepView for Token {
    type V = TokV;

    open spec fn deep_view(&self) -> TokV {
        self@
    }
}

/// Whitespace separating tokens.
pub open spec fn is_space(c: char) -> bool {
    c == ' ' || c == '\t' || c == '\n' || c == '\r'
}

/// An ASCII letter, which may start an identifier.
pub open spec fn is_letter(c: char) -> bool {
    (('a' as int) <= (c as int) <= ('z' as int)) || (('A' as int) <= (c as int) <= ('Z' as int))
}

/// A decimal digit.
pub open spec fn is_digit(c: char) -> bool {
    ('0' as int) <= (c as int) <= ('9' as int)
}

/// A character that may continue an identifier.
pub open spec fn is_ident_char(c: char) -> bool {
    is_letter(c) || is_digit(c) || c == '_'
}

/// The numeric value of a digit character.
pub open spec fn digit_val(c: char) -> int {
    (c as int) - ('0' as int)
}

/// The character with an upper-case ASCII letter folded to lower case.
pub open spec fn lower_char(c: char) -> char {
    if ('A' as int) <= (c as int) <= ('Z' as int) {
        (((c as u8) + 32) as char)
    } else {
        c
    }
}

/// The sequence with every upper-case ASCII letter folded to lower case.
pub open spec fn lower(s: Seq<char>) -> Seq<char> {
    s.map_values(|c: char| lower_char(c))
}

/// The first position at or after `i` that cannot continue an identifier.
pub open spec fn ident_end(s: Seq<char>, i: int) -> int
    decreases s.len() - i,
{
    if 0 <= i < s.len() && is_ident_char(s[i]) {
        ident_end(s, i + 1)
    } else {
        i
    }
}

/// The first position at or after `i` that is not a digit.
pub open spec fn digits_end(s: Seq<char>, i: int) -> int
    decreases s.len() - i,
{
    if 0 <= i < s.len() && is_digit(s[i]) {
        digits_end(s, i + 1)
    } else {
        i
    }
}

/// The value of a digit run, most significant digit first.
pub open spec fn digits_val(s: Seq<char>) -> int
    decreases s.len(),
{
    if s.len() == 0 {
        0
    } else {
        digits_val(s.drop_last()) * 10 + digit_val(s.last())
    }
}

/// The position of the first `q` at or after `i`, or -1 if there is none.
pub open spec fn quote_end(s: Seq<char>, i: int, q: char) -> int
    decreases s.len() - i,
{
    if i < 0 || i >= s.len() {
        -1
    } else if s[i] == q {
        i
    } else {
        quote_end(s, i + 1, q)
    }
}

/// The token a word stands for: a keyword when its case-folded form is one,
/// an identifier (with its original case) otherwise.
pub open spec fn word_tok(w: Seq<char>) -> TokV {
    if lower(w) == "true"@ {
        TokV::KwTrue
    } else if lower(w) == "false"@ {
        TokV::KwFalse
    } else if lower(w) == "and"@ {
        TokV::KwAnd
    } else if lower(w) == "or"@ {
        TokV::KwOr
    } else if lower(w) == "not"@ {
        TokV::KwNot
    } else if lower(w) == "is"@ {
        TokV::KwIs
    } else if lower(w) == "as"@ {
        TokV::KwAs
    } else if lower(w) == "int"@ {
        TokV::KwInt
    } else if lower(w) == "bool"@ {
        TokV::KwBool
    } else if lower(w) == "str"@ {
        TokV::KwStr
    } else if lower(w) == "where"@ {
        TokV::KwWhere
    } else {
        TokV::Ident(w)
    }
}

/// Whether the case-folded form of a word is a keyword.
pub open spec fn is_keyword(w: Seq<char>) -> bool {
    !(word_tok(w) is Ident)
}

/// The token stream of the text from position `i` on: `None` when the text
/// does not lex (an unexpected character, an unterminated string literal, or
/// an integer literal above `i64::MAX`).
pub open spec fn lex_from(s: Seq<char>, i: int) -> Option<Seq<TokV>>
    decreases s.len() - i, 0int,
{
    if i < 0 || i >= s.len() {
        Some(Seq::<TokV>::empty())
    } else {
        let c = s[i];
        if is_space(c) {
            lex_from(s, i + 1)
        } else if is_letter(c) {
            let e = ident_end(s, i);
            if i < e <= s.len() {
                lex_cons(s, word_tok(s.subrange(i, e)), e)
            } else {
                None
            }
        } else if is_digit(c) {
            let e = digits_end(s, i);
            let v = digits_val(s.subrange(i, e));
            if v > i64::MAX {
                None
            } else if i < e <= s.len() {
                lex_cons(s, TokV::IntLit(v), e)
            } else {
                None
            }
        } else if c == '\'' || c == '"' {
            let j = quote_end(s, i + 1, c);
            if i + 1 <= j < s.len() {
                lex_cons(s, TokV::StrLit(s.subrange(i + 1, j)), j + 1)
            } else {
                None
            }
        } else if c == '{' && i + 1 < s.len() && s[i + 1] == '{' {
            lex_cons(s, TokV::LLBrace, i + 2)
        } else if c == '}' && i + 1 < s.len() && s[i + 1] == '}' {
            lex_cons(s, TokV::RRBrace, i + 2)
        } else if c == '<' && i + 1 < s.len() && s[i + 1] == '=' {
            lex_cons(s, TokV::Le, i + 2)
        } else if c == '<' && i + 1 < s.len() && s[i + 1] == '>' {
            lex_cons(s, TokV::Ne, i + 2)
        } else if c == '>' && i + 1 < s.len() && s[i + 1] == '=' {
            lex_cons(s, TokV::Ge, i + 2)
        } else if c == '(' {
            lex_cons(s, TokV::LParen, i + 1)
        } else if c == ')' {
            lex_cons(s, TokV::RParen, i + 1)
        } else if c == '{' {
            lex_cons(s, TokV::LBrace, i + 1)
        } else if c == '}' {
            lex_cons(s, TokV::RBrace, i + 1)
        } else if c == ':' {
            lex_cons(s, TokV::Colon, i + 1)
        } else if c == ',' {
            lex_cons(s, TokV::Comma, i + 1)
        } else if c == '&' {
            lex_cons(s, TokV::Amp, i + 1)
        } else if c == '|' {
            lex_cons(s, TokV::Pipe, i + 1)
        } else if c == '+' {
            lex_cons(s, TokV::Plus, i + 1)
        } else if c == '-' {
            lex_cons(s, TokV::Minus, i + 1)
        } else if c == '*' {
            lex_cons(s, TokV::Star, i + 1)
        } else if c == '/' {
            lex_cons(s, TokV::Slash, i + 1)
        } else if c == '<' {
            lex_cons(s, TokV::Lt, i + 1)
        } else if c == '>' {
            lex_cons(s, TokV::Gt, i + 1)
        } else if c == '=' {
            lex_cons(s, TokV::Eq, i + 1)
        } else if c == '.' {
            lex_cons(s, TokV::Dot, i + 1)
        } else {
            None
        }
    }
}

/// One token at the front of whatever the rest of the text lexes to.
pub open spec fn lex_cons(s: Seq<char>, t: TokV, e: int) -> Option<Seq<TokV>>
    decreases s.len() - e, 1int,
{
    if e <= s.len() {
        match lex_from(s, e) {
            Some(rest) => Some(seq![t] + rest),
            None => None,
        }
    } else {
        None
    }
}

/// The token stream of a whole text.
pub open spec fn spec_tokenize(s: Seq<char>) -> Option<Seq<TokV>> {
    lex_from(s, 0)
}

fn is_space_x(c: char) -> (r: bool)
    ensures
        r == is_space(c),
{
    c == ' ' || c == '\t' || c == '\n' || c == '\r'
}

fn is_letter_x(c: char) -> (r: bool)
    ensures
        r == is_letter(c),
{
    let u = c as u32;
    (97 <= u && u <= 122) || (65 <= u && u <= 90)
}

fn is_digit_x(c: char) -> (r: bool)
    ensures
        r == is_digit(c),
{
    let u = c as u32;
    48 <= u && u <= 57
}

fn is_ident_char_x(c: char) -> (r: bool)
    ensures
        r == is_ident_char(c),
{
    is_letter_x(c) || is_digit_x(c) || c == '_'
}

fn lower_char_x(c: char) -> (r: char)
    ensures
        r == lower_char(c),
{
    let u = c as u32;
    if 65 <= u && u <= 90 {
        ((c as u8) + 32) as char
    } else {
        c
    }
}

/// Whether the case-folded characters of `w` equal the characters of `kw`.
fn eq_lower(w: &str, kw: &str) -> (r: bool)
    ensures
        r == (lower(w@) == kw@),
{
    let wlen = w.unicode_len();
    let klen = kw.unicode_len();
    if wlen != klen {
        proof {
            assert(lower(w@).len() == w@.len());
        }
        return false;
    }
    let mut i: usize = 0;
    loop
        invariant
            i <= wlen,
            wlen == w@.len(),
            wlen == kw@.len(),
            forall|k: int| 0 <= k < i ==> lower_char(w@[k]) == kw@[k],
        decreases wlen - i,
    {
        if i == wlen {
            proof {
                assert(lower(w@) =~= kw@);
            }
            return true;
        }
        let cw = lower_char_x(w.get_char(i));
        let ck = kw.get_char(i);
        if cw != ck {
            proof {
                assert(lower(w@)[i as int] == lower_char(w@[i as int]));
            }
            return false;
        }
        i = i + 1;
    }
}

/// The token a word stands for.
fn word_token(w: &str) -> (t: Token)
    ensures
        t@ == word_tok(w@),
{
    if eq_lower(w, "true") {
        Token::KwTrue
    } else if eq_lower(w, "false") {
        Token::KwFalse
    } else if eq_lower(w, "and") {
        Token::KwAnd
    } else if eq_lower(w, "or") {
        Token::KwOr
    } else if eq_lower(w, "not") {
        Token::KwNot
    } else if eq_lower(w, "is") {
        Token::KwIs
    } else if eq_lower(w, "as") {
        Token::KwAs
    } else if eq_lower(w, "int") {
        Token::KwInt
    } else if eq_lower(w, "bool") {
        Token::KwBool
    } else if eq_lower(w, "str") {
        Token::KwStr
    } else if eq_lower(w, "where") {
        Token::KwWhere
    } else {
        Token::Ident(w.to_owned())
    }
}

/// Scans to the end of an identifier that starts at `i`.
fn scan_ident_end(s: &str, i: usize) -> (e: usize)
    requires
        i < s@.len(),
        is_ident_char(s@[i as int]),
    ensures
        e == ident_end(s@, i as int),
        i < e <= s@.len(),
{
    let len = s.unicode_len();
    let mut j: usize = i + 1;
    loop
        invariant
            i < j <= len,
            len == s@.len(),
            ident_end(s@, i as int) == ident_end(s@, j as int),
        decreases len - j,
    {
        if j == len {
            return j;
        }
        if !is_ident_char_x(s.get_char(j)) {
            return j;
        }
        j = j + 1;
    }
}

/// Scans to the end of a digit run that starts at `i`.
fn scan_digits_end(s: &str, i: usize) -> (e: usize)
    requires
        i < s@.len(),
        is_digit(s@[i as int]),
    ensures
        e == digits_end(s@, i as int),
        i < e <= s@.len(),
        forall|k: int| i <= k < e ==> is_digit(s@[k]),
{
    let len = s.unicode_len();
    let mut j: usize = i + 1;
    loop
        invariant
            i < j <= len,
            len == s@.len(),
            digits_end(s@, i as int) == digits_end(s@, j as int),
            forall|k: int| i <= k < j ==> is_digit(s@[k]),
        decreases len - j,
    {
        if j == len {
            return j;
        }
        if !is_digit_x(s.get_char(j)) {
            return j;
        }
        j = j + 1;
    }
}

/// Finds the closing quote `q` at or after `i`.
fn scan_quote(s: &str, i: usize, q: char) -> (r: Option<usize>)
    requires
        i <= s@.len(),
    ensures
        match r {
            Some(j) => i <= j < s@.len() && j == quote_end(s@, i as int, q),
            None => quote_end(s@, i as int, q) == -1,
        },
{
    let len = s.unicode_len();
    let mut j: usize = i;
    loop
        invariant
            i <= j <= len,
            len == s@.len(),
            quote_end(s@, i as int, q) == quote_end(s@, j as int, q),
        decreases len - j,
    {
        if j == len {
            return None;
        }
        if s.get_char(j) == q {
            return Some(j);
        }
        j = j + 1;
    }
}

/// A digit run's value is non-negative and at least the value of each of its
/// prefixes.
proof fn lemma_digits_prefix(w: Seq<char>, m: int)
    requires
        0 <= m <= w.len(),
        forall|k: int| 0 <= k < w.len() ==> is_digit(#[trigger] w[k]),
    ensures
        0 <= digits_val(w.take(m)),
        digits_val(w.take(m)) <= digits_val(w),
    decreases w.len(),
{
    if m == w.len() {
        assert(w.take(m) =~= w);
        if w.len() > 0 {
            lemma_digits_prefix(w.drop_last(), w.len() - 1);
            assert(w.drop_last().take(w.len() - 1) =~= w.drop_last());
        }
    } else {
        let wd = w.drop_last();
        lemma_digits_prefix(wd, m);
        assert(wd.take(m) =~= w.take(m));
        lemma_digits_prefix(wd, wd.len() as int);
        assert(wd.take(wd.len() as int) =~= wd);
        assert(is_digit(w.last()));
        assert(digits_val(w) == digits_val(wd) * 10 + digit_val(w.last()));
        assert(digits_val(wd) <= digits_val(wd) * 10) by {
            assert(0 <= digits_val(wd));
        }
    }
}

/// The value of the digit run `[i, e)`, or `None` when it exceeds `i64::MAX`.
fn digits_to_val(s: &str, i: usize, e: usize) -> (r: Option<i64>)
    requires
        i < e <= s@.len(),
        forall|k: int| i <= k < e ==> is_digit(s@[k]),
    ensures
        match r {
            Some(v) => 0 <= v && v as int == digits_val(s@.subrange(i as int, e as int)),
            None => digits_val(s@.subrange(i as int, e as int)) > i64::MAX,
        },
{
    let ghost w = s@.subrange(i as int, e as int);
    let mut val: u64 = 0;
    let mut k: usize = i;
    proof {
        assert(w.take(0) =~= Seq::<char>::empty());
    }
    loop
        invariant
            i <= k <= e,
            e <= s@.len(),
            w == s@.subrange(i as int, e as int),
            forall|m: int| i <= m < e ==> is_digit(s@[m]),
            val <= i64::MAX as u64,
            val as int == digits_val(w.take(k - i)),
        decreases e - k,
    {
        if k == e {
            proof {
                assert(w.take(k - i) =~= w);
            }
            return Some(val as i64);
        }
        let c = s.get_char(k);
        proof {
            assert(w[k - i] == s@[k as int]);
        }
        let d: u64 = ((c as u32) - 48) as u64;
        proof {
            assert(d as int == digit_val(w[k - i]));
            assert(w.take(k - i + 1).drop_last() =~= w.take(k - i));
            assert(w.take(k - i + 1).last() == w[k - i]);
            assert(digits_val(w.take(k - i + 1)) == digits_val(w.take(k - i)) * 10 + digit_val(
                w[k - i],
            ));
            assert(forall|m: int| 0 <= m < w.len() ==> is_digit(#[trigger] w[m]));
        }
        let next: u64 = match val.checked_mul(10) {
            Some(m) => {
                match m.checked_add(d) {
                    Some(n) => n,
                    None => {
                        proof {
                            lemma_digits_prefix(w, k - i + 1);
                        }
                        return None;
                    },
                }
            },
            None => {
                proof {
                    lemma_digits_prefix(w, k - i + 1);
                }
                return None;
            },
        };
        if next > i64::MAX as u64 {
            proof {
                lemma_digits_prefix(w, k - i + 1);
            }
            return None;
        }
        val = next;
        k = k + 1;
    }
}

/// Turns source text into its token stream, or reports the first lexical
/// error: an unexpected character, an unterminated string literal, or an
/// integer literal above `i64::MAX`.
pub fn tokenize(s: &str) -> (r: Result<Vec<Token>, crate::ParseError>)
    ensures
        match r {
            Ok(toks) => spec_tokenize(s@) == Some(toks.deep_view()),
            Err(_) => spec_tokenize(s@) is None,
        },
{
    let len = s.unicode_len();
    let mut toks: Vec<Token> = Vec::new();
    let mut i: usize = 0;
    proof {
        assert(toks.deep_view() =~= Seq::<TokV>::empty());
    }
    loop
        invariant
            i <= len,
            len == s@.len(),
            lex_from(s@, 0) == (match lex_from(s@, i as int) {
                Some(rest) => Some(toks.deep_view() + rest),
                None => None::<Seq<TokV>>,
            }),
        decreases len - i,
    {
        let ghost old_toks = toks.deep_view();
        if i == len {
            proof {
                assert(lex_from(s@, i as int) == Some(Seq::<TokV>::empty()));
                assert(old_toks + Seq::<TokV>::empty() =~= old_toks);
            }
            return Ok(toks);
        }
        let c = s.get_char(i);
        let tok: Token;
        let next: usize;
        if is_space_x(c) {
            proof {
                assert(lex_from(s@, i as int) == lex_from(s@, i + 1));
            }
            i = i + 1;
            continue ;
        } else if is_letter_x(c) {
            let e = scan_ident_end(s, i);
            let w = s.substring_char(i, e);
            tok = word_token(w);
            proof {
                assert(lex_from(s@, i as int) == lex_cons(
                    s@,
                    word_tok(s@.subrange(i as int, e as int)),
                    e as int,
                ));
            }
            next = e;
        } else if is_digit_x(c) {
            let e = scan_digits_end(s, i);
            match digits_to_val(s, i, e) {
                Some(v) => {
                    tok = Token::IntLit(v);
                    proof {
                        assert(lex_from(s@, i as int) == lex_cons(
                            s@,
                            TokV::IntLit(v as int),
                            e as int,
                        ));
                    }
                    next = e;
                },
                None => {
                    proof {
                        assert(lex_from(s@, i as int) is None);
                    }
                    return Err(crate::err_at(i, "integer literal out of range"));
                },
            }
        } else if c == '\'' || c == '"' {
            match scan_quote(s, i + 1, c) {
                Some(j) => {
                    let content = s.substring_char(i + 1, j);
                    tok = Token::StrLit(content.to_owned());
                    proof {
                        assert(lex_from(s@, i as int) == lex_cons(
                            s@,
                            TokV::StrLit(s@.subrange(i + 1, j as int)),
                            j + 1,
                        ));
                    }
                    next = j + 1;
                },
                None => {
                    proof {
                        assert(lex_from(s@, i as int) is None);
                    }
                    return Err(crate::err_at(i, "unterminated string literal"));
                },
            }
        } else if c == '{' {
            if i + 1 < len && s.get_char(i + 1) == '{' {
                tok = Token::LLBrace;
                next = i + 2;
            } else {
                tok = Token::LBrace;
                next = i + 1;
            }
        } else if c == '}' {
            if i + 1 < len && s.get_char(i + 1) == '}' {
                tok = Token::RRBrace;
                next = i + 2;
            } else {
                tok = Token::RBrace;
                next = i + 1;
            }
        } else if c == '<' {
            if i + 1 < len && s.get_char(i + 1) == '=' {
                tok = Token::Le;
                next = i + 2;
            } else if i + 1 < len && s.get_char(i + 1) == '>' {
                tok = Token::Ne;
                next = i + 2;
            } else {
                tok = Token::Lt;
                next = i + 1;
            }
        } else if c == '>' {
            if i + 1 < len && s.get_char(i + 1) == '=' {
                tok = Token::Ge;
                next = i + 2;
            } else {
                tok = Token::Gt;
                next = i + 1;
            }
        } else if c == '(' {
            tok = Token::LParen;
            next = i + 1;
        } else if c == ')' {
            tok = Token::RParen;
            next = i + 1;
        } else if c == ':' {
            tok = Token::Colon;
            next = i + 1;
        } else if c == ',' {
            tok = Token::Comma;
            next = i + 1;
        } else if c == '&' {
            tok = Token::Amp;
            next = i + 1;
        } else if c == '|' {
            tok = Token::Pipe;
            next = i + 1;
        } else if c == '+' {
            tok = Token::Plus;
            next = i + 1;
        } else if c == '-' {
            tok = Token::Minus;
            next = i + 1;
        } else if c == '*' {
            tok = Token::Star;
            next = i + 1;
        } else if c == '/' {
            tok = Token::Slash;
            next = i + 1;
        } else if c == '=' {
            tok = Token::Eq;
            next = i + 1;
        } else if c == '.' {
            tok = Token::Dot;
            next = i + 1;
        } else {
            proof {
                assert(lex_from(s@, i as int) is None);
            }
            return Err(crate::err_at(i, "unexpected character"));
        }
        let ghost tv = tok@;
        proof {
            assert(lex_from(s@, i as int) == lex_cons(s@, tv, next as int));
            assert(lex_from(s@, next as int) matches Some(rest) ==> (old_toks + (seq![tv] + rest)
                =~= (old_toks + seq![tv]) + rest));
        }
        toks.push(tok);
        proof {
            assert(toks.deep_view() =~= old_toks + seq![tv]);
        }
        i = next;
    }
}

} // verus!
