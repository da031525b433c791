//! Token classification: converts one raw source line into an ordered
//! sequence of classified tokens.
//!
//! A line is split on whitespace runs into parts, and each part is
//! classified independently, in this precedence order: comment marker
//! prefix, quote-delimited string literal, all-digit number literal,
//! member of the symbol set, member of the keyword set, member of the
//! operator set, and otherwise identifier. Splitting on whitespace is a
//! deliberate simplification: a string literal containing spaces is split
//! into several parts, each classified on its own.

use vstd::prelude::*;
use crate::line::SourceLine;

verus! {

/// The kind of a classified lexical unit. `Unknown` is reserved for a
/// future validity check and is never produced by the classification
/// order implemented here.
#[derive(Clone, Copy, PartialEq, Eq, Structural, Debug)]
pub enum TokenType {
    Keyword,
    Identifier,
    Operator,
    LiteralString,
    LiteralNumber,
    Symbol,
    Comment,
    Unknown,
}

/// Mathematical model of a [`Token`].
pub ghost struct TokenModel {
    pub kind: TokenType,
    pub text: Seq<char>,
    pub line: nat,
}

/// A classified lexical unit: its kind, its raw text, and the 0-based
/// number of the source line it came from. Immutable once created.
#[derive(Debug)]
pub struct Token {
    pub kind: TokenType,
    pub text: String,
    pub line: usize,
}

impl View for Token {
    type V = TokenModel;

    open spec fn view(&self) -> TokenModel {
        TokenModel { kind: self.kind, text: self.text@, line: self.line as nat }
    }
}

/// The models of a sequence of tokens, in order.
pub open spec fn token_models(s: Seq<Token>) -> Seq<TokenModel> {
    s.map_values(|t: Token| t@)
}

/// Mathematical model of a [`TokenLine`].
pub ghost struct TokenLineModel {
    pub tokens: Seq<TokenModel>,
    pub number: nat,
}

/// The ordered tokens produced from exactly one source line, tagged with
/// that line's 0-based position.
#[derive(Debug)]
pub struct TokenLine {
    pub tokens: Vec<Token>,
    pub number: usize,
}

impl View for TokenLine {
    type V = TokenLineModel;

    open spec fn view(&self) -> TokenLineModel {
        TokenLineModel { tokens: token_models(self.tokens@), number: self.number as nat }
    }
}

/// Whitespace for the purpose of splitting a line into parts.
pub open spec fn is_space(c: char) -> bool {
    c == ' ' || c == '\t' || c == '\r' || c == '\n'
}

/// A decimal digit.
pub open spec fn is_digit(c: char) -> bool {
    ('0' as u32) <= (c as u32) && (c as u32) <= ('9' as u32)
}

/// The length of the leading whitespace-free run of `t`.
pub open spec fn run_len(t: Seq<char>) -> nat
    decreases t.len(),
{
    if t.len() == 0 || is_space(t[0]) {
        0
    } else {
        (1 + run_len(t.drop_first())) as nat
    }
}

/// The maximal whitespace-free runs of `t`, in order: the parts a line is
/// split into before classification.
pub open spec fn parts_of(t: Seq<char>) -> Seq<Seq<char>>
    decreases t.len(),
{
    if t.len() == 0 {
        Seq::empty()
    } else if is_space(t[0]) {
        parts_of(t.drop_first())
    } else {
        proof {
            lemma_run_len_bound(t);
        }
        seq![t.take(run_len(t) as int)] + parts_of(t.skip(run_len(t) as int))
    }
}

/// Exact match against the symbol set.
pub open spec fn is_symbol_text(p: Seq<char>) -> bool {
    p.len() == 1 && (p[0] == '{' || p[0] == '}' || p[0] == '(' || p[0] == ')' || p[0] == ':'
        || p[0] == ';' || p[0] == '=')
}

/// Exact match against the keyword set.
pub open spec fn is_keyword_text(p: Seq<char>) -> bool {
    ||| p == seq!['f', 'n']
    ||| p == seq!['l', 'e', 't']
    ||| p == seq!['i', 'f']
    ||| p == seq!['e', 'l', 's', 'e']
    ||| p == seq!['f', 'o', 'r']
    ||| p == seq!['r', 'e', 't', 'u', 'r', 'n']
    ||| p == seq!['c', 'o', 'n', 't', 'i', 'n', 'u', 'e']
}

/// Exact match against the operator set.
pub open spec fn is_operator_text(p: Seq<char>) -> bool {
    ||| (p.len() == 1 && (p[0] == '+' || p[0] == '-' || p[0] == '*' || p[0] == '/'))
    ||| p == seq!['-', '>']
}

/// The kind assigned to one whitespace-free part, in the fixed precedence
/// order: comment marker prefix, quote-delimited, all digits, symbol,
/// keyword, operator, identifier.
pub open spec fn classify_text(p: Seq<char>) -> TokenType {
    if p.len() >= 2 && p[0] == '/' && p[1] == '/' {
        TokenType::Comment
    } else if p.len() >= 1 && p[0] == '"' && p[p.len() - 1] == '"' {
        TokenType::LiteralString
    } else if p.len() >= 1 && (forall|j: int| 0 <= j < p.len() ==> is_digit(p[j])) {
        TokenType::LiteralNumber
    } else if is_symbol_text(p) {
        TokenType::Symbol
    } else if is_keyword_text(p) {
        TokenType::Keyword
    } else if is_operator_text(p) {
        TokenType::Operator
    } else {
        TokenType::Identifier
    }
}

/// The classified tokens of a line with text `t` and position `number`:
/// one token per whitespace-free part, in order.
pub open spec fn line_token_models(t: Seq<char>, number: nat) -> Seq<TokenModel> {
    parts_of(t).map_values(
        |p: Seq<char>| TokenModel { kind: classify_text(p), text: p, line: number },
    )
}

/// `run_len` never exceeds the length of the sequence.
pub proof fn lemma_run_len_bound(t: Seq<char>)
    ensures
        run_len(t) <= t.len(),
    decreases t.len(),
{
    if t.len() == 0 || is_space(t[0]) {
    } else {
        lemma_run_len_bound(t.drop_first());
    }
}

/// `run_len(t)` is the unique boundary `k`: everything before `k` is
/// whitespace-free and `k` is the end of the sequence or a whitespace
/// character.
proof fn lemma_run_len_is(t: Seq<char>, k: int)
    requires
        0 <= k <= t.len(),
        forall|j: int| 0 <= j < k ==> !is_space(t[j]),
        k == t.len() || is_space(t[k]),
    ensures
        run_len(t) == k,
    decreases k,
{
    if k == 0 {
    } else {
        lemma_run_len_is(t.drop_first(), k - 1);
    }
}

/// Whether `c` is whitespace for the purpose of splitting.
fn space_char(c: char) -> (b: bool)
    ensures
        b == is_space(c),
{
    c == ' ' || c == '\t' || c == '\r' || c == '\n'
}

/// Whether every character of `p` is a decimal digit.
fn all_digits(p: &str) -> (b: bool)
    ensures
        b == (forall|j: int| 0 <= j < p@.len() ==> is_digit(p@[j])),
{
    let n = p.unicode_len();
    let mut i: usize = 0;
    while i < n
        invariant
            n == p@.len(),
            i <= n,
            forall|j: int| 0 <= j < i as int ==> is_digit(p@[j]),
        decreases n - i,
    {
        let c = p.get_char(i);
        let u = c as u32;
        if u < 48 || u > 57 {
            return false;
        }
        i = i + 1;
    }
    true
}

/// Whether `p` is exactly one of the keywords.
fn keyword_part(p: &String) -> (b: bool)
    ensures
        b == is_keyword_text(p@),
{
    proof {
        reveal_strlit("fn");
        reveal_strlit("let");
        reveal_strlit("if");
        reveal_strlit("else");
        reveal_strlit("for");
        reveal_strlit("return");
        reveal_strlit("continue");
        assert("fn"@ =~= seq!['f', 'n']);
        assert("let"@ =~= seq!['l', 'e', 't']);
        assert("if"@ =~= seq!['i', 'f']);
        assert("else"@ =~= seq!['e', 'l', 's', 'e']);
        assert("for"@ =~= seq!['f', 'o', 'r']);
        assert("return"@ =~= seq!['r', 'e', 't', 'u', 'r', 'n']);
        assert("continue"@ =~= seq!['c', 'o', 'n', 't', 'i', 'n', 'u', 'e']);
    }
    let r = *p == String::from_str("fn") || *p == String::from_str("let") || *p == String::from_str(
        "if",
    ) || *p == String::from_str("else") || *p == String::from_str("for") || *p == String::from_str(
        "return",
    ) || *p == String::from_str("continue");
    r
}

/// Whether `p` is exactly the two-character arrow operator.
fn arrow_part(p: &String) -> (b: bool)
    ensures
        b == (p@ == seq!['-', '>']),
{
    proof {
        reveal_strlit("->");
        assert("->"@ =~= seq!['-', '>']);
    }
    *p == String::from_str("->")
}

/// Classifies one whitespace-free part, in the fixed precedence order.
fn classify_part(p: &String) -> (k: TokenType)
    ensures
        k == classify_text(p@),
{
    let s = p.as_str();
    let n = s.unicode_len();
    if n >= 2 && s.get_char(0) == '/' && s.get_char(1) == '/' {
        return TokenType::Comment;
    }
    if n >= 1 && s.get_char(0) == '"' && s.get_char(n - 1) == '"' {
        return TokenType::LiteralString;
    }
    if n >= 1 && all_digits(s) {
        return TokenType::LiteralNumber;
    }
    if n == 1 {
        let c = s.get_char(0);
        if c == '{' || c == '}' || c == '(' || c == ')' || c == ':' || c == ';' || c == '=' {
            return TokenType::Symbol;
        }
    }
    if keyword_part(p) {
        return TokenType::Keyword;
    }
    if n == 1 {
        let c = s.get_char(0);
        if c == '+' || c == '-' || c == '*' || c == '/' {
            return TokenType::Operator;
        }
    }
    if arrow_part(p) {
        return TokenType::Operator;
    }
    TokenType::Identifier
}

/// Splits the line's text on whitespace runs and classifies each part,
/// yielding the line's ordered token sequence.
pub fn classify(line: &SourceLine) -> (r: Vec<Token>)
    ensures
        token_models(r@) == line_token_models(line@.text, line@.number),
{
    let s = line.text.as_str();
    let ghost t = s@;
    let ghost num = line.number as nat;
    let n = s.unicode_len();
    let mut out: Vec<Token> = Vec::new();
    let mut i: usize = 0;
    proof {
        assert(token_models(out@) =~= Seq::<TokenModel>::empty());
        assert(t.skip(0) =~= t);
    }
    while i < n
        invariant
            n == t.len(),
            i <= n,
            t == line@.text,
            num == line@.number,
            n == s@.len(),
            s@ == t,
            line.number as nat == num,
            token_models(out@) + line_token_models(t.skip(i as int), num) == line_token_models(
                t,
                num,
            ),
        decreases n - i,
    {
        let ghost pre_out = token_models(out@);
        let c = s.get_char(i);
        if space_char(c) {
            proof {
                assert(t.skip(i as int).drop_first() =~= t.skip(i + 1));
            }
            i = i + 1;
        } else {
            let mut j: usize = i + 1;
            while j < n && !space_char(s.get_char(j))
                invariant
                    i < j <= n,
                    n == s@.len(),
                    s@ == t,
                    forall|k: int| i as int <= k < j as int ==> !is_space(t[k]),
                decreases n - j,
            {
                j = j + 1;
            }
            let part = s.substring_char(i, j);
            let text = String::from_str(part);
            let kind = classify_part(&text);
            out.push(Token { kind, text, line: line.number });
            proof {
                let ghost rest = t.skip(i as int);
                assert forall|m: int| 0 <= m < j - i implies !is_space(rest[m]) by {
                    assert(rest[m] == t[i + m]);
                };
                assert(j == n || is_space(rest[j - i]));
                lemma_run_len_is(rest, j - i);
                lemma_run_len_bound(rest);
                assert(rest.take(run_len(rest) as int) =~= t.subrange(i as int, j as int));
                assert(rest.skip(run_len(rest) as int) =~= t.skip(j as int));
                assert(line_token_models(rest, num) =~= seq![
                    TokenModel {
                        kind: classify_text(t.subrange(i as int, j as int)),
                        text: t.subrange(i as int, j as int),
                        line: num,
                    },
                ] + line_token_models(t.skip(j as int), num));
                assert(token_models(out@) =~= pre_out.push(
                    TokenModel {
                        kind: classify_text(t.subrange(i as int, j as int)),
                        text: t.subrange(i as int, j as int),
                        line: num,
                    },
                ));
                assert(token_models(out@) + line_token_models(t.skip(j as int), num)
                    =~= line_token_models(t, num));
            }
            i = j;
        }
    }
    proof {
        assert(t.skip(n as int) =~= Seq::<char>::empty());
        assert(line_token_models(Seq::<char>::empty(), num) =~= Seq::<TokenModel>::empty());
        assert(token_models(out@) =~= line_token_models(t, num));
    }
    out
}

/// Tokenizes one source line into a [`TokenLine`] tagged with the line's
/// position.
pub fn classify_to_line(line: &SourceLine) -> (r: TokenLine)
    ensures
        r@.tokens == line_token_models(line@.text, line@.number),
        r@.number == line@.number,
{
    let tokens = classify(line);
    TokenLine { tokens, number: line.number }
}

} // verus!
