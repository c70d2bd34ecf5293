//! Lexical scanner: classifies the characters of a graph-description text
//! into a sequence of tokens. `spec_scan` is the mathematical model of the
//! scan; `Tokenizer::parse` is proved to return exactly its result.

use vstd::prelude::*;
use vstd::string::*;

verus! {

/// The abstract value of a token: identifier payloads become character
/// sequences.
#[verifier::ext_equal]
pub enum TokenModel {
    BracketOpen,
    BracketClose,
    CurlyOpen,
    CurlyClose,
    Equals,
    Quotation,
    Dash,
    GraphKeyword,
    BGColorKeyword,
    ColorKeyword,
    IdentifierDeclaration(Seq<char>),
}

/// A classified lexical unit. Keyword tokens stand for the reserved words
/// `graph`, `bgcolor` and `color`; an identifier token carries its text with
/// the original case preserved.
#[derive(Debug, PartialEq, Eq)]
pub enum Token {
    BracketOpen,
    BracketClose,
    CurlyOpen,
    CurlyClose,
    Equals,
    Quotation,
    Dash,
    GraphKeyword,
    BGColorKeyword,
    ColorKeyword,
    IdentifierDeclaration(String),
}

impl View for Token {
    type V = TokenModel;

    open spec fn view(&self) -> TokenModel {
        match self {
            Token::BracketOpen => TokenModel::BracketOpen,
            Token::BracketClose => TokenModel::BracketClose,
            Token::CurlyOpen => TokenModel::CurlyOpen,
            Token::CurlyClose => TokenModel::CurlyClose,
            Token::Equals => TokenModel::Equals,
            Token::Quotation => TokenModel::Quotation,
            Token::Dash => TokenModel::Dash,
            Token::GraphKeyword => TokenModel::GraphKeyword,
            Token::BGColorKeyword => TokenModel::BGColorKeyword,
            Token::ColorKeyword => TokenModel::ColorKeyword,
            Token::IdentifierDeclaration(s) => TokenModel::IdentifierDeclaration(s@),
        }
    }
}

impl Clone for Token {
    fn clone(&self) -> (r: Self)
        ensures
            r == *self,
    {
        match self {
            Token::BracketOpen => Token::BracketOpen,
            Token::BracketClose => Token::BracketClose,
            Token::CurlyOpen => Token::CurlyOpen,
            Token::CurlyClose => Token::CurlyClose,
            Token::Equals => Token::Equals,
            Token::Quotation => Token::Quotation,
            Token::Dash => Token::Dash,
            Token::GraphKeyword => Token::GraphKeyword,
            Token::BGColorKeyword => Token::BGColorKeyword,
            Token::ColorKeyword => Token::ColorKeyword,
            Token::IdentifierDeclaration(s) => Token::IdentifierDeclaration(s.clone()),
        }
    }
}

/// Structural token equality: keyword and punctuation tokens equal
/// themselves, identifier tokens compare by payload.
pub fn token_eq(a: &Token, b: &Token) -> (r: bool)
    ensures
        r == (a@ == b@),
{
    match (a, b) {
        (Token::BracketOpen, Token::BracketOpen) => true,
        (Token::BracketClose, Token::BracketClose) => true,
        (Token::CurlyOpen, Token::CurlyOpen) => true,
        (Token::CurlyClose, Token::CurlyClose) => true,
        (Token::Equals, Token::Equals) => true,
        (Token::Quotation, Token::Quotation) => true,
        (Token::Dash, Token::Dash) => true,
        (Token::GraphKeyword, Token::GraphKeyword) => true,
        (Token::BGColorKeyword, Token::BGColorKeyword) => true,
        (Token::ColorKeyword, Token::ColorKeyword) => true,
        (Token::IdentifierDeclaration(x), Token::IdentifierDeclaration(y)) => *x == *y,
        _ => false,
    }
}

/// The abstract value of a token sequence.
pub open spec fn view_tokens(ts: Seq<Token>) -> Seq<TokenModel> {
    Seq::new(ts.len(), |k: int| ts[k]@)
}

pub proof fn lemma_view_tokens_push(ts: Seq<Token>, t: Token)
    ensures
        view_tokens(ts.push(t)) == view_tokens(ts).push(t@),
{
    assert(view_tokens(ts.push(t)) =~= view_tokens(ts).push(t@));
}

pub uninterp spec fn is_alphanumeric_char(c: char) -> bool;

pub uninterp spec fn is_whitespace_char(c: char) -> bool;

/// Relies on char::is_alphanumeric: whether a character is a Unicode letter
/// or digit is a function of the character alone.
pub assume_specification[ char::is_alphanumeric ](c: char) -> (r: bool)
    ensures
        r == is_alphanumeric_char(c),
;

/// Relies on char::is_whitespace: whether a character is Unicode white space
/// is a function of the character alone.
pub assume_specification[ char::is_whitespace ](c: char) -> (r: bool)
    ensures
        r == is_whitespace_char(c),
;

/// A character that continues an identifier: alphanumeric and not white
/// space.
pub open spec fn is_ident_char(c: char) -> bool {
    is_alphanumeric_char(c) && !is_whitespace_char(c)
}

/// Case-insensitive match against the keyword `graph`.
pub open spec fn is_graph_keyword(s: Seq<char>) -> bool {
    &&& s.len() == 5
    &&& (s[0] == 'g' || s[0] == 'G')
    &&& (s[1] == 'r' || s[1] == 'R')
    &&& (s[2] == 'a' || s[2] == 'A')
    &&& (s[3] == 'p' || s[3] == 'P')
    &&& (s[4] == 'h' || s[4] == 'H')
}

/// Case-insensitive match against the keyword `bgcolor`.
pub open spec fn is_bgcolor_keyword(s: Seq<char>) -> bool {
    &&& s.len() == 7
    &&& (s[0] == 'b' || s[0] == 'B')
    &&& (s[1] == 'g' || s[1] == 'G')
    &&& (s[2] == 'c' || s[2] == 'C')
    &&& (s[3] == 'o' || s[3] == 'O')
    &&& (s[4] == 'l' || s[4] == 'L')
    &&& (s[5] == 'o' || s[5] == 'O')
    &&& (s[6] == 'r' || s[6] == 'R')
}

/// Case-insensitive match against the keyword `color`.
pub open spec fn is_color_keyword(s: Seq<char>) -> bool {
    &&& s.len() == 5
    &&& (s[0] == 'c' || s[0] == 'C')
    &&& (s[1] == 'o' || s[1] == 'O')
    &&& (s[2] == 'l' || s[2] == 'L')
    &&& (s[3] == 'o' || s[3] == 'O')
    &&& (s[4] == 'r' || s[4] == 'R')
}

/// Classification of an accumulated word: reserved keywords are matched
/// case-insensitively, anything else is an identifier with its original
/// characters.
pub open spec fn spec_classify(s: Seq<char>) -> TokenModel {
    if is_graph_keyword(s) {
        TokenModel::GraphKeyword
    } else if is_bgcolor_keyword(s) {
        TokenModel::BGColorKeyword
    } else if is_color_keyword(s) {
        TokenModel::ColorKeyword
    } else {
        TokenModel::IdentifierDeclaration(s)
    }
}

/// The single-character punctuation tokens.
pub open spec fn punct_token(c: char) -> Option<TokenModel> {
    if c == '{' {
        Some(TokenModel::CurlyOpen)
    } else if c == '}' {
        Some(TokenModel::CurlyClose)
    } else if c == '[' {
        Some(TokenModel::BracketOpen)
    } else if c == ']' {
        Some(TokenModel::BracketClose)
    } else if c == '=' {
        Some(TokenModel::Equals)
    } else if c == '"' {
        Some(TokenModel::Quotation)
    } else if c == '-' {
        Some(TokenModel::Dash)
    } else {
        None
    }
}

/// The position where the identifier run that is under way at `i` ends: the
/// first position at or after `i` whose character does not continue an
/// identifier.
pub open spec fn ident_end(s: Seq<char>, i: int) -> int
    decreases s.len() - i,
{
    if i < 0 || i >= s.len() {
        i
    } else if is_ident_char(s[i]) {
        ident_end(s, i + 1)
    } else {
        i
    }
}

pub proof fn lemma_ident_end_bounds(s: Seq<char>, i: int)
    requires
        0 <= i <= s.len(),
    ensures
        i <= ident_end(s, i) <= s.len(),
        forall|k: int| i <= k < ident_end(s, i) ==> is_ident_char(s[k]),
        ident_end(s, i) < s.len() ==> !is_ident_char(s[ident_end(s, i)]),
    decreases s.len() - i,
{
    if i < s.len() && is_ident_char(s[i]) {
        lemma_ident_end_bounds(s, i + 1);
    }
}

/// The model of scanning: the token sequence produced from position `i` on,
/// or the first unrecognized character. White space is skipped; a run of
/// identifier characters becomes one classified word; single punctuation
/// characters map one-to-one to their tokens.
pub open spec fn spec_scan(s: Seq<char>, i: int) -> Result<Seq<TokenModel>, char>
    decreases s.len() - i,
{
    if i < 0 || i >= s.len() {
        Ok(Seq::empty())
    } else if is_whitespace_char(s[i]) {
        spec_scan(s, i + 1)
    } else if is_alphanumeric_char(s[i]) {
        let j = ident_end(s, i + 1);
        proof {
            lemma_ident_end_bounds(s, i + 1);
        }
        match spec_scan(s, j) {
            Ok(rest) => Ok(seq![spec_classify(s.subrange(i, j))] + rest),
            Err(c) => Err(c),
        }
    } else {
        match punct_token(s[i]) {
            Some(t) => match spec_scan(s, i + 1) {
                Ok(rest) => Ok(seq![t] + rest),
                Err(c) => Err(c),
            },
            None => Err(s[i]),
        }
    }
}

/// A token sequence already produced, followed by the outcome of the rest of
/// the scan.
pub open spec fn prepend_scan(
    prefix: Seq<TokenModel>,
    rest: Result<Seq<TokenModel>, char>,
) -> Result<Seq<TokenModel>, char> {
    match rest {
        Ok(ts) => Ok(prefix + ts),
        Err(c) => Err(c),
    }
}

/// An unrecoverable failure of the scanner: a character that fits no token.
#[derive(Debug, PartialEq, Eq)]
pub enum LexicalError {
    UnrecognizedCharacter(char),
}

fn is_ident_char_at(dsl: &str, j: usize) -> (r: bool)
    requires
        j < dsl@.len(),
    ensures
        r == is_ident_char(dsl@[j as int]),
{
    let c = dsl.get_char(j);
    c.is_alphanumeric() && !c.is_whitespace()
}

fn matches_graph_keyword(s: &str) -> (r: bool)
    ensures
        r == is_graph_keyword(s@),
{
    if s.unicode_len() != 5 {
        return false;
    }
    let c0 = s.get_char(0);
    let c1 = s.get_char(1);
    let c2 = s.get_char(2);
    let c3 = s.get_char(3);
    let c4 = s.get_char(4);
    (c0 == 'g' || c0 == 'G') && (c1 == 'r' || c1 == 'R') && (c2 == 'a' || c2 == 'A') && (c3 == 'p'
        || c3 == 'P') && (c4 == 'h' || c4 == 'H')
}

fn matches_bgcolor_keyword(s: &str) -> (r: bool)
    ensures
        r == is_bgcolor_keyword(s@),
{
    if s.unicode_len() != 7 {
        return false;
    }
    let c0 = s.get_char(0);
    let c1 = s.get_char(1);
    let c2 = s.get_char(2);
    let c3 = s.get_char(3);
    let c4 = s.get_char(4);
    let c5 = s.get_char(5);
    let c6 = s.get_char(6);
    (c0 == 'b' || c0 == 'B') && (c1 == 'g' || c1 == 'G') && (c2 == 'c' || c2 == 'C') && (c3 == 'o'
        || c3 == 'O') && (c4 == 'l' || c4 == 'L') && (c5 == 'o' || c5 == 'O') && (c6 == 'r' || c6
        == 'R')
}

fn matches_color_keyword(s: &str) -> (r: bool)
    ensures
        r == is_color_keyword(s@),
{
    if s.unicode_len() != 5 {
        return false;
    }
    let c0 = s.get_char(0);
    let c1 = s.get_char(1);
    let c2 = s.get_char(2);
    let c3 = s.get_char(3);
    let c4 = s.get_char(4);
    (c0 == 'c' || c0 == 'C') && (c1 == 'o' || c1 == 'O') && (c2 == 'l' || c2 == 'L') && (c3 == 'o'
        || c3 == 'O') && (c4 == 'r' || c4 == 'R')
}

/// The scanner. It holds no state of its own; each call of `parse` is a
/// single forward pass over its input.
pub struct Tokenizer {}

impl Tokenizer {
    pub fn new() -> (t: Tokenizer) {
        Tokenizer {  }
    }

    /// Scan the whole input. Returns the token sequence of the model scan,
    /// or the first unrecognized character.
    pub fn parse(&mut self, dsl: &str) -> (r: Result<Vec<Token>, LexicalError>)
        ensures
            match spec_scan(dsl@, 0) {
                Ok(ts) => r matches Ok(v) && view_tokens(v@) == ts,
                Err(c) => r matches Err(e) && e == LexicalError::UnrecognizedCharacter(c),
            },
    {
        let ghost s = dsl@;
        let n = dsl.unicode_len();
        let mut tokens: Vec<Token> = Vec::new();
        let mut i: usize = 0;
        while i < n
            invariant
                i <= n,
                n == s.len(),
                s == dsl@,
                spec_scan(s, 0) == prepend_scan(view_tokens(tokens@), spec_scan(s, i as int)),
            decreases n - i,
        {
            let c = dsl.get_char(i);
            if c.is_whitespace() {
                i += 1;
            } else if c.is_alphanumeric() {
                let ghost before = tokens@;
                let (ident, j) = self.read_identifier(dsl, i);
                let token = self.parse_identifier(ident);
                proof {
                    lemma_ident_end_bounds(s, i as int + 1);
                    lemma_view_tokens_push(before, token);
                }
                tokens.push(token);
                proof {
                    if let Ok(rest) = spec_scan(s, j as int) {
                        assert(view_tokens(before) + (seq![token@] + rest) =~= view_tokens(
                            tokens@,
                        ) + rest);
                    }
                }
                i = j;
            } else {
                let token = match c {
                    '{' => Token::CurlyOpen,
                    '}' => Token::CurlyClose,
                    '[' => Token::BracketOpen,
                    ']' => Token::BracketClose,
                    '=' => Token::Equals,
                    '"' => Token::Quotation,
                    '-' => Token::Dash,
                    _ => {
                        return Err(LexicalError::UnrecognizedCharacter(c));
                    },
                };
                let ghost before = tokens@;
                proof {
                    lemma_view_tokens_push(before, token);
                    assert(punct_token(s[i as int]) == Some(token@));
                }
                tokens.push(token);
                proof {
                    if let Ok(rest) = spec_scan(s, i as int + 1) {
                        assert(view_tokens(before) + (seq![token@] + rest) =~= view_tokens(
                            tokens@,
                        ) + rest);
                    }
                }
                i += 1;
            }
        }
        proof {
            assert(view_tokens(tokens@) + Seq::<TokenModel>::empty() =~= view_tokens(tokens@));
        }
        Ok(tokens)
    }

    /// Accumulate the identifier that begins at `start`: the maximal run of
    /// identifier characters. The terminating character is not consumed.
    fn read_identifier(&self, dsl: &str, start: usize) -> (r: (String, usize))
        requires
            start < dsl@.len(),
            is_ident_char(dsl@[start as int]),
        ensures
            r.1 as int == ident_end(dsl@, start as int + 1),
            r.0@ == dsl@.subrange(start as int, r.1 as int),
    {
        let ghost s = dsl@;
        let n = dsl.unicode_len();
        let mut j: usize = start + 1;
        while j < n && is_ident_char_at(dsl, j)
            invariant
                start < j <= n,
                n == s.len(),
                s == dsl@,
                ident_end(s, start as int + 1) == ident_end(s, j as int),
            decreases n - j,
        {
            j += 1;
        }
        let ident = dsl.substring_char(start, j);
        (String::from_str(ident), j)
    }

    /// Classify an accumulated word: a case-insensitive keyword match wins,
    /// anything else is an identifier that keeps its original case.
    fn parse_identifier(&self, token: String) -> (t: Token)
        ensures
            t@ == spec_classify(token@),
    {
        if matches_graph_keyword(token.as_str()) {
            Token::GraphKeyword
        } else if matches_bgcolor_keyword(token.as_str()) {
            Token::BGColorKeyword
        } else if matches_color_keyword(token.as_str()) {
            Token::ColorKeyword
        } else {
            Token::IdentifierDeclaration(token)
        }
    }
}

/// Keyword-shaped words of any letter case resolve to the keyword token, and
/// any other word resolves to an identifier that preserves its characters
/// exactly.
pub proof fn lemma_classify_case_insensitive(s: Seq<char>)
    ensures
        spec_classify(s) == TokenModel::GraphKeyword <==> is_graph_keyword(s),
        spec_classify(s) == TokenModel::BGColorKeyword <==> is_bgcolor_keyword(s),
        spec_classify(s) == TokenModel::ColorKeyword <==> is_color_keyword(s),
        !is_graph_keyword(s) && !is_bgcolor_keyword(s) && !is_color_keyword(s)
            ==> spec_classify(s) == TokenModel::IdentifierDeclaration(s),
{
}

/// Scanning a single bare word (a maximal run of identifier characters)
/// yields exactly one token: the word's classification.
pub proof fn lemma_scan_word_roundtrip(s: Seq<char>)
    requires
        s.len() > 0,
        forall|k: int| 0 <= k < s.len() ==> is_ident_char(s[k]),
    ensures
        spec_scan(s, 0) == Ok::<Seq<TokenModel>, char>(seq![spec_classify(s)]),
{
    lemma_ident_end_bounds(s, 1);
    assert(ident_end(s, 1) == s.len());
    assert(spec_scan(s, s.len() as int) == Ok::<Seq<TokenModel>, char>(Seq::empty()));
    assert(s.subrange(0, s.len() as int) =~= s);
    assert(seq![spec_classify(s)] + Seq::<TokenModel>::empty() =~= seq![spec_classify(s)]);
}

} // verus!
