use vstd::prelude::*;
use vstd::string::StrSliceExecFns;

use crate::ast::{BinaryBoolOp, BinaryNumOp, CmpBoolOp, UnaryBoolOp};
use crate::parser::{cmp_op_of, is_cmp_op, is_num_op, num_op_of};
use crate::error::{err_view, Error, ErrorModel};

verus! {

/// The kinds of token.
#[derive(PartialEq, Eq, Structural, Debug, Clone, Copy)]
pub enum TokenKind {
    Number,
    Boolean,
    // Keywords
    Cond,
    Define,
    List,
    Cons,
    Empty,
    Car,
    Cdr,
    EmptyHuh,
    ListHuh,
    Identifier,
    // Delimiters
    OpenParen,
    CloseParen,
    // Operators
    Plus,
    Minus,
    Slash,
    Star,
    Percent,
    Ampersand,
    Pipe,
    Bang,
    LessThan,
    Equal,
    GreaterThan,
}

/// A classified lexical unit: its kind and its text.
#[derive(Debug, Clone)]
pub struct Token {
    pub kind: TokenKind,
    pub text: String,
}

impl View for Token {
    type V = (TokenKind, Seq<char>);

    open spec fn view(&self) -> (TokenKind, Seq<char>) {
        (self.kind, self.text@)
    }
}

/// The token sequence as a sequence of (kind, text) pairs.
pub open spec fn tokens_view(ts: Seq<Token>) -> Seq<(TokenKind, Seq<char>)> {
    ts.map_values(|t: Token| t@)
}

/// A cursor over a materialized token sequence with lookahead.
#[derive(Debug)]
pub struct TokenIter<'a> {
    tokens: &'a Vec<Token>,
    index: usize,
}

impl<'a> TokenIter<'a> {
    /// The tokens under the cursor.
    pub closed spec fn tokens(&self) -> Seq<Token> {
        self.tokens@
    }

    /// How many tokens have been consumed.
    pub closed spec fn pos(&self) -> nat {
        self.index as nat
    }

    pub closed spec fn wf(&self) -> bool {
        self.index <= self.tokens@.len()
    }

    /// A cursor at the first token.
    pub fn new(tokens: &'a Vec<Token>) -> (r: Self)
        ensures
            r.wf(),
            r.tokens() == tokens@,
            r.pos() == 0,
    {
        TokenIter { tokens, index: 0 }
    }

    /// How many tokens have been consumed.
    pub fn position(&self) -> (r: usize)
        ensures
            r == self.pos(),
    {
        self.index
    }

    /// How many tokens there are in all.
    pub fn token_count(&self) -> (r: usize)
        ensures
            r == self.tokens().len(),
    {
        self.tokens.len()
    }

    /// The token `n` places ahead of the cursor, without consuming it.
    pub fn peek_nth(&self, n: usize) -> (r: Option<&'a Token>)
        requires
            self.wf(),
        ensures
            self.pos() + n < self.tokens().len() ==> r == Some(&self.tokens()[self.pos() + n]),
            self.pos() + n >= self.tokens().len() ==> r.is_none(),
    {
        if n < self.tokens.len() - self.index {
            Some(&self.tokens[self.index + n])
        } else {
            None
        }
    }

    /// The token under the cursor, without consuming it.
    pub fn peek(&self) -> (r: Option<&'a Token>)
        requires
            self.wf(),
        ensures
            self.pos() < self.tokens().len() ==> r == Some(&self.tokens()[self.pos() as int]),
            self.pos() >= self.tokens().len() ==> r.is_none(),
    {
        self.peek_nth(0)
    }

    /// Consumes and returns the token under the cursor, if any.
    pub fn next(&mut self) -> (r: Option<&'a Token>)
        requires
            old(self).wf(),
        ensures
            final(self).wf(),
            final(self).tokens() == old(self).tokens(),
            old(self).pos() < old(self).tokens().len() ==> r == Some(&old(self).tokens()[old(self).pos() as int])
                && final(self).pos() == old(self).pos() + 1,
            old(self).pos() >= old(self).tokens().len() ==> r.is_none() && final(self).pos() == old(self).pos(),
    {
        if self.index < self.tokens.len() {
            let token = &self.tokens[self.index];
            self.index = self.index + 1;
            Some(token)
        } else {
            None
        }
    }
}


/// Unicode White_Space characters, the ones that separate tokens.
pub open spec fn is_whitespace_spec(c: char) -> bool {
    let u = c as u32;
    (9 <= u <= 13) || u == 32 || u == 0x85 || u == 0xa0 || u == 0x1680 || (0x2000 <= u <= 0x200a)
        || u == 0x2028 || u == 0x2029 || u == 0x202f || u == 0x205f || u == 0x3000
}

pub open spec fn is_digit_spec(c: char) -> bool {
    '0' <= c && c <= '9'
}

pub open spec fn is_alpha_spec(c: char) -> bool {
    ('a' <= c && c <= 'z') || ('A' <= c && c <= 'Z')
}

/// A character that may start a word.
pub open spec fn is_word_start_spec(c: char) -> bool {
    is_alpha_spec(c) || c == '_'
}

/// A character that may continue a word.
pub open spec fn is_word_char_spec(c: char) -> bool {
    is_word_start_spec(c) || is_digit_spec(c) || c == '?' || c == '!' || c == '-' || c == ':'
}

/// The first index at or after `i` that holds no whitespace.
pub open spec fn skip_whitespace(s: Seq<char>, i: int) -> int
    decreases s.len() - i,
{
    if 0 <= i < s.len() && is_whitespace_spec(s[i]) {
        skip_whitespace(s, i + 1)
    } else {
        i
    }
}

/// The end of the maximal run of digits that starts at `i`.
pub open spec fn digit_run_end(s: Seq<char>, i: int) -> int
    decreases s.len() - i,
{
    if 0 <= i < s.len() && is_digit_spec(s[i]) {
        digit_run_end(s, i + 1)
    } else {
        i
    }
}

/// The end of the maximal run of word characters that starts at `i`.
pub open spec fn word_run_end(s: Seq<char>, i: int) -> int
    decreases s.len() - i,
{
    if 0 <= i < s.len() && is_word_char_spec(s[i]) {
        word_run_end(s, i + 1)
    } else {
        i
    }
}

/// The kind of a word: a boolean literal, a keyword, or an identifier.
pub open spec fn word_kind(w: Seq<char>) -> TokenKind {
    if w == "true"@ || w == "false"@ {
        TokenKind::Boolean
    } else if w == "cond"@ {
        TokenKind::Cond
    } else if w == "define"@ {
        TokenKind::Define
    } else if w == "list"@ {
        TokenKind::List
    } else if w == "cons"@ {
        TokenKind::Cons
    } else if w == "empty"@ {
        TokenKind::Empty
    } else if w == "car"@ {
        TokenKind::Car
    } else if w == "cdr"@ {
        TokenKind::Cdr
    } else if w == "empty?"@ {
        TokenKind::EmptyHuh
    } else if w == "list?"@ {
        TokenKind::ListHuh
    } else {
        TokenKind::Identifier
    }
}

/// The token of a one-character delimiter or operator, with its text.
pub open spec fn punct_token(c: char) -> Option<(TokenKind, Seq<char>)> {
    if c == '(' || c == '[' {
        Some((TokenKind::OpenParen, seq!['(']))
    } else if c == ')' || c == ']' {
        Some((TokenKind::CloseParen, seq![')']))
    } else if c == '+' {
        Some((TokenKind::Plus, seq![c]))
    } else if c == '-' {
        Some((TokenKind::Minus, seq![c]))
    } else if c == '/' {
        Some((TokenKind::Slash, seq![c]))
    } else if c == '*' {
        Some((TokenKind::Star, seq![c]))
    } else if c == '%' {
        Some((TokenKind::Percent, seq![c]))
    } else if c == '&' {
        Some((TokenKind::Ampersand, seq![c]))
    } else if c == '|' {
        Some((TokenKind::Pipe, seq![c]))
    } else if c == '!' {
        Some((TokenKind::Bang, seq![c]))
    } else if c == '<' {
        Some((TokenKind::LessThan, seq![c]))
    } else if c == '=' {
        Some((TokenKind::Equal, seq![c]))
    } else if c == '>' {
        Some((TokenKind::GreaterThan, seq![c]))
    } else {
        None
    }
}

/// The token that starts at `i` (which holds a character) and the index just after it:
/// a maximal run of digits, a maximal word, or a one-character token.
pub open spec fn token_at(s: Seq<char>, i: int) -> Result<((TokenKind, Seq<char>), int), ErrorModel> {
    if is_digit_spec(s[i]) {
        let e = digit_run_end(s, i);
        Ok(((TokenKind::Number, s.subrange(i, e)), e))
    } else if is_word_start_spec(s[i]) {
        let e = word_run_end(s, i);
        Ok(((word_kind(s.subrange(i, e)), s.subrange(i, e)), e))
    } else {
        match punct_token(s[i]) {
            Some(t) => Ok((t, i + 1)),
            None => Err(ErrorModel::LexError(s[i])),
        }
    }
}

/// The tokens of `s` from index `i` on, whitespace skipped.
pub open spec fn lex_from(s: Seq<char>, i: int) -> Result<Seq<(TokenKind, Seq<char>)>, ErrorModel>
    decreases s.len() - i,
{
    let j = skip_whitespace(s, i);
    if 0 <= i <= j < s.len() {
        match token_at(s, j) {
            Ok((t, e)) => if j < e <= s.len() {
                match lex_from(s, e) {
                    Ok(rest) => Ok(seq![t] + rest),
                    Err(err) => Err(err),
                }
            } else {
                Err(ErrorModel::LexError(s[j]))
            },
            Err(err) => Err(err),
        }
    } else {
        Ok(Seq::empty())
    }
}

/// The tokens of a whole source text.
pub open spec fn lex(s: Seq<char>) -> Result<Seq<(TokenKind, Seq<char>)>, ErrorModel> {
    lex_from(s, 0)
}


proof fn lemma_skip_whitespace_bounds(s: Seq<char>, i: int)
    requires
        0 <= i <= s.len(),
    ensures
        i <= skip_whitespace(s, i) <= s.len(),
        skip_whitespace(s, i) < s.len() ==> !is_whitespace_spec(s[skip_whitespace(s, i)]),
    decreases s.len() - i,
{
    if i < s.len() && is_whitespace_spec(s[i]) {
        lemma_skip_whitespace_bounds(s, i + 1);
    }
}

proof fn lemma_digit_run_bounds(s: Seq<char>, i: int)
    requires
        0 <= i <= s.len(),
    ensures
        i <= digit_run_end(s, i) <= s.len(),
        forall|k: int| i <= k < digit_run_end(s, i) ==> is_digit_spec(#[trigger] s[k]),
    decreases s.len() - i,
{
    if i < s.len() && is_digit_spec(s[i]) {
        lemma_digit_run_bounds(s, i + 1);
    }
}

proof fn lemma_word_run_bounds(s: Seq<char>, i: int)
    requires
        0 <= i <= s.len(),
    ensures
        i <= word_run_end(s, i) <= s.len(),
    decreases s.len() - i,
{
    if i < s.len() && is_word_char_spec(s[i]) {
        lemma_word_run_bounds(s, i + 1);
    }
}

fn is_whitespace(c: char) -> (r: bool)
    ensures
        r == is_whitespace_spec(c),
{
    let u = c as u32;
    (9 <= u && u <= 13) || u == 32 || u == 0x85 || u == 0xa0 || u == 0x1680 || (0x2000 <= u && u
        <= 0x200a) || u == 0x2028 || u == 0x2029 || u == 0x202f || u == 0x205f || u == 0x3000
}

fn is_digit(c: char) -> (r: bool)
    ensures
        r == is_digit_spec(c),
{
    '0' <= c && c <= '9'
}

/// Whether `c` may start a word: an ASCII letter or an underscore.
fn is_valid_starting_string_token_char(c: &char) -> (r: bool)
    ensures
        r == is_word_start_spec(*c),
{
    ('a' <= *c && *c <= 'z') || ('A' <= *c && *c <= 'Z') || *c == '_'
}

/// Whether `c` may continue a word.
fn is_valid_string_token_char(c: &char) -> (r: bool)
    ensures
        r == is_word_char_spec(*c),
{
    is_valid_starting_string_token_char(c) || is_digit(*c) || *c == '?' || *c == '!' || *c == '-'
        || *c == ':'
}

/// Relies on `String::from_iter` over `char`s: the string holds the characters in order.
#[verifier::external_body]
pub(crate) fn string_of_chars(v: Vec<char>) -> (r: String)
    ensures
        r@ == v@,
{
    String::from_iter(v)
}

/// Moves `pos` past the whitespace that starts there.
fn consume_whitespace(s: &Vec<char>, pos: &mut usize)
    requires
        *old(pos) <= s@.len(),
    ensures
        *final(pos) == skip_whitespace(s@, *old(pos) as int),
{
    proof {
        lemma_skip_whitespace_bounds(s@, *pos as int);
    }
    while *pos < s.len() && is_whitespace(s[*pos])
        invariant
            *pos <= s@.len(),
            skip_whitespace(s@, *pos as int) == skip_whitespace(s@, *old(pos) as int),
        decreases s@.len() - *pos,
    {
        *pos = *pos + 1;
    }
}

/// Copies the characters at `start..end` into a vector.
fn chars_between(s: &Vec<char>, start: usize, end: usize) -> (r: Vec<char>)
    requires
        start <= end <= s@.len(),
    ensures
        r@ == s@.subrange(start as int, end as int),
{
    let mut r: Vec<char> = Vec::new();
    let mut i: usize = start;
    while i < end
        invariant
            start <= i <= end <= s@.len(),
            r@ == s@.subrange(start as int, i as int),
        decreases end - i,
    {
        r.push(s[i]);
        i = i + 1;
        assert(r@ =~= s@.subrange(start as int, i as int));
    }
    r
}

fn text_of(lit: &str) -> (r: String)
    ensures
        r@ == lit@,
{
    lit.to_owned()
}

/// The kind of the word `w`.
fn classify_word(w: &String) -> (r: TokenKind)
    ensures
        r == word_kind(w@),
{
    if *w == text_of("true") || *w == text_of("false") {
        TokenKind::Boolean
    } else if *w == text_of("cond") {
        TokenKind::Cond
    } else if *w == text_of("define") {
        TokenKind::Define
    } else if *w == text_of("list") {
        TokenKind::List
    } else if *w == text_of("cons") {
        TokenKind::Cons
    } else if *w == text_of("empty") {
        TokenKind::Empty
    } else if *w == text_of("car") {
        TokenKind::Car
    } else if *w == text_of("cdr") {
        TokenKind::Cdr
    } else if *w == text_of("empty?") {
        TokenKind::EmptyHuh
    } else if *w == text_of("list?") {
        TokenKind::ListHuh
    } else {
        TokenKind::Identifier
    }
}

fn punct(kind: TokenKind, c: char) -> (r: Token)
    ensures
        r@ == (kind, seq![c]),
{
    let mut v: Vec<char> = Vec::new();
    v.push(c);
    Token { kind, text: string_of_chars(v) }
}

/// Reads the token that starts at `pos`, which holds a character, and moves `pos` past it.
fn token_from_position(s: &Vec<char>, pos: &mut usize) -> (r: Result<Token, Error>)
    requires
        *old(pos) < s@.len(),
    ensures
        match token_at(s@, *old(pos) as int) {
            Ok((t, e)) => r matches Ok(tok) && tok@ == t && *final(pos) == e,
            Err(err) => err_view(r) == Err::<Token, ErrorModel>(err),
        },
        r is Ok ==> *old(pos) < *final(pos) <= s@.len(),
{
    let start = *pos;
    let c = s[start];
    if is_digit(c) {
        proof {
            lemma_digit_run_bounds(s@, start as int);
        }
        while *pos < s.len() && is_digit(s[*pos])
            invariant
                start <= *pos <= s@.len(),
                digit_run_end(s@, *pos as int) == digit_run_end(s@, start as int),
            decreases s@.len() - *pos,
        {
            *pos = *pos + 1;
        }
        let text = string_of_chars(chars_between(s, start, *pos));
        return Ok(Token { kind: TokenKind::Number, text });
    }
    if is_valid_starting_string_token_char(&c) {
        proof {
            lemma_word_run_bounds(s@, start as int);
        }
        while *pos < s.len() && is_valid_string_token_char(&s[*pos])
            invariant
                start <= *pos <= s@.len(),
                word_run_end(s@, *pos as int) == word_run_end(s@, start as int),
            decreases s@.len() - *pos,
        {
            *pos = *pos + 1;
        }
        let text = string_of_chars(chars_between(s, start, *pos));
        let kind = classify_word(&text);
        return Ok(Token { kind, text });
    }
    let n = s.len();
    assert(start < n);
    *pos = start + 1;
    if c == '(' || c == '[' {
        Ok(punct(TokenKind::OpenParen, '('))
    } else if c == ')' || c == ']' {
        Ok(punct(TokenKind::CloseParen, ')'))
    } else if c == '+' {
        Ok(punct(TokenKind::Plus, c))
    } else if c == '-' {
        Ok(punct(TokenKind::Minus, c))
    } else if c == '/' {
        Ok(punct(TokenKind::Slash, c))
    } else if c == '*' {
        Ok(punct(TokenKind::Star, c))
    } else if c == '%' {
        Ok(punct(TokenKind::Percent, c))
    } else if c == '&' {
        Ok(punct(TokenKind::Ampersand, c))
    } else if c == '|' {
        Ok(punct(TokenKind::Pipe, c))
    } else if c == '!' {
        Ok(punct(TokenKind::Bang, c))
    } else if c == '<' {
        Ok(punct(TokenKind::LessThan, c))
    } else if c == '=' {
        Ok(punct(TokenKind::Equal, c))
    } else if c == '>' {
        Ok(punct(TokenKind::GreaterThan, c))
    } else {
        Err(Error::LexError(c))
    }
}

/// The characters of `s`, in order.
pub(crate) fn chars_of(s: &String) -> (r: Vec<char>)
    ensures
        r@ == s@,
{
    let st = s.as_str();
    let n = st.unicode_len();
    let mut r: Vec<char> = Vec::new();
    let mut i: usize = 0;
    while i < n
        invariant
            n == st@.len(),
            st@ == s@,
            i <= n,
            r@ == s@.subrange(0, i as int),
        decreases n - i,
    {
        r.push(st.get_char(i));
        i = i + 1;
        assert(r@ =~= s@.subrange(0, i as int));
    }
    assert(r@ =~= s@);
    r
}

/// Splits a source text into tokens, skipping whitespace; fails with `LexError` on a
/// character that starts no token.
pub fn string_to_tokens(s: String) -> (r: Result<Vec<Token>, Error>)
    ensures
        match lex(s@) {
            Ok(ts) => r matches Ok(v) && tokens_view(v@) == ts,
            Err(e) => err_view(r) == Err::<Vec<Token>, ErrorModel>(e),
        },
{
    let cs = chars_of(&s);
    let mut result: Vec<Token> = Vec::new();
    let mut pos: usize = 0;
    proof {
        lemma_skip_whitespace_bounds(cs@, 0);
    }
    consume_whitespace(&cs, &mut pos);
    while pos < cs.len()
        invariant
            cs@ == s@,
            pos <= cs@.len(),
            exists|i: int| 0 <= i <= pos && skip_whitespace(cs@, i) == pos && lex(s@) == (
            match lex_from(cs@, i) {
                Ok(rest) => Ok(tokens_view(result@) + rest),
                Err(e) => Err(e),
            }),
        decreases cs@.len() - pos,
    {
        let ghost i0 = choose|i: int| 0 <= i <= pos && skip_whitespace(cs@, i) == pos && lex(s@) == (
            match lex_from(cs@, i) {
                Ok(rest) => Ok(tokens_view(result@) + rest),
                Err(e) => Err(e),
            });
        let ghost start = pos as int;
        let token = token_from_position(&cs, &mut pos);
        match token {
            Ok(t) => {
                proof {
                    lemma_digit_run_bounds(cs@, start);
                    lemma_word_run_bounds(cs@, start);
                    lemma_skip_whitespace_bounds(cs@, pos as int);
                    let ghost tv = tokens_view(result@);
                    assert(tokens_view(result@.push(t)) =~= tv.push(t@));
                    match lex_from(cs@, pos as int) {
                        Ok(rest) => {
                            assert(tv.push(t@) + rest =~= tv + (seq![t@] + rest));
                        },
                        Err(e) => {},
                    }
                }
                result.push(t);
                consume_whitespace(&cs, &mut pos);
            },
            Err(e) => {
                return Err(e);
            },
        }
    }
    proof {
        let ghost i0 = choose|i: int| 0 <= i <= pos && skip_whitespace(cs@, i) == pos && lex(s@) == (
            match lex_from(cs@, i) {
                Ok(rest) => Ok(tokens_view(result@) + rest),
                Err(e) => Err(e),
            });
        assert(tokens_view(result@) + Seq::empty() =~= tokens_view(result@));
    }
    Ok(result)
}


/// The arithmetic operator of an operator token; `ParseError` for any other kind.
pub fn token_kind_to_binary_num_op(kind: &TokenKind) -> (r: Result<BinaryNumOp, Error>)
    ensures
        is_num_op(*kind) ==> err_view(r) == Ok::<BinaryNumOp, ErrorModel>(num_op_of(*kind)),
        !is_num_op(*kind) ==> err_view(r) == Err::<BinaryNumOp, ErrorModel>(ErrorModel::ParseError),
{
    match kind {
        TokenKind::Plus => Ok(BinaryNumOp::Add),
        TokenKind::Minus => Ok(BinaryNumOp::Sub),
        TokenKind::Slash => Ok(BinaryNumOp::Div),
        TokenKind::Star => Ok(BinaryNumOp::Mul),
        TokenKind::Percent => Ok(BinaryNumOp::Mod),
        _ => Err(Error::ParseError),
    }
}

/// The binary boolean operator of `&` or `|`; `ParseError` for any other kind.
pub fn token_kind_to_binary_bool_op(kind: &TokenKind) -> (r: Result<BinaryBoolOp, Error>)
    ensures
        *kind == TokenKind::Ampersand ==> err_view(r) == Ok::<BinaryBoolOp, ErrorModel>(BinaryBoolOp::And),
        *kind == TokenKind::Pipe ==> err_view(r) == Ok::<BinaryBoolOp, ErrorModel>(BinaryBoolOp::Or),
        *kind != TokenKind::Ampersand && *kind != TokenKind::Pipe ==> err_view(r) == Err::<BinaryBoolOp, ErrorModel>(ErrorModel::ParseError),
{
    match kind {
        TokenKind::Ampersand => Ok(BinaryBoolOp::And),
        TokenKind::Pipe => Ok(BinaryBoolOp::Or),
        _ => Err(Error::ParseError),
    }
}

/// The unary boolean operator of `!`; `ParseError` for any other kind.
pub fn token_kind_to_unary_bool_op(kind: &TokenKind) -> (r: Result<UnaryBoolOp, Error>)
    ensures
        *kind == TokenKind::Bang ==> err_view(r) == Ok::<UnaryBoolOp, ErrorModel>(UnaryBoolOp::Not),
        *kind != TokenKind::Bang ==> err_view(r) == Err::<UnaryBoolOp, ErrorModel>(ErrorModel::ParseError),
{
    match kind {
        TokenKind::Bang => Ok(UnaryBoolOp::Not),
        _ => Err(Error::ParseError),
    }
}

/// The comparison operator of `<`, `=` or `>`; `ParseError` for any other kind.
pub fn token_kind_to_cmp_bool_op(kind: &TokenKind) -> (r: Result<CmpBoolOp, Error>)
    ensures
        is_cmp_op(*kind) ==> err_view(r) == Ok::<CmpBoolOp, ErrorModel>(cmp_op_of(*kind)),
        !is_cmp_op(*kind) ==> err_view(r) == Err::<CmpBoolOp, ErrorModel>(ErrorModel::ParseError),
{
    match kind {
        TokenKind::LessThan => Ok(CmpBoolOp::Lt),
        TokenKind::Equal => Ok(CmpBoolOp::Eq),
        TokenKind::GreaterThan => Ok(CmpBoolOp::Gt),
        _ => Err(Error::ParseError),
    }
}

} // verus!
