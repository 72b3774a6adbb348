//! From characters to tokens.
//!
//! A token is an integer literal (a run of digits), a word (a keyword or a
//! name), or punctuation. Spaces, tabs and carriage returns part tokens and
//! mean nothing else; a line break is a token, a separator like `;`. The
//! longest token is taken: `<=` is one operator, `iffy` is one name.

use vstd::prelude::*;
use vstd::string::StrSliceExecFns;
use vstd::string::StringExecFns;
use crate::error::ParseError;
use crate::operator::Operator;

verus! {

/// A token of the language.
#[derive(Debug, PartialEq, Eq)]
pub enum Token {
    Integer(i32),
    True,
    False,
    Identifier(String),
    Let,
    Mut,
    If,
    Else,
    While,
    /// `(`
    Open,
    /// `)`
    Close,
    /// `{`
    BlockOpen,
    /// `}`
    BlockClose,
    /// `=`
    Assign,
    /// `;` or a line break
    Separator,
    Infix(Operator),
}

/// The model of a [`Token`].
pub ghost enum TokenModel {
    Integer(i32),
    True,
    False,
    Identifier(Seq<char>),
    Let,
    Mut,
    If,
    Else,
    While,
    Open,
    Close,
    BlockOpen,
    BlockClose,
    Assign,
    Separator,
    Infix(Operator),
}

impl View for Token {
    type V = TokenModel;

    open spec fn view(&self) -> TokenModel {
        match self {
            Token::Integer(n) => TokenModel::Integer(*n),
            Token::True => TokenModel::True,
            Token::False => TokenModel::False,
            Token::Identifier(name) => TokenModel::Identifier(name@),
            Token::Let => TokenModel::Let,
            Token::Mut => TokenModel::Mut,
            Token::If => TokenModel::If,
            Token::Else => TokenModel::Else,
            Token::While => TokenModel::While,
            Token::Open => TokenModel::Open,
            Token::Close => TokenModel::Close,
            Token::BlockOpen => TokenModel::BlockOpen,
            Token::BlockClose => TokenModel::BlockClose,
            Token::Assign => TokenModel::Assign,
            Token::Separator => TokenModel::Separator,
            Token::Infix(op) => TokenModel::Infix(*op),
        }
    }
}

impl Token {
    /// Whether two tokens are the same.
    pub fn same(&self, other: &Token) -> (r: bool)
        ensures
            r == (self@ == other@),
    {
        match (self, other) {
            (Token::Integer(a), Token::Integer(b)) => *a == *b,
            (Token::True, Token::True) => true,
            (Token::False, Token::False) => true,
            (Token::Identifier(a), Token::Identifier(b)) => *a == *b,
            (Token::Let, Token::Let) => true,
            (Token::Mut, Token::Mut) => true,
            (Token::If, Token::If) => true,
            (Token::Else, Token::Else) => true,
            (Token::While, Token::While) => true,
            (Token::Open, Token::Open) => true,
            (Token::Close, Token::Close) => true,
            (Token::BlockOpen, Token::BlockOpen) => true,
            (Token::BlockClose, Token::BlockClose) => true,
            (Token::Assign, Token::Assign) => true,
            (Token::Separator, Token::Separator) => true,
            (Token::Infix(a), Token::Infix(b)) => *a == *b,
            _ => false,
        }
    }
}

/// A token and the offset of its first character.
pub type Lexeme = (TokenModel, int);

/// The tokens of a text, each with its offset.
pub struct Lexed {
    pub tokens: Vec<Token>,
    pub offsets: Vec<usize>,
}

impl View for Lexed {
    type V = Seq<Lexeme>;

    open spec fn view(&self) -> Seq<Lexeme> {
        Seq::new(self.tokens@.len(), |i: int| (self.tokens@[i]@, self.offsets@[i] as int))
    }
}

/// The models of a sequence of tokens, one by one.
pub open spec fn token_models(tokens: Seq<Token>) -> Seq<TokenModel> {
    Seq::new(tokens.len(), |i: int| tokens[i]@)
}

/// The tokens of a sequence of lexemes.
pub open spec fn tokens_of(lexemes: Seq<Lexeme>) -> Seq<TokenModel> {
    Seq::new(lexemes.len(), |i: int| lexemes[i].0)
}

/// Space between tokens. A line break is not blank: it separates statements.
pub open spec fn is_blank(c: char) -> bool {
    c == ' ' || c == '\t' || c == '\r'
}

pub open spec fn is_digit(c: char) -> bool {
    '0' <= c && c <= '9'
}

/// A character that may start a word: an ASCII letter or an underscore.
pub open spec fn is_word_start(c: char) -> bool {
    ('a' <= c && c <= 'z') || ('A' <= c && c <= 'Z') || c == '_'
}

/// A character that may go on a word.
pub open spec fn is_word_char(c: char) -> bool {
    is_word_start(c) || is_digit(c)
}

/// The digits, as a predicate.
pub open spec fn digits() -> spec_fn(char) -> bool {
    |c: char| is_digit(c)
}

/// The characters of words, as a predicate.
pub open spec fn word_chars() -> spec_fn(char) -> bool {
    |c: char| is_word_char(c)
}

/// The number of characters from `pos` on, without a gap, that satisfy `p`.
pub open spec fn span(text: Seq<char>, pos: int, p: spec_fn(char) -> bool) -> nat
    decreases text.len() - pos,
{
    if 0 <= pos < text.len() && p(text[pos]) {
        1 + span(text, pos + 1, p)
    } else {
        0
    }
}

/// The number that a sequence of digits denotes.
pub open spec fn decimal(digits: Seq<char>) -> nat
    decreases digits.len(),
{
    if digits.len() == 0 {
        0
    } else {
        (10 * decimal(digits.drop_last()) + (digits.last() as int - '0' as int)) as nat
    }
}

/// The token that a word is: a keyword, or else an identifier.
pub open spec fn word_token(word: Seq<char>) -> TokenModel {
    if word == "let"@ {
        TokenModel::Let
    } else if word == "mut"@ {
        TokenModel::Mut
    } else if word == "if"@ {
        TokenModel::If
    } else if word == "else"@ {
        TokenModel::Else
    } else if word == "while"@ {
        TokenModel::While
    } else if word == "true"@ {
        TokenModel::True
    } else if word == "false"@ {
        TokenModel::False
    } else {
        TokenModel::Identifier(word)
    }
}

/// The token made of punctuation that starts at `pos`, and its length. Two
/// characters that make an operator together are taken together.
pub open spec fn symbol_at(text: Seq<char>, pos: int) -> Option<(TokenModel, nat)> {
    let c = text[pos];
    let followed = pos + 1 < text.len() && text[pos + 1] == '=';
    if c == '<' && followed {
        Some((TokenModel::Infix(Operator::Le), 2))
    } else if c == '>' && followed {
        Some((TokenModel::Infix(Operator::Ge), 2))
    } else if c == '=' && followed {
        Some((TokenModel::Infix(Operator::Equal), 2))
    } else if c == '!' && followed {
        Some((TokenModel::Infix(Operator::NotEqual), 2))
    } else if c == '+' {
        Some((TokenModel::Infix(Operator::Add), 1))
    } else if c == '-' {
        Some((TokenModel::Infix(Operator::Sub), 1))
    } else if c == '*' {
        Some((TokenModel::Infix(Operator::Mul), 1))
    } else if c == '/' {
        Some((TokenModel::Infix(Operator::Div), 1))
    } else if c == '%' {
        Some((TokenModel::Infix(Operator::Mod), 1))
    } else if c == '<' {
        Some((TokenModel::Infix(Operator::Lt), 1))
    } else if c == '>' {
        Some((TokenModel::Infix(Operator::Gt), 1))
    } else if c == '=' {
        Some((TokenModel::Assign, 1))
    } else if c == '(' {
        Some((TokenModel::Open, 1))
    } else if c == ')' {
        Some((TokenModel::Close, 1))
    } else if c == '{' {
        Some((TokenModel::BlockOpen, 1))
    } else if c == '}' {
        Some((TokenModel::BlockClose, 1))
    } else if c == ';' || c == '\n' {
        Some((TokenModel::Separator, 1))
    } else {
        None
    }
}

/// The token that starts at `pos`, where a character that is not blank
/// stands, and its length: the longest run of digits, the longest word, or
/// punctuation.
pub open spec fn token_at(text: Seq<char>, pos: int) -> Result<(TokenModel, nat), ParseError> {
    let c = text[pos];
    if is_digit(c) {
        let n = span(text, pos, digits());
        let value = decimal(text.subrange(pos, pos + n));
        if value <= i32::MAX {
            Ok((TokenModel::Integer(value as i32), n))
        } else {
            Err(ParseError::IntegerTooLarge { offset: pos as usize })
        }
    } else if is_word_start(c) {
        let n = span(text, pos, word_chars());
        Ok((word_token(text.subrange(pos, pos + n)), n))
    } else {
        match symbol_at(text, pos) {
            Some(found) => Ok(found),
            None => Err(ParseError::UnexpectedCharacter { offset: pos as usize }),
        }
    }
}

/// The lexemes of the text from `pos` on.
pub open spec fn lexemes_from(text: Seq<char>, pos: int) -> Result<Seq<Lexeme>, ParseError>
    decreases text.len() - pos,
    via lexemes_from_decreases
{
    if pos < 0 || pos >= text.len() {
        Ok(Seq::empty())
    } else if is_blank(text[pos]) {
        lexemes_from(text, pos + 1)
    } else {
        match token_at(text, pos) {
            Err(e) => Err(e),
            Ok((token, n)) => following(seq![(token, pos)], lexemes_from(text, pos + n)),
        }
    }
}

#[via_fn]
proof fn lexemes_from_decreases(text: Seq<char>, pos: int) {
    if 0 <= pos < text.len() {
        lemma_token_length(text, pos);
    }
}

/// A run ends within the text; it holds only characters that satisfy `p`,
/// and the character after it, if there is one, does not.
pub proof fn lemma_span(text: Seq<char>, pos: int, p: spec_fn(char) -> bool)
    requires
        0 <= pos <= text.len(),
    ensures
        pos + span(text, pos, p) <= text.len(),
        forall|k: int| pos <= k < pos + span(text, pos, p) ==> p(#[trigger] text[k]),
        pos + span(text, pos, p) < text.len() ==> !p(text[pos + span(text, pos, p)]),
    decreases text.len() - pos,
{
    if pos < text.len() && p(text[pos]) {
        lemma_span(text, pos + 1, p);
    }
}

/// A run is known by where it ends.
pub proof fn lemma_span_end(text: Seq<char>, pos: int, end: int, p: spec_fn(char) -> bool)
    requires
        0 <= pos <= end <= text.len(),
        forall|k: int| pos <= k < end ==> p(#[trigger] text[k]),
        end < text.len() ==> !p(text[end]),
    ensures
        span(text, pos, p) == end - pos,
    decreases end - pos,
{
    if pos < end {
        lemma_span_end(text, pos + 1, end, p);
    }
}

/// A token has at least one character and ends within the text.
pub proof fn lemma_token_length(text: Seq<char>, pos: int)
    requires
        0 <= pos < text.len(),
    ensures
        match token_at(text, pos) {
            Ok((_, n)) => 1 <= n && pos + n <= text.len(),
            Err(_) => true,
        },
{
    lemma_span(text, pos, digits());
    lemma_span(text, pos, word_chars());
}

/// `first`, then what follows it, unless that failed.
pub open spec fn following(first: Seq<Lexeme>, rest: Result<Seq<Lexeme>, ParseError>) -> Result<
    Seq<Lexeme>,
    ParseError,
> {
    match rest {
        Ok(more) => Ok(first + more),
        Err(e) => Err(e),
    }
}

/// The lexemes of a text, or the first place where it has none.
pub open spec fn lexemes(text: Seq<char>) -> Result<Seq<Lexeme>, ParseError> {
    lexemes_from(text, 0)
}

/// A longer run of digits denotes no smaller a number.
pub proof fn lemma_decimal_grows(text: Seq<char>, pos: int, a: int, b: int)
    requires
        0 <= pos <= a <= b <= text.len(),
        forall|k: int| pos <= k < b ==> is_digit(#[trigger] text[k]),
    ensures
        decimal(text.subrange(pos, a)) <= decimal(text.subrange(pos, b)),
    decreases b - a,
{
    if a < b {
        lemma_decimal_grows(text, pos, a, b - 1);
        assert(text.subrange(pos, b).drop_last() =~= text.subrange(pos, b - 1));
        assert(is_digit(text[b - 1]));
    }
}

/// The characters of a text.
fn chars_of(text: &str) -> (chars: Vec<char>)
    ensures
        chars@ == text@,
{
    let mut chars: Vec<char> = Vec::new();
    for c in it: text.chars()
        invariant
            chars@ == it.seq().take(it.index() as int),
    {
        chars.push(c);
    }
    chars
}

/// Whether the characters from `start` to `end` spell `word`.
fn spells(chars: &Vec<char>, start: usize, end: usize, word: &str) -> (r: bool)
    requires
        start <= end <= chars@.len(),
    ensures
        r == (chars@.subrange(start as int, end as int) == word@),
{
    let n: usize = word.unicode_len();
    if end - start != n {
        return false;
    }
    let mut i: usize = 0;
    while i < n
        invariant
            i <= n,
            n == word@.len(),
            end - start == n,
            start <= end <= chars@.len(),
            forall|k: int| 0 <= k < i ==> chars@[start + k] == word@[k],
        decreases n - i,
    {
        if chars[start + i] != word.get_char(i) {
            assert(chars@.subrange(start as int, end as int)[i as int] != word@[i as int]);
            return false;
        }
        i = i + 1;
    }
    assert(chars@.subrange(start as int, end as int) =~= word@);
    true
}

fn blank(c: char) -> (r: bool)
    ensures
        r == is_blank(c),
{
    c == ' ' || c == '\t' || c == '\r'
}

fn digit(c: char) -> (r: bool)
    ensures
        r == is_digit(c),
{
    '0' <= c && c <= '9'
}

fn word_start(c: char) -> (r: bool)
    ensures
        r == is_word_start(c),
{
    ('a' <= c && c <= 'z') || ('A' <= c && c <= 'Z') || c == '_'
}

/// Reads the integer literal at `pos`.
fn read_integer(chars: &Vec<char>, pos: usize) -> (r: Result<(Token, usize), ParseError>)
    requires
        pos < chars@.len(),
        is_digit(chars@[pos as int]),
    ensures
        match r {
            Ok((token, end)) => pos < end <= chars@.len() && token_at(chars@, pos as int) == Ok::<
                _,
                ParseError,
            >((token@, (end - pos) as nat)),
            Err(e) => token_at(chars@, pos as int) == Err::<(TokenModel, nat), _>(e),
        },
{
    let ghost text = chars@;
    let ghost n = span(text, pos as int, digits());
    proof {
        lemma_span(text, pos as int, digits());
    }
    let mut end: usize = pos;
    let mut value: u64 = 0;
    while end < chars.len() && digit(chars[end])
        invariant
            text == chars@,
            pos <= end <= text.len(),
            end <= pos + n <= text.len(),
            n == span(text, pos as int, digits()),
            forall|k: int| pos <= k < pos + n ==> is_digit(#[trigger] text[k]),
            pos + n < text.len() ==> !is_digit(text[pos + n]),
            value == decimal(text.subrange(pos as int, end as int)),
            value <= i32::MAX,
        decreases text.len() - end,
    {
        let d: u64 = (chars[end] as u32 - '0' as u32) as u64;
        proof {
            assert(text.subrange(pos as int, end + 1).drop_last() =~= text.subrange(
                pos as int,
                end as int,
            ));
            assert(end < pos + n);
            lemma_decimal_grows(text, pos as int, end + 1, pos + n);
        }
        value = 10 * value + d;
        end = end + 1;
        if value > 0x7fff_ffff {
            return Err(ParseError::IntegerTooLarge { offset: pos });
        }
    }
    Ok((Token::Integer(value as i32), end))
}

/// Reads the keyword or identifier at `pos`.
fn read_word(text: &str, chars: &Vec<char>, pos: usize) -> (r: (Token, usize))
    requires
        chars@ == text@,
        pos < chars@.len(),
        is_word_start(chars@[pos as int]),
    ensures
        pos < r.1 <= chars@.len(),
        token_at(chars@, pos as int) == Ok::<_, ParseError>((r.0@, (r.1 - pos) as nat)),
{
    let mut end: usize = pos;
    while end < chars.len() && (word_start(chars[end]) || digit(chars[end]))
        invariant
            pos <= end <= chars@.len(),
            forall|k: int| pos <= k < end ==> is_word_char(#[trigger] chars@[k]),
        decreases chars@.len() - end,
    {
        end = end + 1;
    }
    proof {
        lemma_span_end(chars@, pos as int, end as int, word_chars());
    }
    let token = if spells(chars, pos, end, "let") {
        Token::Let
    } else if spells(chars, pos, end, "mut") {
        Token::Mut
    } else if spells(chars, pos, end, "if") {
        Token::If
    } else if spells(chars, pos, end, "else") {
        Token::Else
    } else if spells(chars, pos, end, "while") {
        Token::While
    } else if spells(chars, pos, end, "true") {
        Token::True
    } else if spells(chars, pos, end, "false") {
        Token::False
    } else {
        Token::Identifier(String::from_str(text.substring_char(pos, end)))
    };
    (token, end)
}

/// Reads the punctuation at `pos`.
fn read_symbol(chars: &Vec<char>, pos: usize) -> (r: Option<(Token, usize)>)
    requires
        pos < chars@.len(),
    ensures
        match r {
            Some((token, end)) => pos < end <= chars@.len() && symbol_at(chars@, pos as int)
                == Some((token@, (end - pos) as nat)),
            None => symbol_at(chars@, pos as int) is None,
        },
{
    let c = chars[pos];
    let len: usize = chars.len();
    let followed = pos + 1 < len && chars[pos + 1] == '=';
    if c == '<' && followed {
        Some((Token::Infix(Operator::Le), pos + 2))
    } else if c == '>' && followed {
        Some((Token::Infix(Operator::Ge), pos + 2))
    } else if c == '=' && followed {
        Some((Token::Infix(Operator::Equal), pos + 2))
    } else if c == '!' && followed {
        Some((Token::Infix(Operator::NotEqual), pos + 2))
    } else if c == '+' {
        Some((Token::Infix(Operator::Add), pos + 1))
    } else if c == '-' {
        Some((Token::Infix(Operator::Sub), pos + 1))
    } else if c == '*' {
        Some((Token::Infix(Operator::Mul), pos + 1))
    } else if c == '/' {
        Some((Token::Infix(Operator::Div), pos + 1))
    } else if c == '%' {
        Some((Token::Infix(Operator::Mod), pos + 1))
    } else if c == '<' {
        Some((Token::Infix(Operator::Lt), pos + 1))
    } else if c == '>' {
        Some((Token::Infix(Operator::Gt), pos + 1))
    } else if c == '=' {
        Some((Token::Assign, pos + 1))
    } else if c == '(' {
        Some((Token::Open, pos + 1))
    } else if c == ')' {
        Some((Token::Close, pos + 1))
    } else if c == '{' {
        Some((Token::BlockOpen, pos + 1))
    } else if c == '}' {
        Some((Token::BlockClose, pos + 1))
    } else if c == ';' || c == '\n' {
        Some((Token::Separator, pos + 1))
    } else {
        None
    }
}

/// Splits a text into its tokens.
pub fn tokenize(text: &str) -> (r: Result<Lexed, ParseError>)
    ensures
        match r {
            Ok(lexed) => lexed.tokens@.len() == lexed.offsets@.len() && lexemes(text@) == Ok::<
                _,
                ParseError,
            >(lexed@),
            Err(e) => lexemes(text@) == Err::<Seq<Lexeme>, _>(e),
        },
{
    let chars = chars_of(text);
    let mut lexed = Lexed { tokens: Vec::new(), offsets: Vec::new() };
    let mut pos: usize = 0;
    assert(lexed@ =~= Seq::empty());
    assert(Seq::<Lexeme>::empty() + lexemes_from(text@, 0)->Ok_0 =~= lexemes_from(text@, 0)->Ok_0);
    while pos < chars.len()
        invariant
            chars@ == text@,
            pos <= chars@.len(),
            lexed.tokens@.len() == lexed.offsets@.len(),
            lexemes(text@) == following(lexed@, lexemes_from(text@, pos as int)),
        decreases chars@.len() - pos,
    {
        let c = chars[pos];
        if blank(c) {
            pos = pos + 1;
        } else {
            let read = if digit(c) {
                read_integer(&chars, pos)
            } else if word_start(c) {
                Ok(read_word(text, &chars, pos))
            } else {
                match read_symbol(&chars, pos) {
                    Some(found) => Ok(found),
                    None => Err(ParseError::UnexpectedCharacter { offset: pos }),
                }
            };
            match read {
                Err(e) => {
                    return Err(e);
                },
                Ok((token, end)) => {
                    let ghost before = lexed@;
                    let ghost rest = lexemes_from(text@, end as int);
                    lexed.tokens.push(token);
                    lexed.offsets.push(pos);
                    proof {
                        assert(lexed@ =~= before + seq![(token@, pos as int)]);
                        if rest is Ok {
                            assert(before + (seq![(token@, pos as int)] + rest->Ok_0) =~= lexed@
                                + rest->Ok_0);
                        }
                    }
                    pos = end;
                },
            }
        }
    }
    proof {
        assert(lexed@ + Seq::<Lexeme>::empty() =~= lexed@);
    }
    Ok(lexed)
}

} // verus!
