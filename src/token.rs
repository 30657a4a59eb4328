//! Tokens: the character classes, the values a lexeme stands for, and the
//! token record that ties a lexeme to its class and value.

use vstd::prelude::*;
use crate::text::{chars_of, push_char};

verus! {

/// The error a scan can end with: a character that belongs to no class.
#[derive(Debug, Clone, Copy, PartialEq, Eq, Structural)]
pub enum TokenError {
    InvalidCharacter(char),
}

/// The class of a single character, and of the lexeme it starts.
#[derive(Debug, Clone, Copy, PartialEq, Eq, Structural)]
pub enum TokenType {
    Operator,
    Symbol,
    Number,
}

/// What a lexeme stands for.
#[derive(Debug, Clone, Copy, PartialEq, Eq, Structural)]
pub enum TokenValue {
    Number(i64),
    Plus,
    Minus,
    Multiply,
    Division,
    Power,
    OpenParenthesis,
    CloseParenthesis,
    OpenBrackets,
    CloseBrackets,
}

/// A lexeme together with its class and the value it stands for.
#[derive(Debug, Clone)]
pub struct Token {
    ttype: TokenType,
    lexeme: String,
    value: TokenValue,
}

/// What a token holds, with the lexeme as a sequence of characters.
pub struct TokenView {
    pub ttype: TokenType,
    pub lexeme: Seq<char>,
    pub value: TokenValue,
}

impl TokenView {
    /// The value and the class agree with the lexeme.
    pub open spec fn wf(self) -> bool {
        &&& lexeme_value(self.lexeme) == Some(self.value)
        &&& lexeme_class(self.lexeme) == self.ttype
    }
}

impl View for Token {
    type V = TokenView;

    closed spec fn view(&self) -> TokenView {
        TokenView { ttype: self.ttype, lexeme: self.lexeme@, value: self.value }
    }
}

/// The token that a lexeme with a value makes.
pub open spec fn token_of(lexeme: Seq<char>) -> TokenView {
    TokenView { ttype: lexeme_class(lexeme), lexeme, value: lexeme_value(lexeme).unwrap() }
}

pub open spec fn is_digit(c: char) -> bool {
    '0' <= c && c <= '9'
}

pub open spec fn is_operator(c: char) -> bool {
    c == '*' || c == '+' || c == '-' || c == '/'
}

pub open spec fn is_symbol(c: char) -> bool {
    c == '(' || c == ')' || c == '{' || c == '}'
}

/// A character that some class accepts.
pub open spec fn is_valid_char(c: char) -> bool {
    is_digit(c) || is_operator(c) || is_symbol(c)
}

/// The class of a character, or the error that names it.
pub open spec fn char_class(c: char) -> Result<TokenType, TokenError> {
    if is_digit(c) {
        Ok(TokenType::Number)
    } else if is_operator(c) {
        Ok(TokenType::Operator)
    } else if is_symbol(c) {
        Ok(TokenType::Symbol)
    } else {
        Err(TokenError::InvalidCharacter(c))
    }
}

pub open spec fn all_digits(s: Seq<char>) -> bool {
    forall|i: int| 0 <= i < s.len() ==> is_digit(#[trigger] s[i])
}

/// An optional minus sign followed by one or more decimal digits.
pub open spec fn is_numeral(s: Seq<char>) -> bool {
    if s.len() > 0 && s[0] == '-' {
        s.len() > 1 && all_digits(s.drop_first())
    } else {
        s.len() > 0 && all_digits(s)
    }
}

pub open spec fn digit_value(c: char) -> int {
    c as int - '0' as int
}

/// The number that a run of decimal digits writes, most significant first.
pub open spec fn digits_value(s: Seq<char>) -> int
    decreases s.len(),
{
    if s.len() == 0 {
        0
    } else {
        digits_value(s.drop_last()) * 10 + digit_value(s.last())
    }
}

/// The number that a numeral writes.
pub open spec fn numeral_value(s: Seq<char>) -> int {
    if s.len() > 0 && s[0] == '-' {
        -digits_value(s.drop_first())
    } else {
        digits_value(s)
    }
}

pub open spec fn fits_i64(n: int) -> bool {
    i64::MIN <= n && n <= i64::MAX
}

/// The value of a lexeme, where it has one: the operator and symbol lexemes
/// map by exact match, a numeral to its number when that fits in an `i64`.
pub open spec fn lexeme_value(s: Seq<char>) -> Option<TokenValue> {
    if s == seq!['+'] {
        Some(TokenValue::Plus)
    } else if s == seq!['-'] {
        Some(TokenValue::Minus)
    } else if s == seq!['*'] {
        Some(TokenValue::Multiply)
    } else if s == seq!['*', '*'] {
        Some(TokenValue::Power)
    } else if s == seq!['/'] {
        Some(TokenValue::Division)
    } else if s == seq!['('] {
        Some(TokenValue::OpenParenthesis)
    } else if s == seq![')'] {
        Some(TokenValue::CloseParenthesis)
    } else if s == seq!['{'] {
        Some(TokenValue::OpenBrackets)
    } else if s == seq!['}'] {
        Some(TokenValue::CloseBrackets)
    } else if is_numeral(s) && fits_i64(numeral_value(s)) {
        Some(TokenValue::Number(numeral_value(s) as i64))
    } else {
        None
    }
}

/// The class of a lexeme that has a value.
pub open spec fn lexeme_class(s: Seq<char>) -> TokenType {
    if is_numeral(s) {
        TokenType::Number
    } else if s.len() == 1 && is_symbol(s[0]) {
        TokenType::Symbol
    } else {
        TokenType::Operator
    }
}

/// A numeral is none of the operator or symbol lexemes, so its value is its
/// number, where that fits.
pub proof fn lemma_numeral_value(l: Seq<char>)
    requires
        is_numeral(l),
    ensures
        lexeme_value(l) == if fits_i64(numeral_value(l)) {
            Some(TokenValue::Number(numeral_value(l) as i64))
        } else {
            None::<TokenValue>
        },
        lexeme_class(l) == TokenType::Number,
{
    if l[0] == '-' {
        assert(is_digit(l.drop_first()[0]));
        assert(l[1] == l.drop_first()[0]);
    } else {
        assert(is_digit(l[0]));
    }
}

proof fn lemma_digits_value_nonneg(s: Seq<char>)
    requires
        all_digits(s),
    ensures
        digits_value(s) >= 0,
    decreases s.len(),
{
    if s.len() > 0 {
        lemma_digits_value_nonneg(s.drop_last());
    }
}

/// A prefix of a digit run writes no larger a number than the whole run.
proof fn lemma_digits_prefix_le(s: Seq<char>, k: int)
    requires
        all_digits(s),
        0 <= k <= s.len(),
    ensures
        0 <= digits_value(s.take(k)) <= digits_value(s),
    decreases s.len() - k,
{
    lemma_digits_value_nonneg(s.take(k));
    if k < s.len() {
        lemma_digits_prefix_le(s, k + 1);
        assert(s.take(k + 1).drop_last() =~= s.take(k));
    } else {
        assert(s.take(k) =~= s);
    }
}

/// The number that a numeral writes, or `None` where it does not fit in an
/// `i64`.
pub fn parse_numeral(s: &Vec<char>) -> (r: Option<i64>)
    requires
        is_numeral(s@),
    ensures
        r == if fits_i64(numeral_value(s@)) {
            Some(numeral_value(s@) as i64)
        } else {
            None::<i64>
        },
{
    let negative = s[0] == '-';
    let start: usize = if negative { 1 } else { 0 };
    let ghost digits = s@.subrange(start as int, s@.len() as int);
    assert(all_digits(digits) && numeral_value(s@) == if negative {
        -digits_value(digits)
    } else {
        digits_value(digits)
    }) by {
        if negative {
            assert(digits =~= s@.drop_first());
        } else {
            assert(digits =~= s@);
        }
    }
    let mut acc: i64 = 0;
    let mut i: usize = start;
    while i < s.len()
        invariant
            start <= i <= s.len(),
            digits == s@.subrange(start as int, s@.len() as int),
            all_digits(digits),
            numeral_value(s@) == if negative { -digits_value(digits) } else { digits_value(digits) },
            acc == if negative {
                -digits_value(digits.take(i - start))
            } else {
                digits_value(digits.take(i - start))
            },
        decreases s.len() - i,
    {
        let k = i - start;
        assert(digits[k as int] == s@[i as int]);
        assert(digits.take(k + 1).drop_last() =~= digits.take(k as int));
        proof {
            lemma_digits_prefix_le(digits, k + 1);
        }
        let d = (s[i] as u32 - '0' as u32) as i64;
        let next = if negative {
            match acc.checked_mul(10) {
                Some(m) => m.checked_sub(d),
                None => None,
            }
        } else {
            match acc.checked_mul(10) {
                Some(m) => m.checked_add(d),
                None => None,
            }
        };
        match next {
            Some(n) => {
                acc = n;
            },
            None => {
                return None;
            },
        }
        i = i + 1;
    }
    assert(digits.take(i - start) =~= digits);
    Some(acc)
}

fn is_single(s: &Vec<char>, c: char) -> (r: bool)
    ensures
        r == (s@ == seq![c]),
{
    if s.len() == 1 && s[0] == c {
        assert(s@ =~= seq![c]);
        true
    } else {
        false
    }
}

impl TokenType {
    /// The class of `c`: digits are numbers, `* + - /` operators and
    /// `( ) { }` symbols; any other character is an error that names it.
    pub fn get_type(c: char) -> (r: Result<TokenType, TokenError>)
        ensures
            r == char_class(c),
    {
        if '0' <= c && c <= '9' {
            Ok(TokenType::Number)
        } else if c == '*' || c == '+' || c == '-' || c == '/' {
            Ok(TokenType::Operator)
        } else if c == '(' || c == ')' || c == '{' || c == '}' {
            Ok(TokenType::Symbol)
        } else {
            Err(TokenError::InvalidCharacter(c))
        }
    }
}

impl TokenValue {
    /// The value of a lexeme that has one.
    pub fn from_string(value: &String) -> (r: TokenValue)
        requires
            lexeme_value(value@) is Some,
        ensures
            lexeme_value(value@) == Some(r),
    {
        let s = chars_of(value.as_str());
        if is_single(&s, '+') {
            TokenValue::Plus
        } else if is_single(&s, '-') {
            TokenValue::Minus
        } else if is_single(&s, '*') {
            TokenValue::Multiply
        } else if s.len() == 2 && s[0] == '*' && s[1] == '*' {
            assert(s@ =~= seq!['*', '*']);
            TokenValue::Power
        } else if is_single(&s, '/') {
            TokenValue::Division
        } else if is_single(&s, '(') {
            TokenValue::OpenParenthesis
        } else if is_single(&s, ')') {
            TokenValue::CloseParenthesis
        } else if is_single(&s, '{') {
            TokenValue::OpenBrackets
        } else if is_single(&s, '}') {
            TokenValue::CloseBrackets
        } else {
            assert(s@ != seq!['*', '*']);
            TokenValue::Number(parse_numeral(&s).unwrap())
        }
    }
}

impl Token {
    /// The token for a lexeme that has a value, of the class that lexeme has.
    pub fn new(ttype: &TokenType, lexeme: &String) -> (r: Token)
        requires
            lexeme_value(lexeme@) is Some,
            *ttype == lexeme_class(lexeme@),
        ensures
            r@ == token_of(lexeme@),
            r@.wf(),
    {
        Token { lexeme: lexeme.clone(), ttype: *ttype, value: TokenValue::from_string(lexeme) }
    }

    pub fn ttype(&self) -> (r: TokenType)
        ensures
            r == self@.ttype,
    {
        self.ttype
    }

    pub fn lexeme(&self) -> (r: &String)
        ensures
            r@ == self@.lexeme,
    {
        &self.lexeme
    }

    pub fn value(&self) -> (r: TokenValue)
        ensures
            r == self@.value,
    {
        self.value
    }
}

} // verus!
