//! Text forms of classes, values and errors, and the rows of the token table.

use vstd::prelude::*;
use crate::text::push_char;
use crate::token::{Token, TokenError, TokenType, TokenValue};

verus! {

/// The name of a class.
pub open spec fn class_name(t: TokenType) -> Seq<char> {
    match t {
        TokenType::Operator => "Operator"@,
        TokenType::Number => "Number"@,
        TokenType::Symbol => "Symbol"@,
    }
}

pub open spec fn digit_char(d: nat) -> char {
    (d + '0' as nat) as char
}

/// The decimal digits of `n`, most significant first, with no leading zero.
pub open spec fn decimal_digits(n: nat) -> Seq<char>
    decreases n,
{
    if n < 10 {
        seq![digit_char(n)]
    } else {
        decimal_digits(n / 10).push(digit_char(n % 10))
    }
}

/// `n` in decimal, with a minus sign when negative.
pub open spec fn decimal(n: int) -> Seq<char> {
    if n < 0 {
        seq!['-'] + decimal_digits((-n) as nat)
    } else {
        decimal_digits(n as nat)
    }
}

/// The text of a value: its number in decimal, or the name of the variant.
pub open spec fn value_text(v: TokenValue) -> Seq<char> {
    match v {
        TokenValue::Number(n) => decimal(n as int),
        TokenValue::Plus => "Plus"@,
        TokenValue::Minus => "Minus"@,
        TokenValue::Multiply => "Multiply"@,
        TokenValue::Division => "Division"@,
        TokenValue::Power => "Power"@,
        TokenValue::OpenParenthesis => "OpenParenthesis"@,
        TokenValue::CloseParenthesis => "CloseParenthesis"@,
        TokenValue::OpenBrackets => "OpenBrackets"@,
        TokenValue::CloseBrackets => "CloseBrackets"@,
    }
}

/// The message that reports an error.
pub open spec fn error_text(e: TokenError) -> Seq<char> {
    match e {
        TokenError::InvalidCharacter(c) => "An Error has occurred: Found invalid character '"@
            + seq![c] + "'!"@,
    }
}

fn push_decimal_digits(s: &mut String, n: u64)
    ensures
        final(s)@ == old(s)@ + decimal_digits(n as nat),
    decreases n,
{
    if n >= 10 {
        push_decimal_digits(s, n / 10);
    }
    let d = (n % 10) as u8;
    push_char(s, ('0' as u8 + d) as char);
    assert(('0' as u8 + d) as char == digit_char((n % 10) as nat));
    if n >= 10 {
        assert(old(s)@ + decimal_digits(n as nat) =~= old(s)@ + decimal_digits((n / 10) as nat)
            + seq![digit_char((n % 10) as nat)]);
    } else {
        assert(old(s)@ + decimal_digits(n as nat) =~= old(s)@.push(digit_char(n as nat)));
    }
}

/// `n` in decimal.
pub fn decimal_string(n: i64) -> (r: String)
    ensures
        r@ == decimal(n as int),
{
    let mut r = String::new();
    if n < 0 {
        push_char(&mut r, '-');
        let m: u64 = (0i128 - n as i128) as u64;
        push_decimal_digits(&mut r, m);
    } else {
        push_decimal_digits(&mut r, n as u64);
    }
    r
}

impl TokenType {
    /// The name of the class.
    pub fn to_string(&self) -> (r: String)
        ensures
            r@ == class_name(*self),
    {
        match self {
            TokenType::Operator => String::from_str("Operator"),
            TokenType::Number => String::from_str("Number"),
            TokenType::Symbol => String::from_str("Symbol"),
        }
    }
}

impl TokenValue {
    /// The number in decimal, or the name of the variant.
    pub fn to_string(&self) -> (r: String)
        ensures
            r@ == value_text(*self),
    {
        match self {
            TokenValue::Number(n) => decimal_string(*n),
            TokenValue::Plus => String::from_str("Plus"),
            TokenValue::Minus => String::from_str("Minus"),
            TokenValue::Multiply => String::from_str("Multiply"),
            TokenValue::Division => String::from_str("Division"),
            TokenValue::Power => String::from_str("Power"),
            TokenValue::OpenParenthesis => String::from_str("OpenParenthesis"),
            TokenValue::CloseParenthesis => String::from_str("CloseParenthesis"),
            TokenValue::OpenBrackets => String::from_str("OpenBrackets"),
            TokenValue::CloseBrackets => String::from_str("CloseBrackets"),
        }
    }
}

impl TokenError {
    /// The message that reports the error to a user.
    pub fn to_string(&self) -> (r: String)
        ensures
            r@ == error_text(*self),
    {
        match self {
            TokenError::InvalidCharacter(c) => {
                let mut r = String::from_str("An Error has occurred: Found invalid character '");
                push_char(&mut r, *c);
                r.append("'!");
                r
            },
        }
    }
}

/// The width that every column of the token table is padded to.
pub const COLUMN_WIDTH: usize = 20;

/// `s` with spaces in front up to `width` characters; longer text is kept
/// whole.
pub open spec fn pad_left(s: Seq<char>, width: nat) -> Seq<char> {
    if s.len() < width {
        Seq::new((width - s.len()) as nat, |_i: int| ' ') + s
    } else {
        s
    }
}

/// A row of the table: three cells, each right-aligned, each after a bar.
pub open spec fn table_row(a: Seq<char>, b: Seq<char>, c: Seq<char>) -> Seq<char> {
    seq!['|'] + pad_left(a, COLUMN_WIDTH as nat) + seq!['|'] + pad_left(b, COLUMN_WIDTH as nat)
        + seq!['|'] + pad_left(c, COLUMN_WIDTH as nat)
}

/// The row under the header: three cells of dashes.
pub open spec fn separator_row() -> Seq<char> {
    let dashes = Seq::new(COLUMN_WIDTH as nat, |_i: int| '-');
    seq!['|'] + dashes + seq!['|'] + dashes + seq!['|'] + dashes
}

/// The row of one token: its lexeme, its class and its value.
pub open spec fn token_row(t: crate::token::TokenView) -> Seq<char> {
    table_row(t.lexeme, class_name(t.ttype), value_text(t.value))
}

fn push_cell(r: &mut String, cell: &str)
    ensures
        final(r)@ == old(r)@ + seq!['|'] + pad_left(cell@, COLUMN_WIDTH as nat),
{
    push_char(r, '|');
    let len = cell.unicode_len();
    let ghost start = r@;
    let mut i: usize = len;
    while i < COLUMN_WIDTH
        invariant
            len == cell@.len(),
            len <= i <= COLUMN_WIDTH || (len > COLUMN_WIDTH && i == len),
            r@ == start + Seq::new((i - len) as nat, |_i: int| ' '),
        decreases COLUMN_WIDTH - i,
    {
        push_char(r, ' ');
        assert(r@ =~= start + Seq::new((i + 1 - len) as nat, |_i: int| ' '));
        i = i + 1;
    }
    r.append(cell);
    if len < COLUMN_WIDTH {
        assert(r@ =~= old(r)@ + seq!['|'] + pad_left(cell@, COLUMN_WIDTH as nat));
    } else {
        assert(r@ =~= old(r)@ + seq!['|'] + pad_left(cell@, COLUMN_WIDTH as nat));
    }
}

fn row_string(a: &str, b: &str, c: &str) -> (r: String)
    ensures
        r@ == table_row(a@, b@, c@),
{
    let mut r = String::new();
    push_cell(&mut r, a);
    push_cell(&mut r, b);
    push_cell(&mut r, c);
    assert(r@ =~= table_row(a@, b@, c@));
    r
}

impl Token {
    /// The lines of the token table: a header, a row of dashes, then one row
    /// per token in order.
    pub fn table_rows(table: &Vec<Token>) -> (r: Vec<String>)
        ensures
            r.len() == table.len() + 2,
            r[0]@ == table_row("Lexeme"@, "Token Type"@, "Value"@),
            r[1]@ == separator_row(),
            forall|k: int| 0 <= k < table.len() ==> (#[trigger] r[k + 2])@ == token_row(table[k]@),
    {
        let mut rows: Vec<String> = Vec::new();
        rows.push(row_string("Lexeme", "Token Type", "Value"));
        let dashes = String::from_str("--------------------");
        proof {
            reveal_strlit("--------------------");
            assert(dashes@ =~= Seq::new(COLUMN_WIDTH as nat, |_i: int| '-'));
        }
        let mut sep = String::new();
        push_cell(&mut sep, dashes.as_str());
        push_cell(&mut sep, dashes.as_str());
        push_cell(&mut sep, dashes.as_str());
        assert(sep@ =~= separator_row());
        rows.push(sep);
        let mut i: usize = 0;
        while i < table.len()
            invariant
                i <= table.len(),
                rows.len() == i + 2,
                rows[0]@ == table_row("Lexeme"@, "Token Type"@, "Value"@),
                rows[1]@ == separator_row(),
                forall|k: int| 0 <= k < i ==> (#[trigger] rows[k + 2])@ == token_row(table[k]@),
            decreases table.len() - i,
        {
            let token = &table[i];
            let ttype = token.ttype().to_string();
            let value = token.value().to_string();
            rows.push(row_string(token.lexeme().as_str(), ttype.as_str(), value.as_str()));
            i = i + 1;
        }
        rows
    }
}

} // verus!
