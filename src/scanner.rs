//! The scanner: one forward pass over the characters that groups them into
//! lexemes, with the unary-minus and power rules deciding the ambiguous
//! cases.

use vstd::prelude::*;
use crate::text::{chars_of, string_of, strip_whitespace, strip_whitespace_spec};
use crate::token::{
    char_class, fits_i64, is_digit, is_numeral, is_operator, is_symbol, lexeme_class, numeral_value,
    lemma_numeral_value, lexeme_value, parse_numeral, token_of, Token, TokenError, TokenType, TokenView,
};

verus! {

/// What the scan carries from one character to the next: the lexemes
/// finished so far, the pending lexeme and the class of the pending lexeme.
pub struct ScanState {
    pub lexemes: Seq<Seq<char>>,
    pub pending: Seq<char>,
    pub class: TokenType,
}

/// Nothing finished, nothing pending; the class is a placeholder.
pub open spec fn initial_state() -> ScanState {
    ScanState { lexemes: Seq::empty(), pending: Seq::empty(), class: TokenType::Symbol }
}

/// The finished lexemes with the pending one, if any, appended.
pub open spec fn flushed(st: ScanState) -> Seq<Seq<char>> {
    if st.pending.len() > 0 {
        st.lexemes.push(st.pending)
    } else {
        st.lexemes
    }
}

/// The character after position `i` exists and is a digit.
pub open spec fn next_is_digit(s: Seq<char>, i: int) -> bool {
    i + 1 < s.len() && is_digit(s[i + 1])
}

/// The state after the character at `i`, of class `cls`, has been read.
pub open spec fn step(st: ScanState, s: Seq<char>, i: int, cls: TokenType) -> ScanState {
    let c = s[i];
    if c == '-' && st.class != TokenType::Number && next_is_digit(s, i) {
        ScanState { lexemes: flushed(st), pending: seq!['-'], class: TokenType::Number }
    } else if cls == st.class && st.class == TokenType::Number {
        ScanState { pending: st.pending.push(c), ..st }
    } else if c == '*' && st.pending == seq!['*'] {
        ScanState { pending: st.pending.push(c), ..st }
    } else {
        ScanState { lexemes: flushed(st), pending: seq![c], class: cls }
    }
}

/// The lexemes of `s` from position `i` on, starting in state `st`, or the
/// first character from there that belongs to no class.
pub open spec fn scan_from(s: Seq<char>, i: int, st: ScanState) -> Result<Seq<Seq<char>>, TokenError>
    decreases s.len() - i,
{
    if i >= s.len() {
        Ok(flushed(st))
    } else {
        match char_class(s[i]) {
            Err(e) => Err(e),
            Ok(cls) => scan_from(s, i + 1, step(st, s, i, cls)),
        }
    }
}

/// The lexemes of `s`, or the first character that belongs to no class.
pub open spec fn scan_spec(s: Seq<char>) -> Result<Seq<Seq<char>>, TokenError> {
    scan_from(s, 0, initial_state())
}

/// Every numeral among the lexemes of `s` writes a number that fits in an
/// `i64`.
pub open spec fn numbers_fit(s: Seq<char>) -> bool {
    match scan_spec(s) {
        Ok(lexemes) => forall|k: int|
            0 <= k < lexemes.len() && is_numeral(#[trigger] lexemes[k]) ==> fits_i64(
                numeral_value(lexemes[k]),
            ),
        Err(_) => true,
    }
}

/// The tokens of `s`, already free of whitespace, or the first character
/// that belongs to no class.
pub open spec fn lex_spec(s: Seq<char>) -> Result<Seq<TokenView>, TokenError> {
    match scan_spec(s) {
        Ok(lexemes) => Ok(lexemes.map_values(|l: Seq<char>| token_of(l))),
        Err(e) => Err(e),
    }
}

/// The tokens of a line of text: whitespace removed, then scanned.
pub open spec fn tokens_spec(text: Seq<char>) -> Result<Seq<TokenView>, TokenError> {
    lex_spec(strip_whitespace_spec(text))
}

pub open spec fn views_of(ts: Seq<Token>) -> Seq<TokenView> {
    ts.map_values(|t: Token| t@)
}

/// One of the lexemes made of operator or symbol characters.
pub open spec fn is_fixed_lexeme(l: Seq<char>) -> bool {
    ||| l == seq!['*', '*']
    ||| (l.len() == 1 && (is_operator(l[0]) || is_symbol(l[0])))
}

proof fn lemma_fixed_lexeme_value(l: Seq<char>)
    requires
        is_fixed_lexeme(l),
    ensures
        lexeme_value(l) is Some,
{
    if l.len() == 1 {
        assert(l == seq![l[0]]);
    }
}

proof fn lemma_numbers_fit_at(s: Seq<char>, ls: Seq<Seq<char>>, k: int)
    requires
        scan_spec(s) == Ok::<Seq<Seq<char>>, TokenError>(ls),
        0 <= k < ls.len(),
        is_numeral(ls[k]),
    ensures
        numbers_fit(s) ==> fits_i64(numeral_value(ls[k])),
{
    if numbers_fit(s) {
        let lexemes = scan_spec(s)->Ok_0;
        assert(lexemes == ls);
        assert(is_numeral(lexemes[k]));
        assert(fits_i64(numeral_value(lexemes[k])));
    }
}

/// A lexeme that the scan can finish: a numeral or a fixed lexeme.
pub open spec fn is_lexeme(l: Seq<char>) -> bool {
    is_numeral(l) || is_fixed_lexeme(l)
}

/// The pending lexeme at position `i` can be finished or completed: the
/// class matches it, and a lone minus of class number is followed by a digit.
pub open spec fn pending_ok(s: Seq<char>, i: int, st: ScanState) -> bool {
    st.pending.len() > 0 ==> if st.class == TokenType::Number {
        is_numeral(st.pending) || (st.pending == seq!['-'] && i < s.len() && is_digit(s[i]))
    } else {
        is_fixed_lexeme(st.pending) && lexeme_class(st.pending) == st.class
    }
}

/// A digit after a numeral, or after a lone minus, gives a numeral.
pub(crate) proof fn lemma_numeral_push_digit(l: Seq<char>, c: char)
    requires
        is_numeral(l) || l == seq!['-'],
        is_digit(c),
    ensures
        is_numeral(l.push(c)),
{
    if l[0] == '-' {
        assert(l.push(c).drop_first() =~= l.drop_first().push(c));
    }
    assert(l.push(c)[0] == l[0]);
}

impl Token {
    /// Whether the character after position `current_index` exists and is a
    /// digit.
    pub fn is_next_token_numeric(stream: &Vec<char>, current_index: usize) -> (r: bool)
        requires
            current_index < stream.len(),
        ensures
            r == next_is_digit(stream@, current_index as int),
    {
        if current_index + 1 < stream.len() {
            let ch = stream[current_index + 1];
            '0' <= ch && ch <= '9'
        } else {
            false
        }
    }
}

/// The lexemes of `stream`, each with its class, or the first character
/// that belongs to no class.
fn scan_lexemes(stream: &Vec<char>) -> (r: Result<Vec<(TokenType, Vec<char>)>, TokenError>)
    ensures
        match r {
            Ok(v) => {
                &&& scan_spec(stream@) == Ok::<Seq<Seq<char>>, TokenError>(v@.map_values(|p: (TokenType, Vec<char>)| p.1@))
                &&& forall|k: int|
                    0 <= k < v.len() ==> is_lexeme((#[trigger] v@[k]).1@) && v@[k].0
                        == lexeme_class(v@[k].1@)
            },
            Err(e) => scan_spec(stream@) == Err::<Seq<Seq<char>>, TokenError>(e),
        },
{
    let ghost s = stream@;
    let mut out: Vec<(TokenType, Vec<char>)> = Vec::new();
    let mut blexeme: Vec<char> = Vec::new();
    let mut bttype: TokenType = TokenType::Symbol;
    let ghost mut st = initial_state();
    let mut index: usize = 0;
    while index < stream.len()
        invariant
            s == stream@,
            index <= s.len(),
            scan_spec(s) == scan_from(s, index as int, st),
            st.lexemes == out@.map_values(|p: (TokenType, Vec<char>)| p.1@),
            st.pending == blexeme@,
            st.class == bttype,
            pending_ok(s, index as int, st),
            forall|k: int|
                0 <= k < out.len() ==> is_lexeme((#[trigger] out@[k]).1@) && out@[k].0
                    == lexeme_class(out@[k].1@),
        decreases s.len() - index,
    {
        let ch = stream[index];
        let token_type = match TokenType::get_type(ch) {
            Ok(t) => t,
            Err(e) => {
                return Err(e);
            },
        };
        let ghost nst = step(st, s, index as int, token_type);
        if ch == '-' && bttype != TokenType::Number && Token::is_next_token_numeric(stream, index) {
            if blexeme.len() > 0 {
                out.push((bttype, blexeme));
            }
            blexeme = Vec::new();
            blexeme.push(ch);
            bttype = TokenType::Number;
        } else if token_type == bttype && bttype == TokenType::Number {
            proof {
                if blexeme@.len() > 0 {
                    lemma_numeral_push_digit(blexeme@, ch);
                }
            }
            blexeme.push(ch);
        } else if ch == '*' && blexeme.len() == 1 && blexeme[0] == '*' {
            assert(blexeme@ =~= seq!['*']);
            blexeme.push(ch);
            assert(blexeme@ =~= seq!['*', '*']);
        } else {
            assert(ch != '*' || blexeme@ != seq!['*']);
            if blexeme.len() > 0 {
                out.push((bttype, blexeme));
            }
            blexeme = Vec::new();
            blexeme.push(ch);
            bttype = token_type;
        }
        proof {
            st = nst;
            assert(st.lexemes =~= out@.map_values(|p: (TokenType, Vec<char>)| p.1@));
            assert(st.pending =~= blexeme@);
        }
        index = index + 1;
    }
    if blexeme.len() > 0 {
        out.push((bttype, blexeme));
    }
    proof {
        assert(flushed(st) =~= out@.map_values(|p: (TokenType, Vec<char>)| p.1@));
    }
    Ok(out)
}

impl Token {
    /// The tokens of a line of text: whitespace is removed, then the
    /// characters are scanned; the first character that belongs to no class
    /// ends the scan with an error and no tokens.
    pub fn process_token_stream(token_stream: &String) -> (r: Result<Vec<Token>, TokenError>)
        requires
            numbers_fit(strip_whitespace_spec(token_stream@)),
        ensures
            match r {
                Ok(ts) => {
                    &&& tokens_spec(token_stream@) == Ok::<Seq<TokenView>, TokenError>(
                        views_of(ts@),
                    )
                    &&& forall|k: int| 0 <= k < ts.len() ==> (#[trigger] ts[k])@.wf()
                },
                Err(e) => tokens_spec(token_stream@) == Err::<Seq<TokenView>, TokenError>(e),
            },
    {
        let stripped = strip_whitespace(token_stream.as_str());
        let stream = chars_of(stripped.as_str());
        let lexemes = match scan_lexemes(&stream) {
            Ok(v) => v,
            Err(e) => {
                return Err(e);
            },
        };
        let ghost ls = lexemes@.map_values(|p: (TokenType, Vec<char>)| p.1@);
        let mut token_vector: Vec<Token> = Vec::new();
        let mut i: usize = 0;
        while i < lexemes.len()
            invariant
                i <= lexemes.len(),
                scan_spec(stream@) == Ok::<Seq<Seq<char>>, TokenError>(ls),
                ls == lexemes@.map_values(|p: (TokenType, Vec<char>)| p.1@),
                numbers_fit(stream@),
                forall|k: int|
                    0 <= k < lexemes.len() ==> is_lexeme((#[trigger] lexemes@[k]).1@)
                        && lexemes@[k].0 == lexeme_class(lexemes@[k].1@),
                views_of(token_vector@) == ls.take(i as int).map_values(|l: Seq<char>| token_of(l)),
                token_vector.len() == i,
                forall|k: int| 0 <= k < i ==> (#[trigger] token_vector[k])@.wf(),
            decreases lexemes.len() - i,
        {
            let lexeme = string_of(&lexemes[i].1);
            proof {
                assert(ls[i as int] == lexemes@[i as int].1@);
                if is_fixed_lexeme(lexeme@) {
                    lemma_fixed_lexeme_value(lexeme@);
                } else {
                    lemma_numbers_fit_at(stream@, ls, i as int);
                    lemma_numeral_value(lexeme@);
                }
            }
            let token = Token::new(&lexemes[i].0, &lexeme);
            let ghost before = token_vector@;
            token_vector.push(token);
            proof {
                assert(token_vector@ == before.push(token));
                assert(views_of(before.push(token)) =~= views_of(before).push(token@));
                assert(ls.take(i + 1) =~= ls.take(i as int).push(ls[i as int]));
                assert(ls.take(i + 1).map_values(|l: Seq<char>| token_of(l)) =~= ls.take(
                    i as int,
                ).map_values(|l: Seq<char>| token_of(l)).push(token_of(ls[i as int])));
            }
            i = i + 1;
        }
        assert(ls.take(i as int) =~= ls);
        Ok(token_vector)
    }

    /// Whether every number in the tokens of a line of text fits in an
    /// `i64`; true also where the line holds a character of no class.
    pub fn numbers_fit(token_stream: &String) -> (r: bool)
        ensures
            r == numbers_fit(strip_whitespace_spec(token_stream@)),
    {
        let stripped = strip_whitespace(token_stream.as_str());
        let stream = chars_of(stripped.as_str());
        let lexemes = match scan_lexemes(&stream) {
            Ok(v) => v,
            Err(_) => {
                return true;
            },
        };
        let ghost ls = lexemes@.map_values(|p: (TokenType, Vec<char>)| p.1@);
        let mut i: usize = 0;
        while i < lexemes.len()
            invariant
                i <= lexemes.len(),
                scan_spec(stream@) == Ok::<Seq<Seq<char>>, TokenError>(ls),
                ls == lexemes@.map_values(|p: (TokenType, Vec<char>)| p.1@),
                forall|k: int|
                    0 <= k < lexemes.len() ==> is_lexeme((#[trigger] lexemes@[k]).1@)
                        && lexemes@[k].0 == lexeme_class(lexemes@[k].1@),
                forall|k: int|
                    0 <= k < i && is_numeral(#[trigger] ls[k]) ==> fits_i64(numeral_value(ls[k])),
                stream@ == strip_whitespace_spec(token_stream@),
            decreases lexemes.len() - i,
        {
            assert(ls[i as int] == lexemes@[i as int].1@);
            proof {
                if is_numeral(ls[i as int]) {
                    lemma_numeral_value(ls[i as int]);
                }
            }
            if lexemes[i].0 == TokenType::Number {
                if parse_numeral(&lexemes[i].1).is_none() {
                    proof {
                        lemma_numbers_fit_at(stream@, ls, i as int);
                    }
                    return false;
                }
            }
            i = i + 1;
        }
        true
    }
}

} // verus!
