//! Properties of the lexer as a whole, proved over its specification.

use vstd::prelude::*;
use crate::scanner::{
    flushed, is_fixed_lexeme, lemma_numeral_push_digit, next_is_digit, pending_ok, scan_from,
    scan_spec, step, tokens_spec, ScanState,
};
use crate::text::{is_whitespace, strip_whitespace_spec};
use crate::token::{
    all_digits, char_class, is_digit, is_numeral, is_valid_char, lemma_numeral_value, token_of,
    TokenError, TokenType, TokenView,
};

verus! {

broadcast use vstd::seq_lib::group_seq_properties;

/// Whitespace removal keeps every other character.
proof fn lemma_strip_keeps_non_whitespace(s: Seq<char>)
    requires
        forall|j: int| 0 <= j < s.len() ==> !is_whitespace(#[trigger] s[j]),
    ensures
        strip_whitespace_spec(s) == s,
    decreases s.len(),
{
    if s.len() > 0 {
        let t = s.drop_last();
        lemma_strip_keeps_non_whitespace(t);
        assert(t.push(s.last()) =~= s);
        t.lemma_filter_push(s.last(), |c: char| !is_whitespace(c));
    }
}

/// Whitespace removal drops text made of whitespace alone.
proof fn lemma_strip_all_whitespace(w: Seq<char>)
    requires
        forall|j: int| 0 <= j < w.len() ==> is_whitespace(#[trigger] w[j]),
    ensures
        strip_whitespace_spec(w) == Seq::<char>::empty(),
    decreases w.len(),
{
    if w.len() > 0 {
        let t = w.drop_last();
        lemma_strip_all_whitespace(t);
        assert(t.push(w.last()) =~= w);
        t.lemma_filter_push(w.last(), |c: char| !is_whitespace(c));
    }
}

/// Characters that are whitespace or of some class leave, once the
/// whitespace is removed, only characters of some class.
proof fn lemma_strip_leaves_valid(t: Seq<char>)
    requires
        forall|j: int| 0 <= j < t.len() ==> is_whitespace(#[trigger] t[j]) || is_valid_char(t[j]),
    ensures
        forall|k: int|
            0 <= k < strip_whitespace_spec(t).len() ==> is_valid_char(
                #[trigger] strip_whitespace_spec(t)[k],
            ),
    decreases t.len(),
{
    if t.len() > 0 {
        let u = t.drop_last();
        lemma_strip_leaves_valid(u);
        assert(u.push(t.last()) =~= t);
        u.lemma_filter_push(t.last(), |c: char| !is_whitespace(c));
        let f = strip_whitespace_spec(u);
        assert forall|k: int|
            0 <= k < strip_whitespace_spec(t).len() implies is_valid_char(
            #[trigger] strip_whitespace_spec(t)[k],
        ) by {
            if k < f.len() {
                assert(strip_whitespace_spec(t)[k] == f[k]);
            } else {
                assert(is_valid_char(t[t.len() - 1]));
            }
        }
    } else {
        reveal(Seq::filter);
    }
}

/// Removing whitespace a second time changes nothing.
pub proof fn lemma_strip_idempotent(s: Seq<char>)
    ensures
        strip_whitespace_spec(strip_whitespace_spec(s)) == strip_whitespace_spec(s),
    decreases s.len(),
{
    if s.len() > 0 {
        let t = s.drop_last();
        let x = s.last();
        lemma_strip_idempotent(t);
        assert(t.push(x) =~= s);
        t.lemma_filter_push(x, |c: char| !is_whitespace(c));
        strip_whitespace_spec(t).lemma_filter_push(x, |c: char| !is_whitespace(c));
    }
}

/// Whitespace inserted anywhere in a line, at its start or at its end,
/// leaves its tokens, or its error, as they were.
pub proof fn lemma_whitespace_placement_irrelevant(a: Seq<char>, w: Seq<char>, b: Seq<char>)
    requires
        forall|j: int| 0 <= j < w.len() ==> is_whitespace(#[trigger] w[j]),
    ensures
        tokens_spec(a + w + b) == tokens_spec(a + b),
{
    lemma_strip_all_whitespace(w);
    let pred = |c: char| !is_whitespace(c);
    Seq::filter_distributes_over_add(a + w, b, pred);
    Seq::filter_distributes_over_add(a, w, pred);
    Seq::filter_distributes_over_add(a, b, pred);
    assert(strip_whitespace_spec(a + w + b) =~= strip_whitespace_spec(a + b));
}

proof fn lemma_flushed_flatten(st: ScanState)
    ensures
        flushed(st).flatten() == st.lexemes.flatten() + st.pending,
{
    if st.pending.len() > 0 {
        st.lexemes.lemma_flatten_push(st.pending);
    } else {
        assert(st.lexemes.flatten() + st.pending =~= st.lexemes.flatten());
    }
}

/// Two neighbouring lexemes that the merge rules keep apart: not two
/// numerals, and no lone `*` before a lexeme that starts with `*`.
pub open spec fn separated(x: Seq<char>, y: Seq<char>) -> bool {
    &&& !(is_numeral(x) && is_numeral(y))
    &&& (x == seq!['*'] ==> y[0] != '*')
}

/// What holds of the scan state at each position.
spec fn scan_inv(s: Seq<char>, i: int, st: ScanState) -> bool {
    &&& pending_ok(s, i, st)
    &&& st.lexemes.len() > 0 ==> st.pending.len() > 0
    &&& forall|k: int| 0 <= k < st.lexemes.len() ==> (#[trigger] st.lexemes[k]).len() > 0
    &&& forall|k: int|
        0 <= k < st.lexemes.len() - 1 ==> separated(#[trigger] st.lexemes[k], st.lexemes[k + 1])
    &&& st.lexemes.len() > 0 ==> {
        &&& is_numeral(st.lexemes.last()) ==> st.class != TokenType::Number
        &&& st.lexemes.last() == seq!['*'] ==> st.pending[0] != '*'
    }
}

proof fn lemma_fixed_not_numeral(l: Seq<char>)
    requires
        is_fixed_lexeme(l),
    ensures
        !is_numeral(l),
{
    if l[0] != '-' {
        assert(!is_digit(l[0]));
        assert(!all_digits(l));
    }
}

proof fn lemma_single_char(c: char)
    requires
        is_valid_char(c),
    ensures
        pending_ok(seq![c], 1, ScanState { lexemes: Seq::empty(), pending: seq![c], class: char_class(c)->Ok_0 }),
{
    let l = seq![c];
    if is_digit(c) {
        assert(all_digits(l));
        lemma_numeral_value(l);
    } else {
        lemma_fixed_not_numeral(l);
    }
}

/// Reading one character of some class keeps the invariant.
proof fn lemma_step_inv(s: Seq<char>, i: int, st: ScanState)
    requires
        0 <= i < s.len(),
        is_valid_char(s[i]),
        scan_inv(s, i, st),
    ensures
        scan_inv(s, i + 1, step(st, s, i, char_class(s[i])->Ok_0)),
{
    let c = s[i];
    let cls = char_class(c)->Ok_0;
    let nst = step(st, s, i, cls);
    if st.pending.len() > 0 && st.class != TokenType::Number {
        lemma_fixed_not_numeral(st.pending);
    }
    if c == '-' && st.class != TokenType::Number && next_is_digit(s, i) {
        assert(pending_ok(s, i + 1, nst));
    } else if cls == st.class && st.class == TokenType::Number {
        if st.pending.len() > 0 {
            lemma_numeral_push_digit(st.pending, c);
        } else {
            assert(all_digits(seq![c]));
            assert(st.pending.push(c) =~= seq![c]);
        }
    } else if c == '*' && st.pending == seq!['*'] {
        assert(nst.pending =~= seq!['*', '*']);
        lemma_fixed_not_numeral(nst.pending);
    } else {
        lemma_single_char(c);
        assert(pending_ok(s, i + 1, nst));
    }
    if st.pending.len() > 0 {
        assert(flushed(st).last() == st.pending);
        if st.lexemes.len() > 0 {
            assert(flushed(st)[st.lexemes.len() - 1] == st.lexemes.last());
        }
    }
}

/// From a state where the invariant holds, a scan over characters of some
/// class succeeds; its lexemes are non-empty, kept apart by the merge rules
/// and, joined, give what was finished, what was pending and the rest of the
/// text.
proof fn lemma_scan_from_valid(s: Seq<char>, i: int, st: ScanState)
    requires
        0 <= i <= s.len(),
        forall|j: int| i <= j < s.len() ==> is_valid_char(#[trigger] s[j]),
        scan_inv(s, i, st),
    ensures
        scan_from(s, i, st) is Ok,
        forall|k: int|
            0 <= k < scan_from(s, i, st)->Ok_0.len() ==> (#[trigger] scan_from(
                s,
                i,
                st,
            )->Ok_0[k]).len() > 0,
        forall|k: int|
            0 <= k < scan_from(s, i, st)->Ok_0.len() - 1 ==> separated(
                #[trigger] scan_from(s, i, st)->Ok_0[k],
                scan_from(s, i, st)->Ok_0[k + 1],
            ),
        scan_from(s, i, st)->Ok_0.flatten() == st.lexemes.flatten() + st.pending + s.subrange(
            i,
            s.len() as int,
        ),
    decreases s.len() - i,
{
    lemma_flushed_flatten(st);
    if i >= s.len() {
        assert(s.subrange(i, s.len() as int) =~= Seq::<char>::empty());
        assert(st.lexemes.flatten() + st.pending + Seq::<char>::empty() =~= st.lexemes.flatten()
            + st.pending);
        if st.pending.len() > 0 {
            if st.class != TokenType::Number {
                lemma_fixed_not_numeral(st.pending);
            }
            let r = flushed(st);
            assert(r.last() == st.pending);
            if st.lexemes.len() > 0 {
                assert(r[st.lexemes.len() - 1] == st.lexemes.last());
            }
            assert forall|k: int| 0 <= k < r.len() - 1 implies separated(
                #[trigger] r[k],
                r[k + 1],
            ) by {
                if k < st.lexemes.len() - 1 {
                    assert(r[k] == st.lexemes[k] && r[k + 1] == st.lexemes[k + 1]);
                }
            }
        }
    } else {
        let cls = char_class(s[i])->Ok_0;
        let nst = step(st, s, i, cls);
        lemma_step_inv(s, i, st);
        assert(nst.lexemes.flatten() + nst.pending =~= st.lexemes.flatten() + st.pending + seq![
            s[i],
        ]);
        lemma_scan_from_valid(s, i + 1, nst);
        assert(s.subrange(i, s.len() as int) =~= seq![s[i]] + s.subrange(i + 1, s.len() as int));
        assert(nst.lexemes.flatten() + nst.pending + s.subrange(i + 1, s.len() as int)
            =~= st.lexemes.flatten() + st.pending + s.subrange(i, s.len() as int));
    }
}

proof fn lemma_separated_tokens(x: Seq<char>, y: Seq<char>)
    requires
        separated(x, y),
    ensures
        !(token_of(x).ttype == TokenType::Number && token_of(y).ttype == TokenType::Number),
        token_of(x).lexeme == seq!['*'] ==> token_of(y).lexeme[0] != '*',
{
    if token_of(x).ttype == TokenType::Number {
        assert(is_numeral(x));
    }
    if token_of(y).ttype == TokenType::Number {
        assert(is_numeral(y));
    }
}

/// A line made only of digits, operators and symbols always scans: every
/// token has a non-empty lexeme, and the lexemes, joined in order, give the
/// line back. The runs are maximal: no two neighbouring tokens are both
/// numbers, and a lone `*` is never followed by a token that starts with `*`.
pub proof fn lemma_valid_text_scans(s: Seq<char>)
    requires
        forall|j: int| 0 <= j < s.len() ==> is_valid_char(#[trigger] s[j]),
    ensures
        tokens_spec(s) is Ok,
        forall|k: int|
            0 <= k < tokens_spec(s)->Ok_0.len() ==> (#[trigger] tokens_spec(s)->Ok_0[k]).lexeme.len()
                > 0,
        forall|k: int|
            0 <= k < tokens_spec(s)->Ok_0.len() - 1 ==> !((#[trigger] tokens_spec(s)->Ok_0[k]).ttype
                == TokenType::Number && tokens_spec(s)->Ok_0[k + 1].ttype == TokenType::Number),
        forall|k: int|
            0 <= k < tokens_spec(s)->Ok_0.len() - 1 && (#[trigger] tokens_spec(s)->Ok_0[k]).lexeme
                == seq!['*'] ==> tokens_spec(s)->Ok_0[k + 1].lexeme[0] != '*',
        tokens_spec(s)->Ok_0.map_values(|t: TokenView| t.lexeme).flatten() == s,
{
    assert forall|j: int| 0 <= j < s.len() implies !is_whitespace(#[trigger] s[j]) by {
        assert(is_valid_char(s[j]));
    }
    lemma_strip_keeps_non_whitespace(s);
    let st = ScanState { lexemes: Seq::empty(), pending: Seq::empty(), class: TokenType::Symbol };
    lemma_scan_from_valid(s, 0, st);
    let ls = scan_spec(s)->Ok_0;
    let ts = tokens_spec(s)->Ok_0;
    assert(ts == ls.map_values(|l: Seq<char>| token_of(l)));
    assert(ts.map_values(|t: TokenView| t.lexeme) =~= ls);
    assert(Seq::<Seq<char>>::empty().flatten() + Seq::<char>::empty() + s.subrange(0, s.len() as int)
        =~= s);
    assert forall|k: int| 0 <= k < ts.len() - 1 implies !((#[trigger] ts[k]).ttype
        == TokenType::Number && ts[k + 1].ttype == TokenType::Number) && (ts[k].lexeme
        == seq!['*'] ==> ts[k + 1].lexeme[0] != '*') by {
        lemma_separated_tokens(ls[k], ls[k + 1]);
    }
}

/// The scan up to the first character of no class fails on that character.
proof fn lemma_scan_from_invalid(s: Seq<char>, i: int, p: int, st: ScanState)
    requires
        0 <= i <= p < s.len(),
        !is_valid_char(s[p]),
        forall|j: int| i <= j < p ==> is_valid_char(#[trigger] s[j]),
    ensures
        scan_from(s, i, st) == Err::<Seq<Seq<char>>, TokenError>(
            TokenError::InvalidCharacter(s[p]),
        ),
    decreases p - i,
{
    if i < p {
        let cls = char_class(s[i])->Ok_0;
        lemma_scan_from_invalid(s, i + 1, p, step(st, s, i, cls));
    }
}

/// A line with a character that is neither whitespace nor of any class
/// fails with the first such character, and yields no tokens.
pub proof fn lemma_invalid_char_fails(text: Seq<char>, p: int)
    requires
        0 <= p < text.len(),
        !is_whitespace(text[p]),
        !is_valid_char(text[p]),
        forall|j: int| 0 <= j < p ==> is_whitespace(#[trigger] text[j]) || is_valid_char(text[j]),
    ensures
        tokens_spec(text) == Err::<Seq<TokenView>, TokenError>(
            TokenError::InvalidCharacter(text[p]),
        ),
{
    let pred = |c: char| !is_whitespace(c);
    let before = text.take(p);
    let after = text.subrange(p + 1, text.len() as int);
    assert(text =~= before + seq![text[p]] + after);
    Seq::filter_distributes_over_add(before + seq![text[p]], after, pred);
    Seq::filter_distributes_over_add(before, seq![text[p]], pred);
    Seq::<char>::empty().lemma_filter_push(text[p], pred);
    assert(seq![text[p]] =~= Seq::<char>::empty().push(text[p]));
    lemma_strip_leaves_valid(before);
    let s = strip_whitespace_spec(text);
    let q = strip_whitespace_spec(before).len() as int;
    assert(s =~= strip_whitespace_spec(before) + seq![text[p]] + strip_whitespace_spec(after));
    assert(s[q] == text[p]);
    assert forall|j: int| 0 <= j < q implies is_valid_char(#[trigger] s[j]) by {
        assert(s[j] == strip_whitespace_spec(before)[j]);
    }
    let st = ScanState { lexemes: Seq::empty(), pending: Seq::empty(), class: TokenType::Symbol };
    lemma_scan_from_invalid(s, 0, q, st);
}

} // verus!
