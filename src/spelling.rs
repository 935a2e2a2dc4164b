//! Tokens spelled back out as text, and the law that tokenizing that text
//! gives the same tokens.
use vstd::prelude::*;
use crate::lexer::{
    closed_end, is_digit, lemma_run_end, literal_parts, number_of, pow10, prefixed, run_end, scan,
    single, stops, tokenize, white_space, word_token, Run, Token, TokenView,
};
use crate::number::Number;

verus! {

pub open spec fn digit_char(d: int) -> char {
    if d == 0 {
        '0'
    } else if d == 1 {
        '1'
    } else if d == 2 {
        '2'
    } else if d == 3 {
        '3'
    } else if d == 4 {
        '4'
    } else if d == 5 {
        '5'
    } else if d == 6 {
        '6'
    } else if d == 7 {
        '7'
    } else if d == 8 {
        '8'
    } else {
        '9'
    }
}

/// The decimal digits of `m`.
pub open spec fn digits(m: nat) -> Seq<char>
    decreases m,
{
    if m < 10 {
        seq![digit_char(m as int)]
    } else {
        digits(m / 10).push(digit_char((m % 10) as int))
    }
}

/// The text of a keyword token.
pub open spec fn keyword_text(m: Token) -> Option<Seq<char>> {
    match m {
        Token::True => Some("true"@),
        Token::False => Some("false"@),
        Token::Nil => Some("none"@),
        Token::And => Some("and"@),
        Token::Or => Some("or"@),
        Token::Not => Some("not"@),
        Token::Def => Some("def"@),
        Token::Let => Some("let"@),
        Token::Try => Some("try"@),
        Token::Catch => Some("catch"@),
        Token::Finally => Some("finally"@),
        Token::Throw => Some("throw"@),
        Token::Loop => Some("loop"@),
        Token::Do => Some("do"@),
        _ => None,
    }
}

/// The text of a punctuation or operator token.
pub open spec fn sign_text(m: Token) -> Option<Seq<char>> {
    match m {
        Token::TypeDelim => Some(seq![':']),
        Token::LeftParen => Some(seq!['(']),
        Token::RightParen => Some(seq![')']),
        Token::Appl => Some(seq!['$']),
        Token::AnonFn => Some(seq!['\\']),
        Token::Add => Some(seq!['+']),
        Token::Divide => Some(seq!['/']),
        Token::Multiply => Some(seq!['*']),
        Token::Equal => Some(seq!['=']),
        Token::Subtract => Some(seq!['-']),
        Token::Assign => Some(seq!['-', '>']),
        Token::GreaterThan => Some(seq!['>']),
        Token::GreaterThanOrEqual => Some(seq!['>', '=']),
        Token::LessThan => Some(seq!['<']),
        Token::LessThanOrEqual => Some(seq!['<', '=']),
        _ => None,
    }
}

/// Whether `c` can only begin a word.
pub open spec fn starts_word(c: char) -> bool {
    !(c == '\n' || c == ' ' || c == '\t' || c == '\r' || c == '"' || c == '#' || single(c) is Some
        || c == '-' || c == '>' || c == '<' || is_digit(c))
}

/// A text that the tokenizer reads as one word.
pub open spec fn is_word(w: Seq<char>) -> bool {
    w.len() > 0 && starts_word(w[0]) && forall|k: int|
        1 <= k < w.len() ==> !stops(Run::Word, #[trigger] w[k])
}

/// The text of a token.
pub open spec fn spelling(t: TokenView) -> Seq<char> {
    match t {
        TokenView::Symbol(w) => w,
        TokenView::Str(w) => w,
        TokenView::TypeDecl(w) => w,
        TokenView::Mark(m) => if m is Num {
            digits(m->Num_0.num_spec() as nat)
        } else if keyword_text(m) is Some {
            keyword_text(m)->0
        } else if sign_text(m) is Some {
            sign_text(m)->0
        } else {
            seq![]
        },
    }
}

/// Tokens that keep their spelling: words, closed string literals, whole
/// numbers, keywords, punctuation and operators.
pub open spec fn spellable(t: TokenView) -> bool {
    match t {
        TokenView::Symbol(w) => is_word(w) && word_token(w) == t,
        TokenView::TypeDecl(w) => is_word(w) && word_token(w) == t,
        TokenView::Str(w) => w.len() >= 2 && w[0] == '"' && w.last() == '"' && forall|k: int|
            1 <= k < w.len() - 1 ==> #[trigger] w[k] != '"',
        TokenView::Mark(m) => if m is Num {
            m->Num_0.den_spec() == 1 && 0 <= m->Num_0.num_spec()
        } else {
            keyword_text(m) is Some || sign_text(m) is Some
        },
    }
}

/// The spellings of the tokens, each followed by a space.
pub open spec fn spell_all(ts: Seq<TokenView>) -> Seq<char>
    decreases ts.len(),
{
    if ts.len() == 0 {
        seq![]
    } else {
        spelling(ts[0]) + seq![' '] + spell_all(ts.drop_first())
    }
}

proof fn lemma_digits(m: nat)
    ensures
        digits(m).len() > 0,
        forall|k: int| 0 <= k < digits(m).len() ==> is_digit(#[trigger] digits(m)[k]),
        literal_parts(digits(m)) == (m as int, 0nat, 0nat),
    decreases m,
{
    if m >= 10 {
        lemma_digits(m / 10);
        lemma_digit_char((m % 10) as int);
        assert(digits(m).drop_last() =~= digits(m / 10));
        assert(digits(m)[digits(m).len() - 1] == digit_char((m % 10) as int));
        assert(m == (m / 10) * 10 + m % 10);
    } else {
        lemma_digit_char(m as int);
        assert(digits(m).drop_last() =~= Seq::<char>::empty());
        assert(literal_parts(Seq::<char>::empty()) == (0int, 0nat, 0nat));
    }
}

proof fn lemma_digit_char(d: int)
    requires
        0 <= d < 10,
    ensures
        is_digit(digit_char(d)),
        digit_char(d) != '.',
        digit_char(d) as int - '0' as int == d,
{
}

proof fn lemma_keywords(m: Token)
    requires
        keyword_text(m) is Some,
    ensures
        is_word(keyword_text(m)->0),
        word_token(keyword_text(m)->0) == TokenView::Mark(m),
{
    reveal_strlit("true");
    reveal_strlit("false");
    reveal_strlit("none");
    reveal_strlit("and");
    reveal_strlit("or");
    reveal_strlit("not");
    reveal_strlit("def");
    reveal_strlit("let");
    reveal_strlit("try");
    reveal_strlit("catch");
    reveal_strlit("finally");
    reveal_strlit("throw");
    reveal_strlit("loop");
    reveal_strlit("do");
    reveal_strlit("num");
    reveal_strlit("str");
    reveal_strlit("_");
    reveal_strlit("bool");
    assert("true"@.len() == 4 && "true"@[0] == 't' && "true"@[1] == 'r');
    assert("false"@.len() == 5 && "false"@[0] == 'f' && "false"@[1] == 'a');
    assert("none"@.len() == 4 && "none"@[0] == 'n' && "none"@[1] == 'o');
    assert("and"@.len() == 3 && "and"@[0] == 'a' && "and"@[1] == 'n');
    assert("or"@.len() == 2 && "or"@[0] == 'o' && "or"@[1] == 'r');
    assert("not"@.len() == 3 && "not"@[0] == 'n' && "not"@[1] == 'o');
    assert("def"@.len() == 3 && "def"@[0] == 'd' && "def"@[1] == 'e');
    assert("let"@.len() == 3 && "let"@[0] == 'l' && "let"@[1] == 'e');
    assert("try"@.len() == 3 && "try"@[0] == 't' && "try"@[1] == 'r');
    assert("catch"@.len() == 5 && "catch"@[0] == 'c' && "catch"@[1] == 'a');
    assert("finally"@.len() == 7 && "finally"@[0] == 'f' && "finally"@[1] == 'i');
    assert("throw"@.len() == 5 && "throw"@[0] == 't' && "throw"@[1] == 'h');
    assert("loop"@.len() == 4 && "loop"@[0] == 'l' && "loop"@[1] == 'o');
    assert("do"@.len() == 2 && "do"@[0] == 'd' && "do"@[1] == 'o');
    assert("num"@.len() == 3 && "num"@[0] == 'n' && "num"@[1] == 'u');
    assert("str"@.len() == 3 && "str"@[0] == 's' && "str"@[1] == 't');
    assert("_"@.len() == 1 && "_"@[0] == '_');
    assert("bool"@.len() == 4 && "bool"@[0] == 'b' && "bool"@[1] == 'o');
}

proof fn lemma_run_end_at(s: Seq<char>, a: int, b: int, run: Run)
    requires
        0 <= a <= b < s.len(),
        stops(run, s[b]),
        forall|k: int| a <= k < b ==> !stops(run, #[trigger] s[k]),
    ensures
        run_end(s, a, run) == b,
    decreases b - a,
{
    if a < b {
        lemma_run_end_at(s, a + 1, b, run);
    }
}

/// One spellable token at `p`, followed by a space, scans as itself.
proof fn lemma_token_at(s: Seq<char>, p: int, t: TokenView)
    requires
        spellable(t),
        0 <= p,
        p + spelling(t).len() < s.len(),
        s.subrange(p, p + spelling(t).len()) == spelling(t),
        s[p + spelling(t).len()] == ' ',
    ensures
        scan(s, p, false) == prefixed(seq![t], scan(s, p + spelling(t).len(), false)),
{
    let w = spelling(t);
    let e = p + w.len();
    assert(forall|k: int| 0 <= k < w.len() ==> s[p + k] == #[trigger] w[k]) by {
        assert forall|k: int| 0 <= k < w.len() implies s[p + k] == #[trigger] w[k] by {
            assert(s.subrange(p, e)[k] == s[p + k]);
        }
    }
    assert(white_space(' '));
    match t {
        TokenView::Str(_) => {
            assert(s[p] == '"');
            assert forall|k: int| p + 1 <= k < e - 1 implies !stops(Run::Quoted, #[trigger] s[k]) by {
                assert(s[p + (k - p)] == w[k - p]);
            }
            assert(s[p + (w.len() - 1)] == w[w.len() - 1]);
            lemma_run_end_at(s, p + 1, e - 1, Run::Quoted);
            assert(closed_end(s, p + 1, Run::Quoted) == e);
            assert(s.subrange(p, e) == w);
            assert(scan(s, p, false) == prefixed(seq![TokenView::Str(s.subrange(p, e))], scan(s, e, false)));
        },
        TokenView::Mark(m) => {
            if m is Num {
                let n = m->Num_0;
                lemma_digits(n.num_spec() as nat);
                Number::lemma_whole(n);
                assert forall|k: int| p + 1 <= k < e implies !stops(Run::Numeral, #[trigger] s[k]) by {
                    assert(s[p + (k - p)] == w[k - p]);
                }
                lemma_run_end_at(s, p + 1, e, Run::Numeral);
                assert(s[p + 0] == w[0]);
                assert(is_digit(s[p]));
                assert(s.subrange(p, e) == w);
                assert(pow10(0) == 1);
                assert(number_of(s.subrange(p, e)) == Ok::<Number, crate::lexer::LexError>(n));
                assert(scan(s, p, false) == prefixed(seq![t], scan(s, e, false)));
            } else if keyword_text(m) is Some {
                lemma_keywords(m);
                assert forall|k: int| p + 1 <= k < e implies !stops(Run::Word, #[trigger] s[k]) by {
                    assert(s[p + (k - p)] == w[k - p]);
                }
                lemma_run_end_at(s, p + 1, e, Run::Word);
                assert(s.subrange(p, e) == w);
                assert(scan(s, p, false) == prefixed(seq![t], scan(s, e, false)));
            } else {
                if w.len() == 2 {
                    assert(s[p + 1] == w[1]);
                }
                assert(scan(s, p, false) == prefixed(seq![t], scan(s, e, false)));
            }
        },
        _ => {
            assert forall|k: int| p + 1 <= k < e implies !stops(Run::Word, #[trigger] s[k]) by {
                assert(s[p + (k - p)] == w[k - p]);
            }
            lemma_run_end_at(s, p + 1, e, Run::Word);
            assert(s.subrange(p, e) == w);
            assert(scan(s, p, false) == prefixed(seq![t], scan(s, e, false)));
        },
    }
}

proof fn lemma_spelled(s: Seq<char>, p: int, ts: Seq<TokenView>)
    requires
        0 <= p <= s.len(),
        s.subrange(p, s.len() as int) == spell_all(ts),
        forall|k: int| 0 <= k < ts.len() ==> spellable(#[trigger] ts[k]),
    ensures
        scan(s, p, false) == Ok::<Seq<TokenView>, crate::lexer::LexError>(
            ts.push(TokenView::Mark(Token::EOF)),
        ),
    decreases ts.len(),
{
    if ts.len() == 0 {
        assert(ts.push(TokenView::Mark(Token::EOF)) =~= seq![TokenView::Mark(Token::EOF)]);
    } else {
        let t = ts[0];
        let rest = ts.drop_first();
        let w = spelling(t);
        let e = p + w.len();
        let tail = spell_all(rest);
        assert(spell_all(ts) == w + seq![' '] + tail);
        assert(s.subrange(p, e) =~= w) by {
            assert forall|k: int| 0 <= k < w.len() implies s.subrange(p, e)[k] == w[k] by {
                assert(s.subrange(p, s.len() as int)[k] == spell_all(ts)[k]);
            }
        }
        assert(s[e] == ' ') by {
            assert(s.subrange(p, s.len() as int)[w.len() as int] == spell_all(ts)[w.len() as int]);
        }
        assert(s.subrange(e + 1, s.len() as int) =~= tail) by {
            assert forall|k: int| 0 <= k < tail.len() implies s.subrange(e + 1, s.len() as int)[k]
                == tail[k] by {
                assert(s.subrange(p, s.len() as int)[w.len() + 1 + k] == spell_all(ts)[w.len() + 1
                    + k]);
            }
        }
        assert forall|k: int| 0 <= k < rest.len() implies spellable(#[trigger] rest[k]) by {
            assert(rest[k] == ts[k + 1]);
        }
        lemma_token_at(s, p, t);
        lemma_spelled(s, e + 1, rest);
        assert(scan(s, e, false) == scan(s, e + 1, false));
        assert(seq![t] + rest.push(TokenView::Mark(Token::EOF)) =~= ts.push(
            TokenView::Mark(Token::EOF),
        ));
    }
}

/// Tokens that keep their spelling, spelled out with a space after each,
/// tokenize to the same tokens followed by the end marker.
pub proof fn law_respelling_round_trip(ts: Seq<TokenView>)
    requires
        forall|k: int| 0 <= k < ts.len() ==> spellable(#[trigger] ts[k]),
    ensures
        tokenize(spell_all(ts)) == Ok::<Seq<TokenView>, crate::lexer::LexError>(
            ts.push(TokenView::Mark(Token::EOF)),
        ),
{
    let s = spell_all(ts);
    assert(s.subrange(0, s.len() as int) =~= s);
    lemma_spelled(s, 0, ts);
}

} // verus!
