//! Laws on comments and indentation tokens of the tokenizer.
use vstd::prelude::*;
use crate::lexer::{
    char_at, closed_end, is_blank, is_digit, lemma_run_end, number_of, prefixed, run_end, scan, single,
    tokenize, word_token, Run, Token, TokenView,
};

verus! {

pub open spec fn count(ts: Seq<TokenView>, t: Token) -> nat
    decreases ts.len(),
{
    if ts.len() == 0 {
        0
    } else {
        count(ts.drop_first(), t) + if ts[0] == TokenView::Mark(t) {
            1nat
        } else {
            0nat
        }
    }
}

/// Each `Dedent` closes an open block: starting open or not as `open` says,
/// every `Indent` opens one, and a `Dedent` comes only while one is open.
pub open spec fn dedents_close(ts: Seq<TokenView>, open: bool) -> bool
    decreases ts.len(),
{
    if ts.len() == 0 {
        true
    } else if ts[0] == TokenView::Mark(Token::Indent) {
        dedents_close(ts.drop_first(), true)
    } else if ts[0] == TokenView::Mark(Token::Dedent) {
        open && dedents_close(ts.drop_first(), false)
    } else {
        dedents_close(ts.drop_first(), open)
    }
}

/// Balanced indentation: no `Indent` while a block is open, and no block
/// open at the end.
pub open spec fn indents_closed(ts: Seq<TokenView>, open: bool) -> bool
    decreases ts.len(),
{
    if ts.len() == 0 {
        !open
    } else if ts[0] == TokenView::Mark(Token::Indent) {
        !open && indents_closed(ts.drop_first(), true)
    } else if ts[0] == TokenView::Mark(Token::Dedent) {
        indents_closed(ts.drop_first(), false)
    } else {
        indents_closed(ts.drop_first(), open)
    }
}

proof fn lemma_front(t: TokenView, rest: Seq<TokenView>)
    ensures
        (seq![t] + rest).drop_first() == rest,
        (seq![t] + rest)[0] == t,
        (seq![t] + rest).len() > 0,
{
    assert((seq![t] + rest).drop_first() =~= rest);
}

proof fn lemma_scan_step(s: Seq<char>, i: int, ind: bool, t: TokenView, j: int, ind2: bool)
    requires
        scan(s, i, ind) == prefixed(seq![t], scan(s, j, ind2)),
        scan(s, j, ind2) is Ok ==> dedents_close(scan(s, j, ind2)->Ok_0, ind2),
        t == TokenView::Mark(Token::Indent) ==> ind2,
        t == TokenView::Mark(Token::Dedent) ==> ind && !ind2,
        t != TokenView::Mark(Token::Indent) && t != TokenView::Mark(Token::Dedent) ==> ind2 == ind,
    ensures
        scan(s, i, ind) is Ok ==> dedents_close(scan(s, i, ind)->Ok_0, ind),
{
    if let Ok(rest) = scan(s, j, ind2) {
        lemma_front(t, rest);
    }
}

/// The scanner emits a `Dedent` only while an indented block is open.
pub proof fn lemma_scan_dedents_close(s: Seq<char>, i: int, ind: bool)
    ensures
        scan(s, i, ind) is Ok ==> dedents_close(scan(s, i, ind)->Ok_0, ind),
    decreases s.len() - i,
{
    if i < 0 || i >= s.len() {
        assert(seq![TokenView::Mark(Token::EOF)].drop_first() =~= Seq::<TokenView>::empty());
        assert(dedents_close(Seq::<TokenView>::empty(), ind));
        assert(dedents_close(seq![TokenView::Mark(Token::EOF)], ind));
    } else {
        let c = s[i];
        if c == '\n' {
            if i + 1 < s.len() && is_blank(s[i + 1]) {
                lemma_scan_dedents_close(s, i + 1, true);
                lemma_scan_step(s, i, ind, TokenView::Mark(Token::Indent), i + 1, true);
            } else if ind {
                lemma_scan_dedents_close(s, i + 1, false);
                lemma_scan_step(s, i, ind, TokenView::Mark(Token::Dedent), i + 1, false);
            } else {
                lemma_scan_dedents_close(s, i + 1, ind);
                lemma_scan_step(s, i, ind, TokenView::Mark(Token::Newline), i + 1, ind);
            }
        } else if c == ' ' || c == '\t' || c == '\r' {
            lemma_scan_dedents_close(s, i + 1, ind);
        } else if c == '"' {
            lemma_run_end(s, i + 1, Run::Quoted);
            let j = closed_end(s, i + 1, Run::Quoted);
            lemma_scan_dedents_close(s, j, ind);
            lemma_scan_step(s, i, ind, TokenView::Str(s.subrange(i, j)), j, ind);
        } else if c == '#' {
            lemma_run_end(s, i + 1, Run::Comment);
            lemma_scan_dedents_close(s, closed_end(s, i + 1, Run::Comment), ind);
        } else if single(c) is Some {
            lemma_scan_dedents_close(s, i + 1, ind);
            lemma_scan_step(s, i, ind, TokenView::Mark(single(c)->0), i + 1, ind);
        } else if c == '-' || c == '>' || c == '<' {
            let two = char_at(s, i + 1, if c == '-' {
                '>'
            } else {
                '='
            });
            let t = if c == '-' {
                if two {
                    Token::Assign
                } else {
                    Token::Subtract
                }
            } else if c == '>' {
                if two {
                    Token::GreaterThanOrEqual
                } else {
                    Token::GreaterThan
                }
            } else if two {
                Token::LessThanOrEqual
            } else {
                Token::LessThan
            };
            let j = if two {
                i + 2
            } else {
                i + 1
            };
            lemma_scan_dedents_close(s, j, ind);
            lemma_scan_step(s, i, ind, TokenView::Mark(t), j, ind);
            assert(scan(s, i, ind) is Ok ==> dedents_close(scan(s, i, ind)->Ok_0, ind));
        } else if is_digit(c) {
            lemma_run_end(s, i + 1, Run::Numeral);
            let j = run_end(s, i + 1, Run::Numeral);
            if let Ok(n) = number_of(s.subrange(i, j)) {
                lemma_scan_dedents_close(s, j, ind);
                lemma_scan_step(s, i, ind, TokenView::Mark(Token::Num(n)), j, ind);
            }
        } else {
            lemma_run_end(s, i + 1, Run::Word);
            let j = run_end(s, i + 1, Run::Word);
            lemma_scan_dedents_close(s, j, ind);
            lemma_scan_step(s, i, ind, word_token(s.subrange(i, j)), j, ind);
        }
    }
}

proof fn lemma_counts(ts: Seq<TokenView>, open: bool)
    requires
        dedents_close(ts, open),
    ensures
        count(ts, Token::Dedent) <= count(ts, Token::Indent) + if open {
            1nat
        } else {
            0nat
        },
        indents_closed(ts, open) ==> count(ts, Token::Indent) + (if open {
            1nat
        } else {
            0nat
        }) == count(ts, Token::Dedent),
    decreases ts.len(),
{
    if ts.len() > 0 {
        if ts[0] == TokenView::Mark(Token::Indent) {
            lemma_counts(ts.drop_first(), true);
        } else if ts[0] == TokenView::Mark(Token::Dedent) {
            lemma_counts(ts.drop_first(), false);
        } else {
            lemma_counts(ts.drop_first(), open);
        }
    }
}

/// Of any source, the tokens hold no more `Dedent`s than `Indent`s; with
/// balanced indentation they hold as many. An indented block still open at
/// the end of the text gets no closing `Dedent`.
pub proof fn law_indents_match_dedents(s: Seq<char>)
    requires
        tokenize(s) is Ok,
    ensures
        count(tokenize(s)->Ok_0, Token::Dedent) <= count(tokenize(s)->Ok_0, Token::Indent),
        indents_closed(tokenize(s)->Ok_0, false) ==> count(tokenize(s)->Ok_0, Token::Indent)
            == count(tokenize(s)->Ok_0, Token::Dedent),
{
    lemma_scan_dedents_close(s, 0, false);
    lemma_counts(tokenize(s)->Ok_0, false);
}

/// A line that starts with `#` is a comment through its end: its only
/// token is the end marker.
pub proof fn law_comment_line(s: Seq<char>)
    requires
        s.len() > 0,
        s[0] == '#',
        forall|k: int| 0 <= k < s.len() ==> #[trigger] s[k] != '\n',
    ensures
        tokenize(s) == Ok::<Seq<TokenView>, crate::lexer::LexError>(
            seq![TokenView::Mark(Token::EOF)],
        ),
{
    lemma_run_end(s, 1, Run::Comment);
    assert(closed_end(s, 1, Run::Comment) == s.len());
    assert(scan(s, s.len() as int, false) == Ok::<Seq<TokenView>, crate::lexer::LexError>(
        seq![TokenView::Mark(Token::EOF)],
    ));
}

} // verus!
