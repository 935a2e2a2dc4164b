//! The tokenizer: source text to a sequence of tokens.
use vstd::prelude::*;
use vstd::string::StrSliceExecFns;
use crate::number::Number;

verus! {

/// A lexical unit of the language.
#[derive(Debug, PartialEq, Clone)]
pub enum Token {
    // Literals
    Symbol(String),
    Str(String),
    Num(Number),
    True,
    False,
    Nil,
    // Collections
    Sequence,
    Hash,
    Group,
    Choice,
    // Operators
    Add,
    Subtract,
    Divide,
    Multiply,
    GreaterThan,
    LessThan,
    GreaterThanOrEqual,
    LessThanOrEqual,
    Equal,
    And,
    Or,
    Not,
    // Types
    TypeDecl(String),
    TypeDelim,
    // Variables/Functions
    Def,
    Assign,
    AnonFn,
    // Special Expressions
    Do,
    Let,
    If,
    Loop,
    // Blocks
    Indent,
    Dedent,
    LeftParen,
    RightParen,
    Appl,
    Newline,
    // Exception handling
    Try,
    Catch,
    Finally,
    Throw,
    // End of input
    EOF,
}

impl Token {
    /// A copy of the token.
    pub fn duplicate(&self) -> (r: Token)
        ensures
            r == *self,
    {
        match self {
            Token::Symbol(s) => Token::Symbol(s.clone()),
            Token::Str(s) => Token::Str(s.clone()),
            Token::Num(n) => Token::Num(*n),
            Token::True => Token::True,
            Token::False => Token::False,
            Token::Nil => Token::Nil,
            Token::Sequence => Token::Sequence,
            Token::Hash => Token::Hash,
            Token::Group => Token::Group,
            Token::Choice => Token::Choice,
            Token::Add => Token::Add,
            Token::Subtract => Token::Subtract,
            Token::Divide => Token::Divide,
            Token::Multiply => Token::Multiply,
            Token::GreaterThan => Token::GreaterThan,
            Token::LessThan => Token::LessThan,
            Token::GreaterThanOrEqual => Token::GreaterThanOrEqual,
            Token::LessThanOrEqual => Token::LessThanOrEqual,
            Token::Equal => Token::Equal,
            Token::And => Token::And,
            Token::Or => Token::Or,
            Token::Not => Token::Not,
            Token::TypeDecl(s) => Token::TypeDecl(s.clone()),
            Token::TypeDelim => Token::TypeDelim,
            Token::Def => Token::Def,
            Token::Assign => Token::Assign,
            Token::AnonFn => Token::AnonFn,
            Token::Do => Token::Do,
            Token::Let => Token::Let,
            Token::If => Token::If,
            Token::Loop => Token::Loop,
            Token::Indent => Token::Indent,
            Token::Dedent => Token::Dedent,
            Token::LeftParen => Token::LeftParen,
            Token::RightParen => Token::RightParen,
            Token::Appl => Token::Appl,
            Token::Newline => Token::Newline,
            Token::Try => Token::Try,
            Token::Catch => Token::Catch,
            Token::Finally => Token::Finally,
            Token::Throw => Token::Throw,
            Token::EOF => Token::EOF,
        }
    }
}

/// Why a source text has no token sequence.
#[derive(Debug, Clone, Copy, PartialEq, Eq, Structural)]
pub enum LexError {
    /// A numeric literal with more than one decimal point.
    MalformedNumber,
    /// A numeric literal whose exact value does not fit a `Number`.
    NumberOutOfRange,
}

/// A token as a mathematical value: text payloads as character sequences,
/// and every token without a text payload as itself.
pub enum TokenView {
    Symbol(Seq<char>),
    Str(Seq<char>),
    TypeDecl(Seq<char>),
    Mark(Token),
}

impl View for Token {
    type V = TokenView;

    open spec fn view(&self) -> TokenView {
        match self {
            Token::Symbol(s) => TokenView::Symbol(s@),
            Token::Str(s) => TokenView::Str(s@),
            Token::TypeDecl(s) => TokenView::TypeDecl(s@),
            _ => TokenView::Mark(*self),
        }
    }
}

pub open spec fn views(ts: Seq<Token>) -> Seq<TokenView> {
    ts.map_values(|t: Token| t@)
}

/// Unicode white space, as `char::is_whitespace` defines it.
pub open spec fn white_space(c: char) -> bool {
    let u = c as u32;
    (0x9 <= u <= 0xd) || u == 0x20 || u == 0x85 || u == 0xa0 || u == 0x1680 || (0x2000 <= u
        <= 0x200a) || u == 0x2028 || u == 0x2029 || u == 0x202f || u == 0x205f || u == 0x3000
}

pub open spec fn is_digit(c: char) -> bool {
    '0' <= c <= '9'
}

pub open spec fn is_blank(c: char) -> bool {
    c == ' ' || c == '\t'
}

/// The kinds of character runs the scanner reads past.
#[derive(Clone, Copy)]
pub enum Run {
    /// The rest of a string literal: up to a double quote.
    Quoted,
    /// The rest of a comment: up to a newline.
    Comment,
    /// A numeric literal: up to a character that is neither digit nor point.
    Numeral,
    /// A word: up to white space, `#`, `:` or `)`.
    Word,
}

/// Whether `c` ends a run of the given kind.
pub open spec fn stops(run: Run, c: char) -> bool {
    match run {
        Run::Quoted => c == '"',
        Run::Comment => c == '\n',
        Run::Numeral => !(is_digit(c) || c == '.'),
        Run::Word => white_space(c) || c == '#' || c == ':' || c == ')',
    }
}

/// The first position from `i` on whose character ends the run, or the end of `s`.
pub open spec fn run_end(s: Seq<char>, i: int, run: Run) -> int
    decreases s.len() - i,
{
    if i >= s.len() {
        s.len() as int
    } else if stops(run, s[i]) {
        i
    } else {
        run_end(s, i + 1, run)
    }
}

/// The position after the closing character of a quoted or comment run that
/// starts at `i` (the whole rest of `s` where none closes it).
pub open spec fn closed_end(s: Seq<char>, i: int, run: Run) -> int {
    let k = run_end(s, i, run);
    if k < s.len() {
        k + 1
    } else {
        k
    }
}

pub proof fn lemma_run_end(s: Seq<char>, i: int, run: Run)
    requires
        0 <= i <= s.len(),
    ensures
        i <= run_end(s, i, run) <= s.len(),
        run_end(s, i, run) < s.len() ==> stops(run, s[run_end(s, i, run)]),
        forall|k: int| i <= k < run_end(s, i, run) ==> !stops(run, #[trigger] s[k]),
    decreases s.len() - i,
{
    if i < s.len() && !stops(run, s[i]) {
        lemma_run_end(s, i + 1, run);
    }
}

pub open spec fn pow10(f: nat) -> int
    decreases f,
{
    if f == 0 {
        1
    } else {
        10 * pow10((f - 1) as nat)
    }
}

/// The digits read as one integer, the count of digits after the first
/// decimal point, and the count of decimal points of a numeric literal.
pub open spec fn literal_parts(t: Seq<char>) -> (int, nat, nat)
    decreases t.len(),
{
    if t.len() == 0 {
        (0, 0, 0)
    } else {
        let (n, f, d) = literal_parts(t.drop_last());
        let c = t.last();
        if c == '.' {
            (n, f, d + 1)
        } else {
            (n * 10 + (c as int - '0' as int), if d > 0 {
                f + 1
            } else {
                f
            }, d)
        }
    }
}

/// The exact value of a numeric literal: its digits over a power of ten.
pub open spec fn number_of(t: Seq<char>) -> Result<Number, LexError> {
    let (n, f, d) = literal_parts(t);
    if d > 1 {
        Err(LexError::MalformedNumber)
    } else if n > i64::MAX || pow10(f) > i64::MAX {
        Err(LexError::NumberOutOfRange)
    } else {
        Ok(Number::ratio_spec(n, pow10(f)))
    }
}

/// The token for a word: a keyword, a type name, or an identifier.
pub open spec fn word_token(w: Seq<char>) -> TokenView {
    if w == "true"@ {
        TokenView::Mark(Token::True)
    } else if w == "false"@ {
        TokenView::Mark(Token::False)
    } else if w == "none"@ {
        TokenView::Mark(Token::Nil)
    } else if w == "and"@ {
        TokenView::Mark(Token::And)
    } else if w == "or"@ {
        TokenView::Mark(Token::Or)
    } else if w == "not"@ {
        TokenView::Mark(Token::Not)
    } else if w == "def"@ {
        TokenView::Mark(Token::Def)
    } else if w == "let"@ {
        TokenView::Mark(Token::Let)
    } else if w == "try"@ {
        TokenView::Mark(Token::Try)
    } else if w == "catch"@ {
        TokenView::Mark(Token::Catch)
    } else if w == "finally"@ {
        TokenView::Mark(Token::Finally)
    } else if w == "throw"@ {
        TokenView::Mark(Token::Throw)
    } else if w == "loop"@ {
        TokenView::Mark(Token::Loop)
    } else if w == "do"@ {
        TokenView::Mark(Token::Do)
    } else if w == "num"@ || w == "str"@ || w == "_"@ || w == "bool"@ {
        TokenView::TypeDecl(w)
    } else {
        TokenView::Symbol(w)
    }
}

/// The fixed token of a one-character punctuation mark or operator.
pub open spec fn single(c: char) -> Option<Token> {
    if c == ':' {
        Some(Token::TypeDelim)
    } else if c == '(' {
        Some(Token::LeftParen)
    } else if c == ')' {
        Some(Token::RightParen)
    } else if c == '$' {
        Some(Token::Appl)
    } else if c == '\\' {
        Some(Token::AnonFn)
    } else if c == '+' {
        Some(Token::Add)
    } else if c == '/' {
        Some(Token::Divide)
    } else if c == '*' {
        Some(Token::Multiply)
    } else if c == '=' {
        Some(Token::Equal)
    } else {
        None
    }
}

/// `ts` followed by the tokens of `r`, or the error of `r`.
pub open spec fn prefixed(ts: Seq<TokenView>, r: Result<Seq<TokenView>, LexError>) -> Result<
    Seq<TokenView>,
    LexError,
> {
    match r {
        Ok(rest) => Ok(ts + rest),
        Err(e) => Err(e),
    }
}

/// Whether the character at `i` exists and is `c`.
pub open spec fn char_at(s: Seq<char>, i: int, c: char) -> bool {
    0 <= i < s.len() && s[i] == c
}

/// The tokens of `s` from position `i` on, where `indented` tells whether
/// the scan is inside an indented block.
pub open spec fn scan(s: Seq<char>, i: int, indented: bool) -> Result<Seq<TokenView>, LexError>
    decreases s.len() - i,
{
    if i < 0 || i >= s.len() {
        Ok(seq![TokenView::Mark(Token::EOF)])
    } else {
        let c = s[i];
        if c == '\n' {
            if i + 1 < s.len() && is_blank(s[i + 1]) {
                prefixed(seq![TokenView::Mark(Token::Indent)], scan(s, i + 1, true))
            } else if indented {
                prefixed(seq![TokenView::Mark(Token::Dedent)], scan(s, i + 1, false))
            } else {
                prefixed(seq![TokenView::Mark(Token::Newline)], scan(s, i + 1, indented))
            }
        } else if c == ' ' || c == '\t' || c == '\r' {
            scan(s, i + 1, indented)
        } else if c == '"' {
            let j = closed_end(s, i + 1, Run::Quoted);
            proof {
                lemma_run_end(s, i + 1, Run::Quoted);
            }
            prefixed(seq![TokenView::Str(s.subrange(i, j))], scan(s, j, indented))
        } else if c == '#' {
            proof {
                lemma_run_end(s, i + 1, Run::Comment);
            }
            scan(s, closed_end(s, i + 1, Run::Comment), indented)
        } else if single(c) is Some {
            prefixed(seq![TokenView::Mark(single(c)->0)], scan(s, i + 1, indented))
        } else if c == '-' {
            if char_at(s, i + 1, '>') {
                prefixed(seq![TokenView::Mark(Token::Assign)], scan(s, i + 2, indented))
            } else {
                prefixed(seq![TokenView::Mark(Token::Subtract)], scan(s, i + 1, indented))
            }
        } else if c == '>' {
            if char_at(s, i + 1, '=') {
                prefixed(
                    seq![TokenView::Mark(Token::GreaterThanOrEqual)],
                    scan(s, i + 2, indented),
                )
            } else {
                prefixed(seq![TokenView::Mark(Token::GreaterThan)], scan(s, i + 1, indented))
            }
        } else if c == '<' {
            if char_at(s, i + 1, '=') {
                prefixed(seq![TokenView::Mark(Token::LessThanOrEqual)], scan(s, i + 2, indented))
            } else {
                prefixed(seq![TokenView::Mark(Token::LessThan)], scan(s, i + 1, indented))
            }
        } else if is_digit(c) {
            let j = run_end(s, i + 1, Run::Numeral);
            proof {
                lemma_run_end(s, i + 1, Run::Numeral);
            }
            match number_of(s.subrange(i, j)) {
                Ok(n) => prefixed(seq![TokenView::Mark(Token::Num(n))], scan(s, j, indented)),
                Err(e) => Err(e),
            }
        } else {
            let j = run_end(s, i + 1, Run::Word);
            proof {
                lemma_run_end(s, i + 1, Run::Word);
            }
            prefixed(seq![word_token(s.subrange(i, j))], scan(s, j, indented))
        }
    }
}

/// The token sequence of a whole source text.
pub open spec fn tokenize(s: Seq<char>) -> Result<Seq<TokenView>, LexError> {
    scan(s, 0, false)
}

/// The tokens of a lexing result as mathematical values.
pub open spec fn lexed(r: Result<Vec<Token>, LexError>) -> Result<Seq<TokenView>, LexError> {
    match r {
        Ok(ts) => Ok(views(ts@)),
        Err(e) => Err(e),
    }
}

pub proof fn lemma_prefixed(
    a: Seq<TokenView>,
    b: Seq<TokenView>,
    r: Result<Seq<TokenView>, LexError>,
)
    ensures
        prefixed(a, prefixed(b, r)) == prefixed(a + b, r),
{
    if let Ok(x) = r {
        assert(a + (b + x) =~= (a + b) + x);
    }
}

proof fn lemma_pow10_mono(a: nat, b: nat)
    requires
        a <= b,
    ensures
        1 <= pow10(a) <= pow10(b),
    decreases b,
{
    if b > a {
        lemma_pow10_mono(a, (b - 1) as nat);
    } else {
        lemma_pow10_positive(a);
    }
}

proof fn lemma_pow10_positive(a: nat)
    ensures
        1 <= pow10(a),
    decreases a,
{
    if a > 0 {
        lemma_pow10_positive((a - 1) as nat);
    }
}

proof fn lemma_parts_grow(t: Seq<char>, m: int)
    requires
        0 <= m <= t.len(),
        forall|k: int| 0 <= k < t.len() ==> is_digit(#[trigger] t[k]) || t[k] == '.',
    ensures
        0 <= literal_parts(t.subrange(0, m)).0 <= literal_parts(t).0,
        literal_parts(t.subrange(0, m)).1 <= literal_parts(t).1,
    decreases t.len(),
{
    if t.len() > 0 {
        let u = t.drop_last();
        if m < t.len() {
            lemma_parts_grow(u, m);
            assert(u.subrange(0, m) =~= t.subrange(0, m));
        } else {
            lemma_parts_grow(u, 0);
            assert(t.subrange(0, m) =~= t);
        }
    } else {
        assert(t.subrange(0, m) =~= t);
    }
}

/// Relies on `str::chars`, collected into a `Vec`: the characters of `s` in order.
#[verifier::external_body]
fn chars_of(s: &str) -> (r: Vec<char>)
    ensures
        r@ == s@,
{
    s.chars().collect()
}

/// Relies on collecting `char`s into a `String`: the same characters in order.
#[verifier::external_body]
fn text_of(cs: &Vec<char>, lo: usize, hi: usize) -> (r: String)
    requires
        lo <= hi <= cs@.len(),
    ensures
        r@ == cs@.subrange(lo as int, hi as int),
{
    cs[lo..hi].iter().collect()
}

fn is_white_space(c: char) -> (r: bool)
    ensures
        r == white_space(c),
{
    let u = c as u32;
    (0x9 <= u && u <= 0xd) || u == 0x20 || u == 0x85 || u == 0xa0 || u == 0x1680 || (0x2000 <= u
        && u <= 0x200a) || u == 0x2028 || u == 0x2029 || u == 0x202f || u == 0x205f || u == 0x3000
}

fn run_stops(run: Run, c: char) -> (r: bool)
    ensures
        r == stops(run, c),
{
    match run {
        Run::Quoted => c == '"',
        Run::Comment => c == '\n',
        Run::Numeral => !(('0' <= c && c <= '9') || c == '.'),
        Run::Word => is_white_space(c) || c == '#' || c == ':' || c == ')',
    }
}

fn find_run_end(cs: &Vec<char>, i: usize, run: Run) -> (r: usize)
    requires
        i <= cs@.len(),
    ensures
        r == run_end(cs@, i as int, run),
{
    let mut k = i;
    while k < cs.len()
        invariant
            i <= k <= cs@.len(),
            run_end(cs@, k as int, run) == run_end(cs@, i as int, run),
        decreases cs@.len() - k,
    {
        if run_stops(run, cs[k]) {
            return k;
        }
        k = k + 1;
    }
    k
}

/// Whether the characters `lo..hi` of `cs` spell `k`.
fn spells(cs: &Vec<char>, lo: usize, hi: usize, k: &str) -> (r: bool)
    requires
        lo <= hi <= cs@.len(),
    ensures
        r == (cs@.subrange(lo as int, hi as int) == k@),
{
    let n = k.unicode_len();
    if hi - lo != n {
        return false;
    }
    let mut x: usize = 0;
    while x < n
        invariant
            lo <= hi <= cs@.len(),
            hi - lo == n,
            n == k@.len(),
            x <= n,
            forall|y: int| 0 <= y < x ==> cs@[lo + y] == k@[y],
        decreases n - x,
    {
        if cs[lo + x] != k.get_char(x) {
            assert(cs@.subrange(lo as int, hi as int)[x as int] != k@[x as int]);
            return false;
        }
        x = x + 1;
    }
    assert(cs@.subrange(lo as int, hi as int) =~= k@);
    true
}

fn word_at(cs: &Vec<char>, lo: usize, hi: usize) -> (r: Token)
    requires
        lo <= hi <= cs@.len(),
    ensures
        r@ == word_token(cs@.subrange(lo as int, hi as int)),
{
    if spells(cs, lo, hi, "true") {
        Token::True
    } else if spells(cs, lo, hi, "false") {
        Token::False
    } else if spells(cs, lo, hi, "none") {
        Token::Nil
    } else if spells(cs, lo, hi, "and") {
        Token::And
    } else if spells(cs, lo, hi, "or") {
        Token::Or
    } else if spells(cs, lo, hi, "not") {
        Token::Not
    } else if spells(cs, lo, hi, "def") {
        Token::Def
    } else if spells(cs, lo, hi, "let") {
        Token::Let
    } else if spells(cs, lo, hi, "try") {
        Token::Try
    } else if spells(cs, lo, hi, "catch") {
        Token::Catch
    } else if spells(cs, lo, hi, "finally") {
        Token::Finally
    } else if spells(cs, lo, hi, "throw") {
        Token::Throw
    } else if spells(cs, lo, hi, "loop") {
        Token::Loop
    } else if spells(cs, lo, hi, "do") {
        Token::Do
    } else if spells(cs, lo, hi, "num") || spells(cs, lo, hi, "str") || spells(cs, lo, hi, "_")
        || spells(cs, lo, hi, "bool") {
        Token::TypeDecl(text_of(cs, lo, hi))
    } else {
        Token::Symbol(text_of(cs, lo, hi))
    }
}

fn single_token(c: char) -> (r: Option<Token>)
    ensures
        r == single(c),
{
    if c == ':' {
        Some(Token::TypeDelim)
    } else if c == '(' {
        Some(Token::LeftParen)
    } else if c == ')' {
        Some(Token::RightParen)
    } else if c == '$' {
        Some(Token::Appl)
    } else if c == '\\' {
        Some(Token::AnonFn)
    } else if c == '+' {
        Some(Token::Add)
    } else if c == '/' {
        Some(Token::Divide)
    } else if c == '*' {
        Some(Token::Multiply)
    } else if c == '=' {
        Some(Token::Equal)
    } else {
        None
    }
}

/// The value of the numeric literal `lo..hi` of `cs`.
fn number_literal(cs: &Vec<char>, lo: usize, hi: usize) -> (r: Result<Number, LexError>)
    requires
        lo <= hi <= cs@.len(),
        forall|k: int| lo <= k < hi ==> is_digit(#[trigger] cs@[k]) || cs@[k] == '.',
    ensures
        r == number_of(cs@.subrange(lo as int, hi as int)),
{
    let ghost t = cs@.subrange(lo as int, hi as int);
    let mut dots: usize = 0;
    let mut k = lo;
    while k < hi
        invariant
            lo <= k <= hi <= cs@.len(),
            t == cs@.subrange(lo as int, hi as int),
            dots == literal_parts(t.subrange(0, k - lo)).2,
            dots <= k - lo,
        decreases hi - k,
    {
        assert(t.subrange(0, k - lo + 1).drop_last() =~= t.subrange(0, k - lo));
        if cs[k] == '.' {
            dots = dots + 1;
        }
        k = k + 1;
    }
    assert(t.subrange(0, hi - lo) =~= t);
    if dots > 1 {
        return Err(LexError::MalformedNumber);
    }
    proof {
        lemma_parts_grow(t, 0);
    }
    let mut n: i64 = 0;
    let mut den: i64 = 1;
    let mut seen_dot = false;
    let mut k = lo;
    while k < hi
        invariant
            lo <= k <= hi <= cs@.len(),
            t == cs@.subrange(lo as int, hi as int),
            forall|x: int| 0 <= x < t.len() ==> is_digit(#[trigger] t[x]) || t[x] == '.',
            literal_parts(t).2 <= 1,
            n == literal_parts(t.subrange(0, k - lo)).0,
            den == pow10(literal_parts(t.subrange(0, k - lo)).1),
            seen_dot == (literal_parts(t.subrange(0, k - lo)).2 > 0),
            0 <= n,
            1 <= den,
        decreases hi - k,
    {
        let ghost m = k - lo;
        assert(t.subrange(0, m + 1).drop_last() =~= t.subrange(0, m));
        let c = cs[k];
        assert(t[m] == c);
        if c == '.' {
            seen_dot = true;
        } else {
            let v = (c as u32 - '0' as u32) as i64;
            if n > (i64::MAX - v) / 10 {
                proof {
                    lemma_parts_grow(t, m + 1);
                }
                return Err(LexError::NumberOutOfRange);
            }
            n = n * 10 + v;
            if seen_dot {
                if den > i64::MAX / 10 {
                    proof {
                        lemma_parts_grow(t, m + 1);
                        lemma_pow10_mono(literal_parts(t.subrange(0, m + 1)).1, literal_parts(t).1);
                    }
                    return Err(LexError::NumberOutOfRange);
                }
                den = den * 10;
            }
        }
        k = k + 1;
    }
    Ok(Number::ratio(n, den))
}

/// A scanner over the characters of one source text.
pub struct Lexer {
    chars: Vec<char>,
    tokens: Vec<Token>,
    indented: bool,
}

impl Lexer {
    fn new(input: &String) -> (r: Lexer)
        ensures
            r.chars@ == input@,
            r.tokens@.len() == 0,
            !r.indented,
    {
        Lexer { chars: chars_of(input.as_str()), tokens: Vec::new(), indented: false }
    }

    fn split_tokens(&mut self) -> (r: Result<(), LexError>)
        requires
            old(self).tokens@.len() == 0,
            !old(self).indented,
        ensures
            match tokenize(old(self).chars@) {
                Ok(ts) => r is Ok && views(final(self).tokens@) == ts,
                Err(e) => r == Err::<(), LexError>(e),
            },
    {
        let ghost s = self.chars@;
        let n = self.chars.len();
        let mut pos: usize = 0;
        assert(views(self.tokens@) =~= Seq::<TokenView>::empty());
        assert(Seq::<TokenView>::empty() + scan(s, 0, false)->Ok_0 =~= scan(s, 0, false)->Ok_0);
        while pos < n
            invariant
                n == self.chars@.len(),
                s == self.chars@,
                s == old(self).chars@,
                pos <= n,
                tokenize(s) == prefixed(views(self.tokens@), scan(s, pos as int, self.indented)),
            decreases n - pos,
        {
            let ghost ind = self.indented;
            let ghost i = pos as int;
            let c = self.chars[pos];
            let next: usize;
            let tok: Option<Token>;
            if c == '\n' {
                if pos + 1 < n && (self.chars[pos + 1] == ' ' || self.chars[pos + 1] == '\t') {
                    self.indented = true;
                    tok = Some(Token::Indent);
                } else if self.indented {
                    self.indented = false;
                    tok = Some(Token::Dedent);
                } else {
                    tok = Some(Token::Newline);
                }
                next = pos + 1;
            } else if c == ' ' || c == '\t' || c == '\r' {
                tok = None;
                next = pos + 1;
            } else if c == '"' {
                let k = find_run_end(&self.chars, pos + 1, Run::Quoted);
                proof {
                    lemma_run_end(s, i + 1, Run::Quoted);
                }
                next = if k < n {
                    k + 1
                } else {
                    k
                };
                tok = Some(Token::Str(text_of(&self.chars, pos, next)));
            } else if c == '#' {
                let k = find_run_end(&self.chars, pos + 1, Run::Comment);
                proof {
                    lemma_run_end(s, i + 1, Run::Comment);
                }
                next = if k < n {
                    k + 1
                } else {
                    k
                };
                tok = None;
            } else if let Some(t) = single_token(c) {
                tok = Some(t);
                next = pos + 1;
            } else if c == '-' {
                if pos + 1 < n && self.chars[pos + 1] == '>' {
                    tok = Some(Token::Assign);
                    next = pos + 2;
                } else {
                    tok = Some(Token::Subtract);
                    next = pos + 1;
                }
            } else if c == '>' {
                if pos + 1 < n && self.chars[pos + 1] == '=' {
                    tok = Some(Token::GreaterThanOrEqual);
                    next = pos + 2;
                } else {
                    tok = Some(Token::GreaterThan);
                    next = pos + 1;
                }
            } else if c == '<' {
                if pos + 1 < n && self.chars[pos + 1] == '=' {
                    tok = Some(Token::LessThanOrEqual);
                    next = pos + 2;
                } else {
                    tok = Some(Token::LessThan);
                    next = pos + 1;
                }
            } else if '0' <= c && c <= '9' {
                let k = find_run_end(&self.chars, pos + 1, Run::Numeral);
                proof {
                    lemma_run_end(s, i + 1, Run::Numeral);
                }
                match number_literal(&self.chars, pos, k) {
                    Ok(v) => {
                        tok = Some(Token::Num(v));
                        next = k;
                    },
                    Err(e) => {
                        assert(scan(s, i, ind) == Err::<Seq<TokenView>, LexError>(e));
                        return Err(e);
                    },
                }
            } else {
                let k = find_run_end(&self.chars, pos + 1, Run::Word);
                proof {
                    lemma_run_end(s, i + 1, Run::Word);
                }
                tok = Some(word_at(&self.chars, pos, k));
                next = k;
            }
            proof {
                let before = views(self.tokens@);
                if tok is Some {
                    let t = tok->0;
                    assert(scan(s, i, ind) == prefixed(seq![t@], scan(s, next as int, self.indented)));
                    lemma_prefixed(before, seq![t@], scan(s, next as int, self.indented));
                } else {
                    assert(scan(s, i, ind) == scan(s, next as int, self.indented));
                }
            }
            match tok {
                Some(t) => {
                    let ghost old_tokens = self.tokens@;
                    self.tokens.push(t);
                    assert(views(self.tokens@) =~= views(old_tokens) + seq![t@]);
                },
                None => {},
            }
            pos = next;
        }
        let ghost old_tokens = self.tokens@;
        self.tokens.push(Token::EOF);
        assert(views(self.tokens@) =~= views(old_tokens) + seq![TokenView::Mark(Token::EOF)]);
        Ok(())
    }
}

/// Tokenizes a source text: its tokens in order, ending with `EOF`, or the
/// error of its first malformed numeric literal.
pub fn lex(source: String) -> (r: Result<Vec<Token>, LexError>)
    ensures
        lexed(r) == tokenize(source@),
{
    let mut lexer = Lexer::new(&source);
    match lexer.split_tokens() {
        Ok(()) => Ok(lexer.tokens),
        Err(e) => Err(e),
    }
}

} // verus!
