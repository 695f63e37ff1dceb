//! The tokenizer: turns source text into an ordered sequence of tokens, each
//! carrying its kind, its text and the line and column where it starts.
use vstd::prelude::*;

use crate::text::{chars_eq, chars_to_string, str_chars};

verus! {

#[derive(Debug, Clone, Copy, PartialEq, Eq, Structural)]
pub enum TokenType {
    Identifier,
    String,
    Integer,
    FloatingPoint,
    Boolean,
    Fun,
    Return,
    ParenthesisOpen,
    ParenthesisClose,
    CurlyBracketOpen,
    CurlyBracketClose,
    SeparatorComma,
    EndLine,
    AssignmentArrow,
    ReturnTypeArrow,
    ComparisonOperation,
    MathOperation,
    EndOfFile,
    /// Placeholder for the parser's lookahead before the first token; the
    /// tokenizer never produces it.
    NullForParser,
}

/// A token: its kind, its text (for a string literal, the text between the
/// quotes), and the line `x` and column `y` of its first character.
#[derive(Debug)]
pub struct Token {
    pub token_type: TokenType,
    pub value: String,
    pub x: usize,
    pub y: usize,
}

impl Clone for Token {
    fn clone(&self) -> (r: Token)
        ensures
            r.token_type == self.token_type,
            r.value@ == self.value@,
            r.x == self.x,
            r.y == self.y,
    {
        Token { token_type: self.token_type, value: self.value.clone(), x: self.x, y: self.y }
    }
}

pub open spec fn is_literal_kind(k: TokenType) -> bool {
    k == TokenType::String || k == TokenType::Integer || k == TokenType::FloatingPoint || k
        == TokenType::Boolean
}

impl Token {
    /// True for the literal kinds: string, integer, floating point, boolean.
    pub fn is_data_type(&self) -> (r: bool)
        ensures
            r == is_literal_kind(self.token_type),
    {
        match self.token_type {
            TokenType::String | TokenType::Integer | TokenType::FloatingPoint
            | TokenType::Boolean => true,
            _ => false,
        }
    }
}

/// Why tokenizing stopped, and where.
#[derive(Debug)]
pub struct LexError {
    pub description: String,
    pub line: usize,
    pub column: usize,
}

pub open spec fn is_digit(c: char) -> bool {
    '0' <= c <= '9'
}

pub open spec fn is_word_start(c: char) -> bool {
    ('a' <= c <= 'z') || ('A' <= c <= 'Z') || c == '_'
}

pub open spec fn is_word_char(c: char) -> bool {
    is_word_start(c) || is_digit(c)
}

pub open spec fn is_space(c: char) -> bool {
    c == ' ' || c == '\t' || c == '\n' || c == '\r'
}

/// Line and column (both from 1) of the character at index `i` of `src`.
pub open spec fn pos_at(src: Seq<char>, i: int) -> (int, int)
    decreases i,
{
    if i <= 0 {
        (1, 1)
    } else {
        let p = pos_at(src, i - 1);
        if src[i - 1] == '\n' {
            (p.0 + 1, 1)
        } else {
            (p.0, p.1 + 1)
        }
    }
}

pub open spec fn count_char(s: Seq<char>, c: char) -> nat
    decreases s.len(),
{
    if s.len() == 0 {
        0
    } else {
        count_char(s.drop_last(), c) + if s.last() == c {
            1nat
        } else {
            0nat
        }
    }
}

/// The kind of a word: a keyword, a boolean literal, or an identifier.
pub open spec fn word_kind(w: Seq<char>) -> TokenType {
    if w == "function"@ {
        TokenType::Fun
    } else if w == "return"@ {
        TokenType::Return
    } else if w == "true"@ || w == "false"@ {
        TokenType::Boolean
    } else {
        TokenType::Identifier
    }
}

/// The kind of a one-character symbol, if it is one.
pub open spec fn single_kind(c: char) -> Option<TokenType> {
    if c == '(' {
        Some(TokenType::ParenthesisOpen)
    } else if c == ')' {
        Some(TokenType::ParenthesisClose)
    } else if c == '{' {
        Some(TokenType::CurlyBracketOpen)
    } else if c == '}' {
        Some(TokenType::CurlyBracketClose)
    } else if c == ',' {
        Some(TokenType::SeparatorComma)
    } else if c == ';' {
        Some(TokenType::EndLine)
    } else if c == '<' || c == '>' {
        Some(TokenType::ComparisonOperation)
    } else if c == '+' || c == '-' || c == '*' || c == '/' {
        Some(TokenType::MathOperation)
    } else {
        None
    }
}

/// The kind of a two-character symbol (`<-`, `->`, `==`, `!=`, `<=`, `>=`), if it is one.
pub open spec fn pair_kind(c: char, d: char) -> Option<TokenType> {
    if c == '<' && d == '-' {
        Some(TokenType::AssignmentArrow)
    } else if c == '-' && d == '>' {
        Some(TokenType::ReturnTypeArrow)
    } else if (c == '=' || c == '!' || c == '<' || c == '>') && d == '=' {
        Some(TokenType::ComparisonOperation)
    } else {
        None
    }
}

/// The kind of an operator or punctuation text, if it is one.
pub open spec fn symbol_kind(v: Seq<char>) -> Option<TokenType> {
    if v.len() == 1 {
        single_kind(v[0])
    } else if v.len() == 2 {
        pair_kind(v[0], v[1])
    } else {
        None
    }
}

/// The kind that a token text taken from the source has, if it is well formed.
pub open spec fn text_kind(v: Seq<char>) -> Option<TokenType> {
    if v.len() > 0 && is_word_start(v[0]) && forall|k: int| 0 <= k < v.len() ==> is_word_char(
        #[trigger] v[k],
    ) {
        Some(word_kind(v))
    } else if v.len() > 0 && is_digit(v[0]) && forall|k: int|
        0 <= k < v.len() ==> is_digit(#[trigger] v[k]) || v[k] == '.' {
        if count_char(v, '.') == 0 {
            Some(TokenType::Integer)
        } else if count_char(v, '.') == 1 {
            Some(TokenType::FloatingPoint)
        } else {
            None
        }
    } else {
        symbol_kind(v)
    }
}

/// The token `t` stands in `src` at index `start`: it begins there, its text
/// is taken from there, and its kind is the one that text has.
pub open spec fn token_at(src: Seq<char>, t: Token, start: int) -> bool {
    let v = t.value@;
    &&& 0 <= start < src.len()
    &&& (t.x as int, t.y as int) == pos_at(src, start)
    &&& if t.token_type == TokenType::String {
        &&& src[start] == '"'
        &&& start + v.len() + 2 <= src.len()
        &&& src.subrange(start + 1, start + 1 + v.len()) == v
        &&& src[start + 1 + v.len()] == '"'
        &&& forall|k: int| 0 <= k < v.len() ==> #[trigger] v[k] != '"'
    } else {
        &&& start + v.len() <= src.len()
        &&& src.subrange(start, start + v.len()) == v
        &&& text_kind(v) == Some(t.token_type)
    }
}

/// How many characters of the source a token spans.
pub open spec fn token_extent(t: Token) -> int {
    if t.token_type == TokenType::String {
        t.value@.len() + 2int
    } else {
        t.value@.len() as int
    }
}

/// The token at `start` is the longest one there: the character after it could
/// not have continued it.
pub open spec fn token_maximal(src: Seq<char>, t: Token, start: int) -> bool {
    let end = start + token_extent(t);
    match t.token_type {
        TokenType::String => true,
        TokenType::Integer | TokenType::FloatingPoint => end == src.len() || !(is_digit(src[end])
            || src[end] == '.'),
        TokenType::Identifier | TokenType::Fun | TokenType::Return | TokenType::Boolean => end
            == src.len() || !is_word_char(src[end]),
        _ => t.value@.len() == 1 ==> (end == src.len() || pair_kind(src[start], src[end]) is None),
    }
}

/// Only whitespace stands from `a` up to `b`.
pub open spec fn blank_between(src: Seq<char>, a: int, b: int) -> bool {
    forall|k: int| a <= k < b ==> is_space(#[trigger] src[k])
}

/// `toks`, starting at `offs`, are the tokens of `src` before index `i`: each
/// standing at its index and as long as it can be, with only whitespace
/// before, between and after them up to `i`.
pub open spec fn tokens_before(src: Seq<char>, toks: Seq<Token>, offs: Seq<usize>, i: int) -> bool {
    &&& toks.len() == offs.len()
    &&& forall|k: int| 0 <= k < toks.len() ==> token_at(src, #[trigger] toks[k], offs[k] as int)
    &&& forall|k: int| 0 <= k < toks.len() ==> token_maximal(src, #[trigger] toks[k], offs[k] as int)
    &&& forall|k: int|
        0 <= k < toks.len() - 1 ==> offs[k] + token_extent(#[trigger] toks[k]) <= offs[k + 1]
            && blank_between(src, offs[k] + token_extent(toks[k]), offs[k + 1] as int)
    &&& toks.len() == 0 ==> blank_between(src, 0, i)
    &&& toks.len() > 0 ==> blank_between(src, 0, offs[0] as int) && offs.last() + token_extent(
        toks.last(),
    ) <= i && blank_between(src, offs.last() + token_extent(toks.last()), i)
}

/// At index `i` no token can start: an unknown character, a string literal
/// that is never closed, or a number with more than one point.
pub open spec fn no_token_at(src: Seq<char>, i: int) -> bool {
    let c = src[i];
    ||| (!is_word_start(c) && !is_digit(c) && c != '"' && !is_space(c) && single_kind(c) is None
        && !(i + 1 < src.len() && pair_kind(c, src[i + 1]) is Some))
    ||| (c == '"' && forall|k: int| i < k < src.len() ==> #[trigger] src[k] != '"')
    ||| (is_digit(c) && exists|j: int|
        i < j <= src.len() && (forall|k: int| i <= k < j ==> is_digit(#[trigger] src[k]) || src[k] == '.')
            && count_char(src.subrange(i, j), '.') > 1)
}

/// Tokenizing `src` stops with the diagnostic `e`: everything before some
/// index tokenizes, and at that index, the position `e` reports, no token can
/// start.
pub open spec fn lex_failure(src: Seq<char>, e: LexError) -> bool {
    ||| src.len() >= usize::MAX
    ||| exists|toks: Seq<Token>, offs: Seq<usize>, i: int|
        0 <= i < src.len() && tokens_before(src, toks, offs, i) && no_token_at(src, i) && pos_at(
            src,
            i,
        ) == (e.line as int, e.column as int)
}

/// A character that starts or continues a token by itself: a letter, a digit,
/// `_`, whitespace, or one of `( ) { } , ; < > + - * /`.
pub open spec fn plain_char(c: char) -> bool {
    is_word_char(c) || is_space(c) || single_kind(c) is Some
}

/// A text that always tokenizes: every character plain (no string literal,
/// no point, no `=` or `!`).
pub open spec fn plain_source(src: Seq<char>) -> bool {
    src.len() < usize::MAX && forall|k: int| 0 <= k < src.len() ==> plain_char(#[trigger] src[k])
}

/// `toks` is a tokenization of `src` whose tokens start at the indices `offs`:
/// in order, each standing at its index and as long as it can be, with only
/// whitespace before, between and after them; the last one is the end of input.
pub open spec fn tokens_of(src: Seq<char>, toks: Seq<Token>, offs: Seq<usize>) -> bool {
    &&& toks.len() == offs.len()
    &&& blank_between(src, 0, offs[0] as int)
    &&& forall|i: int|
        0 <= i < toks.len() - 1 ==> offs[i] + token_extent(#[trigger] toks[i]) <= offs[i + 1]
            && blank_between(src, offs[i] + token_extent(toks[i]), offs[i + 1] as int)
            && token_maximal(src, toks[i], offs[i] as int)
    &&& toks.len() >= 1
    &&& toks.last().token_type == TokenType::EndOfFile
    &&& toks.last().value@.len() == 0
    &&& offs.last() == src.len()
    &&& (toks.last().x as int, toks.last().y as int) == pos_at(src, src.len() as int)
    &&& forall|i: int| 0 <= i < toks.len() - 1 ==> token_at(src, #[trigger] toks[i], offs[i as int] as int)
    &&& forall|i: int, j: int| 0 <= i < j < offs.len() ==> offs[i] < offs[j]
}

fn slice_chars(src: &Vec<char>, a: usize, b: usize) -> (r: Vec<char>)
    requires
        a <= b <= src@.len(),
    ensures
        r@ == src@.subrange(a as int, b as int),
{
    let mut r: Vec<char> = Vec::new();
    let mut k: usize = a;
    while k < b
        invariant
            a <= k <= b <= src@.len(),
            r@ == src@.subrange(a as int, k as int),
        decreases b - k,
    {
        r.push(src[k]);
        k = k + 1;
        assert(r@ =~= src@.subrange(a as int, k as int));
    }
    r
}

/// The position after the character at `i`, from the position of that character.
fn step(src: &Vec<char>, i: usize, line: usize, col: usize) -> (r: (usize, usize))
    requires
        i < src@.len() < usize::MAX,
        (line as int, col as int) == pos_at(src@, i as int),
        1 <= line <= i + 1,
        1 <= col <= i + 1,
    ensures
        (r.0 as int, r.1 as int) == pos_at(src@, i + 1),
        1 <= r.0 <= i + 2,
        1 <= r.1 <= i + 2,
{
    if src[i] == '\n' {
        (line + 1, 1)
    } else {
        (line, col + 1)
    }
}

/// The position of index `j`, from that of index `i`.
fn advance(src: &Vec<char>, i: usize, line: usize, col: usize, j: usize) -> (r: (usize, usize))
    requires
        i <= j <= src@.len() < usize::MAX,
        (line as int, col as int) == pos_at(src@, i as int),
        1 <= line <= i + 1,
        1 <= col <= i + 1,
    ensures
        (r.0 as int, r.1 as int) == pos_at(src@, j as int),
        1 <= r.0 <= j + 1,
        1 <= r.1 <= j + 1,
{
    let mut k: usize = i;
    let mut l: usize = line;
    let mut c: usize = col;
    while k < j
        invariant
            i <= k <= j <= src@.len() < usize::MAX,
            (l as int, c as int) == pos_at(src@, k as int),
            1 <= l <= k + 1,
            1 <= c <= k + 1,
        decreases j - k,
    {
        let p = step(src, k, l, c);
        l = p.0;
        c = p.1;
        k = k + 1;
    }
    (l, c)
}

fn lex_error(description: &str, line: usize, column: usize) -> (r: LexError)
    ensures
        r.line == line,
        r.column == column,
{
    broadcast use vstd::string::group_string_axioms;

    LexError { description: description.to_string(), line, column }
}

/// The kind of the one- or two-character symbol at `i`, and its length.
fn scan_symbol(src: &Vec<char>, i: usize) -> (r: Option<(TokenType, usize)>)
    requires
        i < src@.len() < usize::MAX,
    ensures
        r matches Some((k, n)) ==> 1 <= n <= 2 && i + n <= src@.len() && symbol_kind(
            src@.subrange(i as int, i + n),
        ) == Some(k) && !is_word_start(src@[i as int]) && !is_digit(src@[i as int]),
        r matches Some((k, n)) ==> (n == 1 ==> (i + 1 == src@.len() || pair_kind(
            src@[i as int],
            src@[i + 1],
        ) is None)),
        r matches Some((k, n)) ==> src@[i as int] != '"',
        r is None ==> single_kind(src@[i as int]) is None,
        r is None ==> !(i + 1 < src@.len() && pair_kind(src@[i as int], src@[i + 1]) is Some),
{
    let c = src[i];
    let has_next = i + 1 < src.len();
    let d = if has_next {
        src[i + 1]
    } else {
        ' '
    };
    let two = if has_next {
        Some(seq_pair_kind(c, d))
    } else {
        None
    };
    proof {
        if has_next {
            assert(src@.subrange(i as int, i + 2) =~= seq![c, d]);
        }
        assert(src@.subrange(i as int, i + 1) =~= seq![c]);
    }
    if let Some(Some(k)) = two {
        return Some((k, 2));
    }
    let k = if c == '(' {
        TokenType::ParenthesisOpen
    } else if c == ')' {
        TokenType::ParenthesisClose
    } else if c == '{' {
        TokenType::CurlyBracketOpen
    } else if c == '}' {
        TokenType::CurlyBracketClose
    } else if c == ',' {
        TokenType::SeparatorComma
    } else if c == ';' {
        TokenType::EndLine
    } else if c == '<' || c == '>' {
        TokenType::ComparisonOperation
    } else if c == '+' || c == '-' || c == '*' || c == '/' {
        TokenType::MathOperation
    } else {
        return None;
    };
    Some((k, 1))
}

fn seq_pair_kind(c: char, d: char) -> (r: Option<TokenType>)
    ensures
        r == pair_kind(c, d),
{
    if c == '<' && d == '-' {
        Some(TokenType::AssignmentArrow)
    } else if c == '-' && d == '>' {
        Some(TokenType::ReturnTypeArrow)
    } else if (c == '=' || c == '!' || c == '<' || c == '>') && d == '=' {
        Some(TokenType::ComparisonOperation)
    } else {
        None
    }
}

proof fn lemma_count_absent(s: Seq<char>, c: char)
    requires
        forall|k: int| 0 <= k < s.len() ==> #[trigger] s[k] != c,
    ensures
        count_char(s, c) == 0,
    decreases s.len(),
{
    if s.len() > 0 {
        assert forall|k: int| 0 <= k < s.drop_last().len() implies #[trigger] s.drop_last()[k] != c by {
            assert(s.drop_last()[k] == s[k]);
        }
        lemma_count_absent(s.drop_last(), c);
    }
}

fn scan_word(src: &Vec<char>, i: usize) -> (j: usize)
    requires
        i < src@.len() < usize::MAX,
        is_word_start(src@[i as int]),
    ensures
        i < j <= src@.len(),
        forall|k: int| i <= k < j ==> is_word_char(#[trigger] src@[k]),
        j == src@.len() || !is_word_char(src@[j as int]),
{
    let mut j: usize = i + 1;
    while j < src.len() && (is_word_start_exec(src[j]) || is_digit_exec(src[j]))
        invariant
            i < j <= src@.len(),
            forall|k: int| i <= k < j ==> is_word_char(#[trigger] src@[k]),
        decreases src@.len() - j,
    {
        j = j + 1;
    }
    j
}

fn is_word_start_exec(c: char) -> (r: bool)
    ensures
        r == is_word_start(c),
{
    ('a' <= c && c <= 'z') || ('A' <= c && c <= 'Z') || c == '_'
}

fn is_digit_exec(c: char) -> (r: bool)
    ensures
        r == is_digit(c),
{
    '0' <= c && c <= '9'
}

/// The end of the run of digits and points at `i`, and how many points it holds.
fn scan_number(src: &Vec<char>, i: usize) -> (r: (usize, usize))
    requires
        i < src@.len() < usize::MAX,
        is_digit(src@[i as int]),
    ensures
        i < r.0 <= src@.len(),
        forall|k: int| i <= k < r.0 ==> is_digit(#[trigger] src@[k]) || src@[k] == '.',
        r.1 == count_char(src@.subrange(i as int, r.0 as int), '.'),
        r.0 == src@.len() || !(is_digit(src@[r.0 as int]) || src@[r.0 as int] == '.'),
{
    let mut j: usize = i + 1;
    let mut dots: usize = 0;
    assert(src@.subrange(i as int, j as int).drop_last() =~= src@.subrange(i as int, i as int));
    assert(count_char(src@.subrange(i as int, i as int), '.') == 0);
    assert(src@.subrange(i as int, j as int).last() == src@[i as int]);
    while j < src.len() && (is_digit_exec(src[j]) || src[j] == '.')
        invariant
            i < j <= src@.len(),
            dots <= j - i,
            forall|k: int| i <= k < j ==> is_digit(#[trigger] src@[k]) || src@[k] == '.',
            dots == count_char(src@.subrange(i as int, j as int), '.'),
        decreases src@.len() - j,
    {
        if src[j] == '.' {
            dots = dots + 1;
        }
        j = j + 1;
        assert(src@.subrange(i as int, j as int).drop_last() =~= src@.subrange(
            i as int,
            j - 1 as int,
        ));
    }
    (j, dots)
}

/// The index of the quote that closes the string literal opened at `i`.
fn scan_string(src: &Vec<char>, i: usize) -> (r: Option<usize>)
    requires
        i < src@.len() < usize::MAX,
    ensures
        r matches Some(j) ==> i < j < src@.len() && src@[j as int] == '"' && forall|k: int|
            i < k < j ==> #[trigger] src@[k] != '"',
        r is None ==> forall|k: int| i < k < src@.len() ==> #[trigger] src@[k] != '"',
{
    let mut j: usize = i + 1;
    while j < src.len()
        invariant
            i < j <= src@.len(),
            forall|k: int| i < k < j ==> #[trigger] src@[k] != '"',
        decreases src@.len() - j,
    {
        if src[j] == '"' {
            return Some(j);
        }
        j = j + 1;
    }
    None
}

fn word_kind_exec(w: &Vec<char>) -> (r: TokenType)
    ensures
        r == word_kind(w@),
{
    if chars_eq(w, "function") {
        TokenType::Fun
    } else if chars_eq(w, "return") {
        TokenType::Return
    } else if chars_eq(w, "true") || chars_eq(w, "false") {
        TokenType::Boolean
    } else {
        TokenType::Identifier
    }
}

pub struct Lexer {}

impl Lexer {
    pub fn new() -> Lexer {
        Lexer {  }
    }

    /// Tokenizes `src`, returning the tokens together with the index at which
    /// each starts. Stops at the first character that starts no token, at an
    /// unterminated string literal, and at a number with more than one point.
    pub fn lex_with_offsets(&self, src: &Vec<char>) -> (r: Result<(Vec<Token>, Vec<usize>), LexError>)
        ensures
            r matches Ok((t, o)) ==> tokens_of(src@, t@, o@),
            plain_source(src@) ==> r is Ok,
            r matches Err(e) ==> lex_failure(src@, e),
    {
        if src.len() == usize::MAX {
            return Err(lex_error("Source too long", 0, 0));
        }
        let mut toks: Vec<Token> = Vec::new();
        let mut offs: Vec<usize> = Vec::new();
        let mut i: usize = 0;
        let mut line: usize = 1;
        let mut col: usize = 1;
        let ghost mut last_end: int = 0;
        while i < src.len()
            invariant
                i <= src@.len() < usize::MAX,
                (line as int, col as int) == pos_at(src@, i as int),
                1 <= line <= i + 1,
                1 <= col <= i + 1,
                toks@.len() == offs@.len(),
                forall|k: int| 0 <= k < toks@.len() ==> token_at(src@, #[trigger] toks@[k], offs@[k] as int),
                forall|a: int, b: int| 0 <= a < b < offs@.len() ==> offs@[a] < offs@[b],
                forall|k: int| 0 <= k < offs@.len() ==> offs@[k] < i,
                toks@.len() == 0 ==> last_end == 0,
                toks@.len() > 0 ==> last_end == offs@.last() + token_extent(toks@.last()),
                last_end <= i,
                blank_between(src@, last_end, i as int),
                toks@.len() > 0 ==> blank_between(src@, 0, offs@[0] as int),
                forall|k: int|
                    0 <= k < toks@.len() - 1 ==> offs@[k] + token_extent(#[trigger] toks@[k])
                        <= offs@[k + 1] && blank_between(
                        src@,
                        offs@[k] + token_extent(toks@[k]),
                        offs@[k + 1] as int,
                    ),
                forall|k: int| 0 <= k < toks@.len() ==> token_maximal(src@, #[trigger] toks@[k], offs@[k] as int),
            decreases src@.len() - i,
        {
            let c = src[i];
            if c == ' ' || c == '\t' || c == '\n' || c == '\r' {
                let p = step(src, i, line, col);
                line = p.0;
                col = p.1;
                i = i + 1;
                continue;
            }
            let kind: TokenType;
            let value: Vec<char>;
            let end: usize;
            if is_word_start_exec(c) {
                end = scan_word(src, i);
                value = slice_chars(src, i, end);
                kind = word_kind_exec(&value);
                assert(text_kind(value@) == Some(kind)) by {
                    assert forall|k: int| 0 <= k < value@.len() implies is_word_char(
                        #[trigger] value@[k],
                    ) by {
                        assert(value@[k] == src@[i + k]);
                    }
                }
            } else if is_digit_exec(c) {
                let (e, dots) = scan_number(src, i);
                if dots > 1 {
                    proof {
                        if plain_source(src@) {
                            lemma_count_absent(src@.subrange(i as int, e as int), '.');
                        }
                    }
                    let err = lex_error("Number with more than one decimal point", line, col);
                    proof {
                        assert(tokens_before(src@, toks@, offs@, i as int));
                        assert(i < e <= src@.len() && (forall|k: int|
                            i <= k < e ==> is_digit(#[trigger] src@[k]) || src@[k] == '.')
                            && count_char(src@.subrange(i as int, e as int), '.') > 1);
                        assert(no_token_at(src@, i as int));
                    }
                    return Err(err);
                }
                end = e;
                value = slice_chars(src, i, end);
                kind = if dots == 0 {
                    TokenType::Integer
                } else {
                    TokenType::FloatingPoint
                };
                assert(text_kind(value@) == Some(kind)) by {
                    assert(!is_word_start(value@[0]));
                    assert forall|k: int| 0 <= k < value@.len() implies is_digit(#[trigger] value@[k])
                        || value@[k] == '.' by {
                        assert(value@[k] == src@[i + k]);
                    }
                }
            } else if c == '"' {
                match scan_string(src, i) {
                    None => {
                        let e = lex_error("Unterminated string literal", line, col);
                        proof {
                            assert(tokens_before(src@, toks@, offs@, i as int));
                            assert(no_token_at(src@, i as int));
                        }
                        return Err(e);
                    },
                    Some(close) => {
                        end = close + 1;
                        value = slice_chars(src, i + 1, close);
                        kind = TokenType::String;
                        assert forall|k: int| 0 <= k < value@.len() implies #[trigger] value@[k]
                            != '"' by {
                            assert(value@[k] == src@[i + 1 + k]);
                        }
                    },
                }
            } else {
                match scan_symbol(src, i) {
                    None => {
                        assert(!plain_char(c));
                        let e = lex_error("Unknown character", line, col);
                        proof {
                            assert(tokens_before(src@, toks@, offs@, i as int));
                            assert(no_token_at(src@, i as int));
                        }
                        return Err(e);
                    },
                    Some((k, n)) => {
                        end = i + n;
                        value = slice_chars(src, i, end);
                        kind = k;
                    },
                }
            }
            let tok = Token { token_type: kind, value: chars_to_string(&value), x: line, y: col };
            assert(token_at(src@, tok, i as int));
            assert(token_extent(tok) == end - i);
            assert(token_maximal(src@, tok, i as int));
            let ghost old_toks = toks@;
            let ghost old_offs = offs@;
            toks.push(tok);
            offs.push(i);
            proof {
                assert forall|k: int| 0 <= k < toks@.len() - 1 implies offs@[k] + token_extent(
                    #[trigger] toks@[k],
                ) <= offs@[k + 1] && blank_between(
                    src@,
                    offs@[k] + token_extent(toks@[k]),
                    offs@[k + 1] as int,
                ) by {
                    if k < old_toks.len() - 1 {
                        assert(toks@[k] == old_toks[k]);
                        assert(old_offs[k + 1] == offs@[k + 1]);
                    } else {
                        assert(toks@[k] == old_toks.last());
                    }
                }
                last_end = end as int;
            }
            let p = advance(src, i, line, col, end);
            line = p.0;
            col = p.1;
            i = end;
        }
        let eof = Token {
            token_type: TokenType::EndOfFile,
            value: chars_to_string(&Vec::new()),
            x: line,
            y: col,
        };
        let ghost old_toks = toks@;
        let ghost old_offs = offs@;
        toks.push(eof);
        offs.push(i);
        proof {
            assert forall|k: int| 0 <= k < toks@.len() - 1 implies offs@[k] + token_extent(
                #[trigger] toks@[k],
            ) <= offs@[k + 1] && blank_between(
                src@,
                offs@[k] + token_extent(toks@[k]),
                offs@[k + 1] as int,
            ) && token_maximal(src@, toks@[k], offs@[k] as int) by {
                assert(toks@[k] == old_toks[k]);
                if k < old_toks.len() - 1 {
                    assert(old_offs[k + 1] == offs@[k + 1]);
                } else {
                    assert(toks@[k] == old_toks.last());
                }
            }
        }
        assert forall|k: int| 0 <= k < toks@.len() - 1 implies token_at(
            src@,
            #[trigger] toks@[k],
            offs@[k] as int,
        ) by {
        }
        Ok((toks, offs))
    }

    /// Tokenizes `text`; the tokens stand at increasing indices of it, as
    /// [`Lexer::lex_with_offsets`] states.
    pub fn lex_text(&self, text: &str) -> (r: Result<Vec<Token>, LexError>)
        ensures
            r matches Ok(t) ==> lexes_to(text@, t@),
            plain_source(text@) ==> r is Ok,
            r matches Err(e) ==> lex_failure(text@, e),
    {
        let src = str_chars(text);
        match self.lex_with_offsets(&src) {
            Ok((t, o)) => {
                assert(tokens_of(text@, t@, o@));
                assert(lexes_to(text@, t@));
                Ok(t)
            },
            Err(e) => Err(e),
        }
    }
}

/// `toks` is a tokenization of `src`, for some start indices of its tokens.
pub open spec fn lexes_to(src: Seq<char>, toks: Seq<Token>) -> bool {
    exists|o: Seq<usize>| tokens_of(src, toks, o)
}

/// Positions in order of their indices: line first, then column.
pub open spec fn pos_before(p: (int, int), q: (int, int)) -> bool {
    p.0 < q.0 || (p.0 == q.0 && p.1 < q.1)
}

proof fn lemma_pos_step(src: Seq<char>, i: int)
    requires
        0 <= i < src.len(),
    ensures
        pos_before(pos_at(src, i), pos_at(src, i + 1)),
        pos_at(src, i).1 >= 1,
    decreases i,
{
    if i > 0 {
        lemma_pos_step(src, i - 1);
    }
}

/// Distinct indices of a text have distinct line/column positions, ordered as
/// the indices are: a position recovers the index it was taken from.
pub proof fn lemma_pos_injective(src: Seq<char>, i: int, j: int)
    requires
        0 <= i < j <= src.len(),
    ensures
        pos_before(pos_at(src, i), pos_at(src, j)),
        pos_at(src, i) != pos_at(src, j),
    decreases j - i,
{
    lemma_pos_step(src, j - 1);
    if i < j - 1 {
        lemma_pos_injective(src, i, j - 1);
    }
}

/// The line and column recorded in each token of a tokenization lead back to
/// the exact index at which that token starts, and to no other index.
pub proof fn lemma_token_positions_round_trip(src: Seq<char>, toks: Seq<Token>, offs: Seq<usize>)
    requires
        tokens_of(src, toks, offs),
    ensures
        forall|t: int, k: int|
            0 <= t < toks.len() && 0 <= k <= src.len() && pos_at(src, k) == (
                toks[t].x as int,
                toks[t].y as int,
            ) ==> k == offs[t],
{
    assert forall|t: int, k: int|
        0 <= t < toks.len() && 0 <= k <= src.len() && pos_at(src, k) == (
            toks[t].x as int,
            toks[t].y as int,
        ) implies k == offs[t] by {
        if t < toks.len() - 1 {
            assert(token_at(src, toks[t], offs[t] as int));
        }
        let o = offs[t] as int;
        if k < o {
            lemma_pos_injective(src, k, o);
        } else if o < k {
            lemma_pos_injective(src, o, k);
        }
    }
}

/// The index of `src` whose position is line `line`, column `column`, if any.
pub fn offset_of_position(src: &Vec<char>, line: usize, column: usize) -> (r: Option<usize>)
    requires
        src@.len() < usize::MAX,
    ensures
        r matches Some(k) ==> k <= src@.len() && pos_at(src@, k as int) == (line as int, column as int),
        r is None ==> forall|k: int|
            0 <= k <= src@.len() ==> pos_at(src@, k) != (line as int, column as int),
{
    let mut i: usize = 0;
    let mut l: usize = 1;
    let mut c: usize = 1;
    loop
        invariant
            i <= src@.len() < usize::MAX,
            (l as int, c as int) == pos_at(src@, i as int),
            1 <= l <= i + 1,
            1 <= c <= i + 1,
            forall|k: int| 0 <= k < i ==> pos_at(src@, k) != (line as int, column as int),
        decreases src@.len() - i,
    {
        if l == line && c == column {
            return Some(i);
        }
        if i == src.len() {
            return None;
        }
        let p = step(src, i, l, c);
        l = p.0;
        c = p.1;
        i = i + 1;
    }
}

} // verus!
