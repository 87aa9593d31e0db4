//! Turns `.six` source text into tokens with line and column positions.

use vstd::prelude::*;
use crate::text::{
    chars_of, char_is_alphabetic, char_is_alphanumeric, char_is_numeric, char_is_whitespace,
    string_from_chars, unicode_alphabetic, unicode_numeric, unicode_whitespace,
};

verus! {

/// Reserved words of the language.
#[derive(Debug, Clone, Copy, PartialEq, Eq, Structural)]
pub enum Keyword {
    Six,
    End,
    Fn,
    V,
    If,
    Else,
    For,
    Ret,
    Use,
    Try,
    Put,
    Get,
    Ptr,
    Leak,
    Report,
    As,
}

#[derive(Debug, Clone, PartialEq)]
pub enum Token {
    Keyword(Keyword),
    Identifier(String),
    Number(String),
    String(String),
    Op(String),
    LParen,
    RParen,
    LBrace,
    RBrace,
    Comma,
    Dot,
    Colon,
    Newline,
    Unknown(char),
    EOF,
}

/// The mathematical model of a token: its text as a character sequence.
pub enum TokenView {
    Keyword(Keyword),
    Identifier(Seq<char>),
    Number(Seq<char>),
    Str(Seq<char>),
    Op(Seq<char>),
    LParen,
    RParen,
    LBrace,
    RBrace,
    Comma,
    Dot,
    Colon,
    Newline,
    Unknown(char),
    EOF,
}

impl View for Token {
    type V = TokenView;

    open spec fn view(&self) -> TokenView {
        match self {
            Token::Keyword(k) => TokenView::Keyword(*k),
            Token::Identifier(s) => TokenView::Identifier(s@),
            Token::Number(s) => TokenView::Number(s@),
            Token::String(s) => TokenView::Str(s@),
            Token::Op(s) => TokenView::Op(s@),
            Token::LParen => TokenView::LParen,
            Token::RParen => TokenView::RParen,
            Token::LBrace => TokenView::LBrace,
            Token::RBrace => TokenView::RBrace,
            Token::Comma => TokenView::Comma,
            Token::Dot => TokenView::Dot,
            Token::Colon => TokenView::Colon,
            Token::Newline => TokenView::Newline,
            Token::Unknown(c) => TokenView::Unknown(*c),
            Token::EOF => TokenView::EOF,
        }
    }
}

/// A token with the line and column at which it starts (both counted from 1).
#[derive(Debug, Clone, PartialEq)]
pub struct TokenData {
    pub token: Token,
    pub line: usize,
    pub col: usize,
}

pub struct TokenDataView {
    pub token: TokenView,
    pub line: int,
    pub col: int,
}

impl View for TokenData {
    type V = TokenDataView;

    open spec fn view(&self) -> TokenDataView {
        TokenDataView { token: self.token@, line: self.line as int, col: self.col as int }
    }
}

impl Token {
    /// A copy of the token.
    pub fn duplicate(&self) -> (t: Token)
        ensures
            t@ == self@,
    {
        match self {
            Token::Keyword(k) => Token::Keyword(*k),
            Token::Identifier(s) => Token::Identifier(s.clone()),
            Token::Number(s) => Token::Number(s.clone()),
            Token::String(s) => Token::String(s.clone()),
            Token::Op(s) => Token::Op(s.clone()),
            Token::LParen => Token::LParen,
            Token::RParen => Token::RParen,
            Token::LBrace => Token::LBrace,
            Token::RBrace => Token::RBrace,
            Token::Comma => Token::Comma,
            Token::Dot => Token::Dot,
            Token::Colon => Token::Colon,
            Token::Newline => Token::Newline,
            Token::Unknown(c) => Token::Unknown(*c),
            Token::EOF => Token::EOF,
        }
    }

    /// Whether this is the end-of-input token.
    pub fn is_eof(&self) -> (b: bool)
        ensures
            b == (self@ is EOF),
    {
        match self {
            Token::EOF => true,
            _ => false,
        }
    }
}

impl TokenData {
    /// A copy of the token data.
    pub fn duplicate(&self) -> (t: TokenData)
        ensures
            t@ == self@,
    {
        TokenData { token: self.token.duplicate(), line: self.line, col: self.col }
    }
}

/// The spelling of each keyword.
pub open spec fn keyword_text(k: Keyword) -> Seq<char> {
    match k {
        Keyword::Six => seq!['s', 'i', 'x'],
        Keyword::End => seq!['e', 'n', 'd'],
        Keyword::Fn => seq!['f', 'n'],
        Keyword::V => seq!['v'],
        Keyword::If => seq!['i', 'f'],
        Keyword::Else => seq!['e', 'l', 's', 'e'],
        Keyword::For => seq!['f', 'o', 'r'],
        Keyword::Ret => seq!['r', 'e', 't'],
        Keyword::Use => seq!['u', 's', 'e'],
        Keyword::Try => seq!['t', 'r', 'y'],
        Keyword::Put => seq!['p', 'u', 't'],
        Keyword::Get => seq!['g', 'e', 't'],
        Keyword::Ptr => seq!['p', 't', 'r'],
        Keyword::Leak => seq!['l', 'e', 'a', 'k'],
        Keyword::Report => seq!['r', 'e', 'p', 'o', 'r', 't'],
        Keyword::As => seq!['a', 's'],
    }
}

/// The keyword spelled by `text`, if any.
pub open spec fn keyword_of(text: Seq<char>) -> Option<Keyword> {
    if text == keyword_text(Keyword::Six) {
        Some(Keyword::Six)
    } else if text == keyword_text(Keyword::End) {
        Some(Keyword::End)
    } else if text == keyword_text(Keyword::Fn) {
        Some(Keyword::Fn)
    } else if text == keyword_text(Keyword::V) {
        Some(Keyword::V)
    } else if text == keyword_text(Keyword::If) {
        Some(Keyword::If)
    } else if text == keyword_text(Keyword::Else) {
        Some(Keyword::Else)
    } else if text == keyword_text(Keyword::For) {
        Some(Keyword::For)
    } else if text == keyword_text(Keyword::Ret) {
        Some(Keyword::Ret)
    } else if text == keyword_text(Keyword::Use) {
        Some(Keyword::Use)
    } else if text == keyword_text(Keyword::Try) {
        Some(Keyword::Try)
    } else if text == keyword_text(Keyword::Put) {
        Some(Keyword::Put)
    } else if text == keyword_text(Keyword::Get) {
        Some(Keyword::Get)
    } else if text == keyword_text(Keyword::Ptr) {
        Some(Keyword::Ptr)
    } else if text == keyword_text(Keyword::Leak) {
        Some(Keyword::Leak)
    } else if text == keyword_text(Keyword::Report) {
        Some(Keyword::Report)
    } else if text == keyword_text(Keyword::As) {
        Some(Keyword::As)
    } else {
        None
    }
}

pub open spec fn is_ident_start(c: char) -> bool {
    unicode_alphabetic(c) || c == '_'
}

pub open spec fn is_ident_char(c: char) -> bool {
    unicode_alphabetic(c) || unicode_numeric(c) || c == '_'
}

/// End of the longest run of identifier characters starting at `pos`.
pub open spec fn ident_end(input: Seq<char>, pos: int) -> int
    decreases input.len() - pos,
{
    if 0 <= pos < input.len() && is_ident_char(input[pos]) {
        ident_end(input, pos + 1)
    } else {
        pos
    }
}

/// End of the longest run of numeric characters starting at `pos`.
pub open spec fn number_end(input: Seq<char>, pos: int) -> int
    decreases input.len() - pos,
{
    if 0 <= pos < input.len() && unicode_numeric(input[pos]) {
        number_end(input, pos + 1)
    } else {
        pos
    }
}

/// Index of the first `"` at or after `pos`, or the end of input.
pub open spec fn quote_end(input: Seq<char>, pos: int) -> int
    decreases input.len() - pos,
{
    if 0 <= pos < input.len() && input[pos] != '"' {
        quote_end(input, pos + 1)
    } else {
        pos
    }
}

/// The line and column reached from `(line, col)` by passing over
/// `input[from..to]`: a line feed starts the next line at column 1, any
/// other character moves one column on.
pub open spec fn pos_after(input: Seq<char>, from: int, to: int, line: int, col: int) -> (int, int)
    decreases to - from,
{
    if to <= from {
        (line, col)
    } else {
        let (l, c) = pos_after(input, from, to - 1, line, col);
        if input[to - 1] == '\n' {
            (l + 1, 1)
        } else {
            (l, c + 1)
        }
    }
}

/// The lexer's state: the input characters, the position in them, and the
/// line and column of that position.
pub struct LexerView {
    pub input: Seq<char>,
    pub pos: int,
    pub line: int,
    pub col: int,
}

/// What holds of every lexer state.
pub open spec fn lexer_wf(s: LexerView) -> bool {
    &&& 0 <= s.pos <= s.input.len() < usize::MAX
    &&& 1 <= s.line <= s.pos + 1
    &&& 1 <= s.col <= s.pos + 1
}

/// Skipping of whitespace and `//` comments. Returns the new position, line,
/// column, and whether a line break was skipped. `in_comment` is set while
/// the rest of a comment line is being skipped.
pub open spec fn skip_ws(
    input: Seq<char>,
    pos: int,
    line: int,
    col: int,
    newline: bool,
    in_comment: bool,
) -> (int, int, int, bool)
    decreases input.len() - pos, if in_comment { 1int } else { 0int },
{
    if in_comment {
        if 0 <= pos < input.len() && input[pos] != '\n' {
            skip_ws(input, pos + 1, line, col + 1, newline, true)
        } else {
            skip_ws(input, pos, line, col, newline, false)
        }
    } else if 0 <= pos < input.len() {
        let ch = input[pos];
        if unicode_whitespace(ch) {
            if ch == '\n' {
                skip_ws(input, pos + 1, line + 1, 1, true, false)
            } else {
                skip_ws(input, pos + 1, line, col + 1, newline, false)
            }
        } else if ch == '/' && pos + 1 < input.len() && input[pos + 1] == '/' {
            skip_ws(input, pos + 1, line, col + 1, newline, true)
        } else {
            (pos, line, col, newline)
        }
    } else {
        (pos, line, col, newline)
    }
}

pub open spec fn is_compound_op_char(c: char) -> bool {
    c == '+' || c == '-' || c == '*' || c == '/' || c == '=' || c == '<' || c == '>' || c == '!'
        || c == '^' || c == '|'
}

/// A punctuation token starting at `pos`, and how many characters it takes.
pub open spec fn punct(input: Seq<char>, pos: int) -> (TokenView, int) {
    let ch = input[pos];
    if ch == '(' {
        (TokenView::LParen, 1)
    } else if ch == ')' {
        (TokenView::RParen, 1)
    } else if ch == '{' {
        (TokenView::LBrace, 1)
    } else if ch == '}' {
        (TokenView::RBrace, 1)
    } else if ch == ',' {
        (TokenView::Comma, 1)
    } else if ch == '.' {
        if pos + 1 < input.len() && input[pos + 1] == '.' {
            (TokenView::Op(seq!['.', '.']), 2)
        } else {
            (TokenView::Dot, 1)
        }
    } else if ch == ':' {
        (TokenView::Colon, 1)
    } else if ch == '&' || ch == '#' || ch == '@' {
        (TokenView::Op(seq![ch]), 1)
    } else if is_compound_op_char(ch) {
        if pos + 1 < input.len() && input[pos + 1] == '=' {
            (TokenView::Op(seq![ch, '=']), 2)
        } else {
            (TokenView::Op(seq![ch]), 1)
        }
    } else {
        (TokenView::Unknown(ch), 1)
    }
}

/// One lexing step: the next state and the token read.
pub open spec fn lex_next(s: LexerView) -> (LexerView, TokenDataView) {
    let (p, l, c, nl) = skip_ws(s.input, s.pos, s.line, s.col, false, false);
    let s1 = LexerView { input: s.input, pos: p, line: l, col: c };
    if nl {
        (s1, TokenDataView { token: TokenView::Newline, line: l - 1, col: c })
    } else if p >= s.input.len() {
        (s1, TokenDataView { token: TokenView::EOF, line: l, col: c })
    } else {
        let ch = s.input[p];
        if is_ident_start(ch) {
            let e = ident_end(s.input, p);
            let text = s.input.subrange(p, e);
            let tok = match keyword_of(text) {
                Some(k) => TokenView::Keyword(k),
                None => TokenView::Identifier(text),
            };
            (
                LexerView { input: s.input, pos: e, line: l, col: c + (e - p) },
                TokenDataView { token: tok, line: l, col: c },
            )
        } else if unicode_numeric(ch) {
            let e = number_end(s.input, p);
            (
                LexerView { input: s.input, pos: e, line: l, col: c + (e - p) },
                TokenDataView { token: TokenView::Number(s.input.subrange(p, e)), line: l, col: c },
            )
        } else if ch == '"' {
            let e = quote_end(s.input, p + 1);
            let (l2, c2) = pos_after(s.input, p + 1, e, l, c + 1);
            let (e2, c3) = if e < s.input.len() {
                (e + 1, c2 + 1)
            } else {
                (e, c2)
            };
            (
                LexerView { input: s.input, pos: e2, line: l2, col: c3 },
                TokenDataView { token: TokenView::Str(s.input.subrange(p + 1, e)), line: l, col: c },
            )
        } else {
            let (tok, n) = punct(s.input, p);
            (
                LexerView { input: s.input, pos: p + n, line: l, col: c + n },
                TokenDataView { token: tok, line: l, col: c },
            )
        }
    }
}

/// `toks` is what lexing from `s` yields up to and including the first
/// end-of-input token, after which the lexer is in state `last`.
pub open spec fn lexes_to(s: LexerView, toks: Seq<TokenDataView>, last: LexerView) -> bool
    decreases toks.len(),
{
    if toks.len() == 0 {
        false
    } else {
        let (s2, t) = lex_next(s);
        &&& t == toks[0]
        &&& if t.token is EOF {
            toks.len() == 1 && last == s2
        } else {
            lexes_to(s2, toks.drop_first(), last)
        }
    }
}

proof fn lemma_ident_end(input: Seq<char>, pos: int)
    requires
        0 <= pos <= input.len(),
    ensures
        pos <= ident_end(input, pos) <= input.len(),
        pos < input.len() && is_ident_char(input[pos]) ==> pos < ident_end(input, pos),
    decreases input.len() - pos,
{
    if pos < input.len() && is_ident_char(input[pos]) {
        lemma_ident_end(input, pos + 1);
    }
}

proof fn lemma_number_end(input: Seq<char>, pos: int)
    requires
        0 <= pos <= input.len(),
    ensures
        pos <= number_end(input, pos) <= input.len(),
        pos < input.len() && unicode_numeric(input[pos]) ==> pos < number_end(input, pos),
    decreases input.len() - pos,
{
    if pos < input.len() && unicode_numeric(input[pos]) {
        lemma_number_end(input, pos + 1);
    }
}

proof fn lemma_quote_end(input: Seq<char>, pos: int)
    requires
        0 <= pos <= input.len(),
    ensures
        pos <= quote_end(input, pos) <= input.len(),
    decreases input.len() - pos,
{
    if pos < input.len() && input[pos] != '"' {
        lemma_quote_end(input, pos + 1);
    }
}

/// Passing over characters keeps the line and column within the position
/// reached, and never moves back a line.
proof fn lemma_pos_after(input: Seq<char>, from: int, to: int, line: int, col: int)
    requires
        from <= to,
        1 <= line <= from + 1,
        1 <= col <= from + 1,
    ensures
        ({
            let (l, c) = pos_after(input, from, to, line, col);
            &&& line <= l <= to + 1
            &&& 1 <= c <= to + 1
        }),
    decreases to - from,
{
    if to > from {
        lemma_pos_after(input, from, to - 1, line, col);
    }
}

/// Skipping whitespace keeps a well-formed position, and reports a line
/// break exactly when the line count went up.
proof fn lemma_skip_ws(
    input: Seq<char>,
    pos: int,
    line: int,
    col: int,
    newline: bool,
    in_comment: bool,
)
    requires
        0 <= pos <= input.len() < usize::MAX,
        1 <= line <= pos + 1,
        1 <= col <= pos + 1,
        newline ==> line >= 2,
    ensures
        ({
            let (p, l, c, nl) = skip_ws(input, pos, line, col, newline, in_comment);
            &&& pos <= p <= input.len()
            &&& 1 <= l <= p + 1
            &&& 1 <= c <= p + 1
            &&& line <= l
            &&& nl ==> l >= 2
            &&& (nl && !newline) ==> p > pos
            &&& (!nl ==> nl == newline)
        }),
    decreases input.len() - pos, if in_comment { 1int } else { 0int },
{
    if in_comment {
        if 0 <= pos < input.len() && input[pos] != '\n' {
            lemma_skip_ws(input, pos + 1, line, col + 1, newline, true);
        } else {
            lemma_skip_ws(input, pos, line, col, newline, false);
        }
    } else if 0 <= pos < input.len() {
        let ch = input[pos];
        if unicode_whitespace(ch) {
            if ch == '\n' {
                lemma_skip_ws(input, pos + 1, line + 1, 1, true, false);
            } else {
                lemma_skip_ws(input, pos + 1, line, col + 1, newline, false);
            }
        } else if ch == '/' && pos + 1 < input.len() && input[pos + 1] == '/' {
            lemma_skip_ws(input, pos + 1, line, col + 1, newline, true);
        }
    }
}

/// Every lexing step keeps the lexer well formed, and every step that does
/// not reach the end of input moves forward.
pub proof fn lemma_lex_next_progress(s: LexerView)
    requires
        lexer_wf(s),
    ensures
        ({
            let (s2, t) = lex_next(s);
            &&& lexer_wf(s2)
            &&& s2.input == s.input
            &&& (t.token is EOF) ==> s2.pos == s.input.len()
            &&& !(t.token is EOF) ==> s2.pos > s.pos
            &&& t.line >= 1
            &&& t.col >= 1
        }),
{
    lemma_skip_ws(s.input, s.pos, s.line, s.col, false, false);
    let (p, l, c, nl) = skip_ws(s.input, s.pos, s.line, s.col, false, false);
    if !nl && p < s.input.len() {
        lemma_ident_end(s.input, p);
        lemma_number_end(s.input, p);
        lemma_quote_end(s.input, p + 1);
        if s.input[p] == '"' {
            lemma_pos_after(s.input, p + 1, quote_end(s.input, p + 1), l, c + 1);
        }
    }
}

/// Skipping stops at the end of input or at a character that is neither
/// whitespace nor the start of a `//` comment.
proof fn lemma_skip_ws_stops(
    input: Seq<char>,
    pos: int,
    line: int,
    col: int,
    newline: bool,
    in_comment: bool,
)
    requires
        0 <= pos,
    ensures
        ({
            let (p, l, c, nl) = skip_ws(input, pos, line, col, newline, in_comment);
            p >= input.len() || (!unicode_whitespace(input[p]) && !(input[p] == '/' && p + 1
                < input.len() && input[p + 1] == '/'))
        }),
    decreases input.len() - pos, if in_comment { 1int } else { 0int },
{
    if in_comment {
        if 0 <= pos < input.len() && input[pos] != '\n' {
            lemma_skip_ws_stops(input, pos + 1, line, col + 1, newline, true);
        } else {
            lemma_skip_ws_stops(input, pos, line, col, newline, false);
        }
    } else if 0 <= pos < input.len() {
        let ch = input[pos];
        if unicode_whitespace(ch) {
            if ch == '\n' {
                lemma_skip_ws_stops(input, pos + 1, line + 1, 1, true, false);
            } else {
                lemma_skip_ws_stops(input, pos + 1, line, col + 1, newline, false);
            }
        } else if ch == '/' && pos + 1 < input.len() && input[pos + 1] == '/' {
            lemma_skip_ws_stops(input, pos + 1, line, col + 1, newline, true);
        }
    }
}

/// Law: a run of line breaks, blanks and comments gives one `Newline`
/// token; the token after a `Newline` is never another `Newline`.
pub proof fn law_no_repeated_newline(s: LexerView)
    requires
        lexer_wf(s),
    ensures
        lex_next(s).1.token is Newline ==> !(lex_next(lex_next(s).0).1.token is Newline),
{
    lemma_skip_ws_stops(s.input, s.pos, s.line, s.col, false, false);
    lemma_skip_ws(s.input, s.pos, s.line, s.col, false, false);
}

/// Law: lexing to the end gives at most one token more than there are
/// characters left, since every token but the end-of-input one consumes at
/// least one character.
pub proof fn law_token_count(s: LexerView, toks: Seq<TokenDataView>, last: LexerView)
    requires
        lexer_wf(s),
        lexes_to(s, toks, last),
    ensures
        toks.len() <= s.input.len() - s.pos + 1,
    decreases toks.len(),
{
    lemma_lex_next_progress(s);
    let (s2, t) = lex_next(s);
    if !(t.token is EOF) {
        law_token_count(s2, toks.drop_first(), last);
    }
}

/// A lexer over a sequence of characters.
pub struct Lexer {
    input: Vec<char>,
    pos: usize,
    line: usize,
    col: usize,
}

impl View for Lexer {
    type V = LexerView;

    closed spec fn view(&self) -> LexerView {
        LexerView {
            input: self.input@,
            pos: self.pos as int,
            line: self.line as int,
            col: self.col as int,
        }
    }
}

/// Whether `input[start..end]` spells exactly `word`.
fn range_is(input: &Vec<char>, start: usize, end: usize, word: &Vec<char>) -> (r: bool)
    requires
        start <= end <= input.len(),
    ensures
        r == (input@.subrange(start as int, end as int) == word@),
{
    if end - start != word.len() {
        return false;
    }
    let mut i: usize = 0;
    while i < word.len()
        invariant
            end - start == word.len(),
            start <= end <= input.len(),
            i <= word.len(),
            forall|j: int| 0 <= j < i ==> input@[start + j] == word@[j],
        decreases word.len() - i,
    {
        if input[start + i] != word[i] {
            assert(input@.subrange(start as int, end as int)[i as int] != word@[i as int]);
            return false;
        }
        i = i + 1;
    }
    assert(input@.subrange(start as int, end as int) =~= word@);
    true
}

fn keyword_chars(k: Keyword) -> (v: Vec<char>)
    ensures
        v@ == keyword_text(k),
{
    let v = match k {
        Keyword::Six => vec!['s', 'i', 'x'],
        Keyword::End => vec!['e', 'n', 'd'],
        Keyword::Fn => vec!['f', 'n'],
        Keyword::V => vec!['v'],
        Keyword::If => vec!['i', 'f'],
        Keyword::Else => vec!['e', 'l', 's', 'e'],
        Keyword::For => vec!['f', 'o', 'r'],
        Keyword::Ret => vec!['r', 'e', 't'],
        Keyword::Use => vec!['u', 's', 'e'],
        Keyword::Try => vec!['t', 'r', 'y'],
        Keyword::Put => vec!['p', 'u', 't'],
        Keyword::Get => vec!['g', 'e', 't'],
        Keyword::Ptr => vec!['p', 't', 'r'],
        Keyword::Leak => vec!['l', 'e', 'a', 'k'],
        Keyword::Report => vec!['r', 'e', 'p', 'o', 'r', 't'],
        Keyword::As => vec!['a', 's'],
    };
    assert(v@ =~= keyword_text(k));
    v
}

impl Lexer {
    #[verifier::type_invariant]
    spec fn inv(self) -> bool {
        lexer_wf(self@)
    }

    pub fn new(input: &str) -> (lx: Self)
        requires
            input@.len() < usize::MAX,
        ensures
            lx@ == (LexerView { input: input@, pos: 0, line: 1, col: 1 }),
    {
        Self { input: chars_of(input), pos: 0, line: 1, col: 1 }
    }

    /// Lexes up to and including the end-of-input token.
    pub fn tokenize(&mut self) -> (tokens: Vec<TokenData>)
        ensures
            lexes_to(old(self)@, tokens@.map_values(|t: TokenData| t@), final(self)@),
            tokens@.len() >= 1,
            tokens@.len() <= old(self)@.input.len() - old(self)@.pos + 1,
            tokens@.last().token@ is EOF,
            forall|i: int| 0 <= i < tokens@.len() - 1 ==> !(tokens@[i].token@ is EOF),
    {
        proof {
            use_type_invariant(&*self);
        }
        let mut tokens: Vec<TokenData> = Vec::new();
        let ghost start = self@;
        loop
            invariant_except_break
                forall|rest: Seq<TokenDataView>, last: LexerView|
                    lexes_to(self@, rest, last) ==> lexes_to(
                        start,
                        tokens@.map_values(|t: TokenData| t@) + rest,
                        last,
                    ),
                forall|i: int| 0 <= i < tokens@.len() ==> !(tokens@[i].token@ is EOF),
            ensures
                lexes_to(start, tokens@.map_values(|t: TokenData| t@), self@),
                tokens@.len() >= 1,
                tokens@.last().token@ is EOF,
                forall|i: int| 0 <= i < tokens@.len() - 1 ==> !(tokens@[i].token@ is EOF),
            decreases self@.input.len() - self@.pos,
        {
            proof {
                use_type_invariant(&*self);
                lemma_lex_next_progress(self@);
            }
            let ghost before = self@;
            let ghost old_tokens = tokens@;
            let td = self.next_token();
            let is_eof = td.token.is_eof();
            tokens.push(td);
            proof {
                let pre = old_tokens.map_values(|t: TokenData| t@);
                assert(tokens@.map_values(|t: TokenData| t@) =~= pre.push(td@));
                if is_eof {
                    assert(lexes_to(before, seq![td@], self@));
                    assert(pre + seq![td@] =~= pre.push(td@));
                } else {
                    assert forall|rest: Seq<TokenDataView>, last: LexerView|
                        lexes_to(self@, rest, last) implies lexes_to(
                        start,
                        tokens@.map_values(|t: TokenData| t@) + rest,
                        last,
                    ) by {
                        let r2 = seq![td@] + rest;
                        assert(r2.drop_first() =~= rest);
                        assert(lexes_to(before, r2, last));
                        assert(pre + r2 =~= pre.push(td@) + rest);
                    }
                }
            }
            if is_eof {
                break ;
            }
        }
        proof {
            assert(tokens@.map_values(|t: TokenData| t@).len() == tokens@.len());
            law_token_count(start, tokens@.map_values(|t: TokenData| t@), self@);
        }
        tokens
    }

    /// Skips whitespace and comments; true when a line break was skipped.
    fn skip_whitespace(&mut self) -> (newline: bool)
        ensures
            ({
                let (p, l, c, nl) = skip_ws(
                    old(self)@.input,
                    old(self)@.pos,
                    old(self)@.line,
                    old(self)@.col,
                    false,
                    false,
                );
                &&& final(self)@ == LexerView { input: old(self)@.input, pos: p, line: l, col: c }
                &&& newline == nl
            }),
    {
        proof {
            use_type_invariant(&*self);
        }
        let ghost s0 = self@;
        let mut newline = false;
        while self.pos < self.input.len()
            invariant_except_break
                self@.input == s0.input,
                lexer_wf(self@),
                newline ==> self@.line >= 2,
                skip_ws(s0.input, s0.pos, s0.line, s0.col, false, false) == skip_ws(
                    self@.input,
                    self@.pos,
                    self@.line,
                    self@.col,
                    newline,
                    false,
                ),
            ensures
                self@.input == s0.input,
                skip_ws(s0.input, s0.pos, s0.line, s0.col, false, false) == (
                    self@.pos,
                    self@.line,
                    self@.col,
                    newline,
                ),
            decreases self@.input.len() - self@.pos,
        {
            proof {
                use_type_invariant(&*self);
            }
            let ch = self.input[self.pos];
            if char_is_whitespace(ch) {
                if ch == '\n' {
                    self.pos = self.pos + 1;
                    self.col = 1;
                    self.line = self.line + 1;
                    newline = true;
                } else {
                    self.pos = self.pos + 1;
                    self.col = self.col + 1;
                }
            } else if ch == '/' && self.pos + 1 < self.input.len() && self.input[self.pos + 1]
                == '/' {
                let ghost p_before = self@.pos;
                self.pos = self.pos + 1;
                self.col = self.col + 1;
                while self.pos < self.input.len() && self.input[self.pos] != '\n'
                    invariant
                        self@.pos > p_before,
                        self@.input == s0.input,
                        lexer_wf(self@),
                        newline ==> self@.line >= 2,
                        skip_ws(s0.input, s0.pos, s0.line, s0.col, false, false) == skip_ws(
                            self@.input,
                            self@.pos,
                            self@.line,
                            self@.col,
                            newline,
                            true,
                        ),
                    decreases self@.input.len() - self@.pos,
                {
                    proof {
                        use_type_invariant(&*self);
                    }
                    self.pos = self.pos + 1;
                    self.col = self.col + 1;
                }
            } else {
                break ;
            }
        }
        newline
    }

    /// Reads the token at the current position.
    pub fn next_token(&mut self) -> (td: TokenData)
        ensures
            ({
                let (s2, t) = lex_next(old(self)@);
                final(self)@ == s2 && td@ == t
            }),
    {
        proof {
            use_type_invariant(&*self);
            lemma_lex_next_progress(self@);
            lemma_skip_ws(self@.input, self@.pos, self@.line, self@.col, false, false);
        }
        let is_newline = self.skip_whitespace();
        proof {
            use_type_invariant(&*self);
        }
        if is_newline {
            return TokenData { token: Token::Newline, line: self.line - 1, col: self.col };
        }
        let current_line = self.line;
        let current_col = self.col;

        if self.pos >= self.input.len() {
            return TokenData { token: Token::EOF, line: current_line, col: current_col };
        }
        let ch = self.input[self.pos];

        let token = if char_is_alphabetic(ch) || ch == '_' {
            self.read_identifier()
        } else if char_is_numeric(ch) {
            self.read_number()
        } else if ch == '"' {
            self.read_string()
        } else {
            self.read_punct(ch)
        };
        TokenData { token, line: current_line, col: current_col }
    }

    /// Reads a punctuation or operator token starting with `ch`.
    fn read_punct(&mut self, ch: char) -> (token: Token)
        requires
            old(self)@.pos < old(self)@.input.len(),
            ch == old(self)@.input[old(self)@.pos],
        ensures
            ({
                let (t, n) = punct(old(self)@.input, old(self)@.pos);
                &&& token@ == t
                &&& final(self)@ == LexerView {
                    input: old(self)@.input,
                    pos: old(self)@.pos + n,
                    line: old(self)@.line,
                    col: old(self)@.col + n,
                }
            }),
    {
        proof {
            use_type_invariant(&*self);
        }
        self.pos = self.pos + 1;
        self.col = self.col + 1;
        if ch == '(' {
            Token::LParen
        } else if ch == ')' {
            Token::RParen
        } else if ch == '{' {
            Token::LBrace
        } else if ch == '}' {
            Token::RBrace
        } else if ch == ',' {
            Token::Comma
        } else if ch == '.' {
            if self.pos < self.input.len() && self.input[self.pos] == '.' {
                self.pos = self.pos + 1;
                self.col = self.col + 1;
                let v = vec!['.', '.'];
                assert(v@ =~= seq!['.', '.']);
                Token::Op(string_from_chars(v.as_slice()))
            } else {
                Token::Dot
            }
        } else if ch == ':' {
            Token::Colon
        } else if ch == '&' || ch == '#' || ch == '@' {
            let v = vec![ch];
            assert(v@ =~= seq![ch]);
            Token::Op(string_from_chars(v.as_slice()))
        } else if ch == '+' || ch == '-' || ch == '*' || ch == '/' || ch == '=' || ch == '<' || ch
            == '>' || ch == '!' || ch == '^' || ch == '|' {
            if self.pos < self.input.len() && self.input[self.pos] == '=' {
                self.pos = self.pos + 1;
                self.col = self.col + 1;
                let v = vec![ch, '='];
                assert(v@ =~= seq![ch, '=']);
                Token::Op(string_from_chars(v.as_slice()))
            } else {
                let v = vec![ch];
                assert(v@ =~= seq![ch]);
                Token::Op(string_from_chars(v.as_slice()))
            }
        } else {
            Token::Unknown(ch)
        }
    }

    fn read_identifier(&mut self) -> (token: Token)
        requires
            old(self)@.pos < old(self)@.input.len(),
        ensures
            ({
                let s = old(self)@;
                let e = ident_end(s.input, s.pos);
                let text = s.input.subrange(s.pos, e);
                &&& token@ == match keyword_of(text) {
                    Some(k) => TokenView::Keyword(k),
                    None => TokenView::Identifier(text),
                }
                &&& final(self)@ == LexerView {
                    input: s.input,
                    pos: e,
                    line: s.line,
                    col: s.col + (e - s.pos),
                }
            }),
    {
        proof {
            use_type_invariant(&*self);
        }
        let ghost s0 = self@;
        let start = self.pos;
        while self.pos < self.input.len() && (char_is_alphanumeric(self.input[self.pos])
            || self.input[self.pos] == '_')
            invariant
                self@.input == s0.input,
                self@.line == s0.line,
                s0.pos <= self@.pos,
                self@.col == s0.col + (self@.pos - s0.pos),
                start == s0.pos,
                ident_end(s0.input, s0.pos) == ident_end(self@.input, self@.pos),
                lexer_wf(self@),
            decreases self@.input.len() - self@.pos,
        {
            proof {
                use_type_invariant(&*self);
            }
            self.pos = self.pos + 1;
            self.col = self.col + 1;
        }
        let end = self.pos;
        let mut found: Option<Keyword> = None;
        if range_is(&self.input, start, end, &keyword_chars(Keyword::Six)) {
            found = Some(Keyword::Six);
        } else if range_is(&self.input, start, end, &keyword_chars(Keyword::End)) {
            found = Some(Keyword::End);
        } else if range_is(&self.input, start, end, &keyword_chars(Keyword::Fn)) {
            found = Some(Keyword::Fn);
        } else if range_is(&self.input, start, end, &keyword_chars(Keyword::V)) {
            found = Some(Keyword::V);
        } else if range_is(&self.input, start, end, &keyword_chars(Keyword::If)) {
            found = Some(Keyword::If);
        } else if range_is(&self.input, start, end, &keyword_chars(Keyword::Else)) {
            found = Some(Keyword::Else);
        } else if range_is(&self.input, start, end, &keyword_chars(Keyword::For)) {
            found = Some(Keyword::For);
        } else if range_is(&self.input, start, end, &keyword_chars(Keyword::Ret)) {
            found = Some(Keyword::Ret);
        } else if range_is(&self.input, start, end, &keyword_chars(Keyword::Use)) {
            found = Some(Keyword::Use);
        } else if range_is(&self.input, start, end, &keyword_chars(Keyword::Try)) {
            found = Some(Keyword::Try);
        } else if range_is(&self.input, start, end, &keyword_chars(Keyword::Put)) {
            found = Some(Keyword::Put);
        } else if range_is(&self.input, start, end, &keyword_chars(Keyword::Get)) {
            found = Some(Keyword::Get);
        } else if range_is(&self.input, start, end, &keyword_chars(Keyword::Ptr)) {
            found = Some(Keyword::Ptr);
        } else if range_is(&self.input, start, end, &keyword_chars(Keyword::Leak)) {
            found = Some(Keyword::Leak);
        } else if range_is(&self.input, start, end, &keyword_chars(Keyword::Report)) {
            found = Some(Keyword::Report);
        } else if range_is(&self.input, start, end, &keyword_chars(Keyword::As)) {
            found = Some(Keyword::As);
        }
        match found {
            Some(k) => Token::Keyword(k),
            None => {
                let text = string_from_chars(
                    vstd::slice::slice_subrange(self.input.as_slice(), start, end),
                );
                Token::Identifier(text)
            },
        }
    }

    fn read_number(&mut self) -> (token: Token)
        requires
            old(self)@.pos < old(self)@.input.len(),
        ensures
            ({
                let s = old(self)@;
                let e = number_end(s.input, s.pos);
                &&& token@ == TokenView::Number(s.input.subrange(s.pos, e))
                &&& final(self)@ == LexerView {
                    input: s.input,
                    pos: e,
                    line: s.line,
                    col: s.col + (e - s.pos),
                }
            }),
    {
        proof {
            use_type_invariant(&*self);
        }
        let ghost s0 = self@;
        let start = self.pos;
        while self.pos < self.input.len() && char_is_numeric(self.input[self.pos])
            invariant
                self@.input == s0.input,
                self@.line == s0.line,
                s0.pos <= self@.pos,
                self@.col == s0.col + (self@.pos - s0.pos),
                start == s0.pos,
                number_end(s0.input, s0.pos) == number_end(self@.input, self@.pos),
                lexer_wf(self@),
            decreases self@.input.len() - self@.pos,
        {
            proof {
                use_type_invariant(&*self);
            }
            self.pos = self.pos + 1;
            self.col = self.col + 1;
        }
        let text = string_from_chars(
            vstd::slice::slice_subrange(self.input.as_slice(), start, self.pos),
        );
        Token::Number(text)
    }

    fn read_string(&mut self) -> (token: Token)
        requires
            old(self)@.pos < old(self)@.input.len(),
        ensures
            ({
                let s = old(self)@;
                let e = quote_end(s.input, s.pos + 1);
                let e2 = if e < s.input.len() {
                    e + 1
                } else {
                    e
                };
                let (l2, c2) = pos_after(s.input, s.pos + 1, e, s.line, s.col + 1);
                &&& token@ == TokenView::Str(s.input.subrange(s.pos + 1, e))
                &&& final(self)@ == LexerView {
                    input: s.input,
                    pos: e2,
                    line: l2,
                    col: if e < s.input.len() {
                        c2 + 1
                    } else {
                        c2
                    },
                }
            }),
    {
        proof {
            use_type_invariant(&*self);
        }
        let ghost s0 = self@;
        self.pos = self.pos + 1;
        self.col = self.col + 1;
        let start = self.pos;
        while self.pos < self.input.len() && self.input[self.pos] != '"'
            invariant
                self@.input == s0.input,
                lexer_wf(s0),
                s0.pos + 1 <= self@.pos,
                (self@.line, self@.col) == pos_after(
                    s0.input,
                    s0.pos + 1,
                    self@.pos,
                    s0.line,
                    s0.col + 1,
                ),
                start == s0.pos + 1,
                quote_end(s0.input, s0.pos + 1) == quote_end(self@.input, self@.pos),
                lexer_wf(self@),
            decreases self@.input.len() - self@.pos,
        {
            proof {
                use_type_invariant(&*self);
                lemma_pos_after(s0.input, s0.pos + 1, self@.pos + 1, s0.line, s0.col + 1);
            }
            let ch = self.input[self.pos];
            self.pos = self.pos + 1;
            if ch == '\n' {
                self.line = self.line + 1;
                self.col = 1;
            } else {
                self.col = self.col + 1;
            }
        }
        let text = string_from_chars(
            vstd::slice::slice_subrange(self.input.as_slice(), start, self.pos),
        );
        if self.pos < self.input.len() {
            self.pos = self.pos + 1;
            self.col = self.col + 1;
        }
        Token::String(text)
    }
}

} // verus!
