//! The texts of error reports, and the parts that point into the source text.

use vstd::prelude::*;
use crate::lexer::{Keyword, Token, TokenView};
use crate::parser::{ParseErrorKind, ParseErrorKindView};
use crate::text::{chars_of, lines, lines_from, next_line, string_from_chars};

verus! {

/// The source line a report shows for line number `line` (line 1 when
/// `line` is 0); empty when the source has no such line.
pub open spec fn report_line_of(source: Seq<char>, line: nat) -> Seq<char> {
    let ls = lines(source);
    let shown: int = if line > 0 {
        line as int
    } else {
        1
    };
    if shown - 1 < ls.len() {
        ls[shown - 1]
    } else {
        seq![]
    }
}

/// The source line shown in a report for line number `line`.
pub fn report_line(source: &str, line: usize) -> (r: String)
    ensures
        r@ == report_line_of(source@, line as nat),
{
    let s = chars_of(source);
    let target: usize = if line > 0 {
        line - 1
    } else {
        0
    };
    let mut k: usize = 0;
    let mut pos: usize = 0;
    proof {
        assert(lines(s@).skip(0) =~= lines(s@));
    }
    while pos < s.len()
        invariant
            s@ == source@,
            pos <= s.len(),
            k <= target,
            k <= lines(s@).len(),
            target == (if line > 0 {
                line - 1
            } else {
                0
            }),
            lines(s@).skip(k as int) == lines_from(s@, pos as int),
        decreases s.len() - pos,
    {
        let (l, e) = next_line(&s, pos);
        let ghost ls = lines(s@);
        proof {
            assert(ls.skip(k as int).len() >= 1);
            assert(ls.skip(k as int)[0] == ls[k as int]);
            assert(ls.skip(k as int).drop_first() =~= ls.skip(k + 1));
        }
        if k == target {
            return string_from_chars(l.as_slice());
        }
        if e >= s.len() {
            proof {
                assert(lines_from(s@, e + 1) =~= Seq::<Seq<char>>::empty());
                assert(ls.skip(k + 1).len() == 0);
            }
            return String::new();
        }
        k = k + 1;
        pos = e + 1;
    }
    proof {
        assert(lines_from(s@, pos as int) =~= Seq::<Seq<char>>::empty());
        assert(lines(s@).skip(k as int).len() == 0);
    }
    String::new()
}

/// The marker line of a report: `col - 1` spaces (none when `col` is 0),
/// then a caret.
pub open spec fn caret_line_of(col: nat) -> Seq<char> {
    let pad: nat = if col > 0 {
        (col - 1) as nat
    } else {
        0
    };
    Seq::new(pad, |i: int| ' ').push('^')
}

/// The marker line that points at column `col`.
pub fn caret_line(col: usize) -> (r: String)
    ensures
        r@ == caret_line_of(col as nat),
{
    let pad: usize = if col > 0 {
        col - 1
    } else {
        0
    };
    let mut v: Vec<char> = Vec::new();
    let mut i: usize = 0;
    while i < pad
        invariant
            i <= pad,
            v@ == Seq::new(i as nat, |j: int| ' '),
        decreases pad - i,
    {
        v.push(' ');
        proof {
            assert(v@ =~= Seq::new((i + 1) as nat, |j: int| ' '));
        }
        i = i + 1;
    }
    v.push('^');
    string_from_chars(v.as_slice())
}

} // verus!

verus! {

/// The name a keyword is reported by.
pub open spec fn keyword_name(k: Keyword) -> Seq<char> {
    match k {
        Keyword::Six => "Six"@,
        Keyword::End => "End"@,
        Keyword::Fn => "Fn"@,
        Keyword::V => "V"@,
        Keyword::If => "If"@,
        Keyword::Else => "Else"@,
        Keyword::For => "For"@,
        Keyword::Ret => "Ret"@,
        Keyword::Use => "Use"@,
        Keyword::Try => "Try"@,
        Keyword::Put => "Put"@,
        Keyword::Get => "Get"@,
        Keyword::Ptr => "Ptr"@,
        Keyword::Leak => "Leak"@,
        Keyword::Report => "Report"@,
        Keyword::As => "As"@,
    }
}

fn keyword_name_string(k: Keyword) -> (s: String)
    ensures
        s@ == keyword_name(k),
{
    match k {
        Keyword::Six => String::from_str("Six"),
        Keyword::End => String::from_str("End"),
        Keyword::Fn => String::from_str("Fn"),
        Keyword::V => String::from_str("V"),
        Keyword::If => String::from_str("If"),
        Keyword::Else => String::from_str("Else"),
        Keyword::For => String::from_str("For"),
        Keyword::Ret => String::from_str("Ret"),
        Keyword::Use => String::from_str("Use"),
        Keyword::Try => String::from_str("Try"),
        Keyword::Put => String::from_str("Put"),
        Keyword::Get => String::from_str("Get"),
        Keyword::Ptr => String::from_str("Ptr"),
        Keyword::Leak => String::from_str("Leak"),
        Keyword::Report => String::from_str("Report"),
        Keyword::As => String::from_str("As"),
    }
}

/// How a token is reported: its variant's name, with what it holds in
/// brackets (text between double quotes, a character between single ones,
/// both as they are).
pub open spec fn token_name(t: TokenView) -> Seq<char> {
    match t {
        TokenView::Keyword(k) => "Keyword("@ + keyword_name(k) + ")"@,
        TokenView::Identifier(s) => "Identifier(\""@ + s + "\")"@,
        TokenView::Number(s) => "Number(\""@ + s + "\")"@,
        TokenView::Str(s) => "String(\""@ + s + "\")"@,
        TokenView::Op(s) => "Op(\""@ + s + "\")"@,
        TokenView::Unknown(c) => "Unknown('"@ + seq![c] + "')"@,
        TokenView::LParen => "LParen"@,
        TokenView::RParen => "RParen"@,
        TokenView::LBrace => "LBrace"@,
        TokenView::RBrace => "RBrace"@,
        TokenView::Comma => "Comma"@,
        TokenView::Dot => "Dot"@,
        TokenView::Colon => "Colon"@,
        TokenView::Newline => "Newline"@,
        TokenView::EOF => "EOF"@,
    }
}

fn joined(head: &str, body: &str) -> (s: String)
    ensures
        s@ == head@ + body@,
{
    let mut s = String::from_str(head);
    s.append(body);
    s
}

fn wrapped(head: &str, body: &str, tail: &str) -> (s: String)
    ensures
        s@ == head@ + body@ + tail@,
{
    let mut s = String::from_str(head);
    s.append(body);
    s.append(tail);
    s
}

fn token_name_string(t: &Token) -> (s: String)
    ensures
        s@ == token_name(t@),
{
    match t {
        Token::Keyword(k) => {
            let name = keyword_name_string(*k);
            wrapped("Keyword(", name.as_str(), ")")
        },
        Token::Identifier(s) => wrapped("Identifier(\"", s.as_str(), "\")"),
        Token::Number(s) => wrapped("Number(\"", s.as_str(), "\")"),
        Token::String(s) => wrapped("String(\"", s.as_str(), "\")"),
        Token::Op(s) => wrapped("Op(\"", s.as_str(), "\")"),
        Token::Unknown(c) => {
            let one = vec![*c];
            let cs = string_from_chars(one.as_slice());
            proof {
                assert(one@ =~= seq![*c]);
            }
            wrapped("Unknown('", cs.as_str(), "')")
        },
        Token::LParen => String::from_str("LParen"),
        Token::RParen => String::from_str("RParen"),
        Token::LBrace => String::from_str("LBrace"),
        Token::RBrace => String::from_str("RBrace"),
        Token::Comma => String::from_str("Comma"),
        Token::Dot => String::from_str("Dot"),
        Token::Colon => String::from_str("Colon"),
        Token::Newline => String::from_str("Newline"),
        Token::EOF => String::from_str("EOF"),
    }
}

/// The text a parse error is reported with.
pub open spec fn parse_message(k: ParseErrorKindView) -> Seq<char> {
    match k {
        ParseErrorKindView::MissingSixHeader => "Every .six project must start with 'six <name>'"@,
        ParseErrorKindView::ExpectedProjectName => "Expected project name after 'six'"@,
        ParseErrorKindView::ExpectedIdentifierAfterV => "Expected identifier after 'v'"@,
        ParseErrorKindView::ExpectedTypeName => "Expected type name after ':'"@,
        ParseErrorKindView::ExpectedFunctionName => "Expected function name"@,
        ParseErrorKindView::ExpectedParameterName => "Expected parameter name"@,
        ParseErrorKindView::ExpectedLoopVariable => "Expected identifier for loop variable"@,
        ParseErrorKindView::ExpectedStringAfterUse => "Expected string after 'use'"@,
        ParseErrorKindView::ExpectedIdentifierAfterGet => "Expected identifier after 'get'"@,
        ParseErrorKindView::ExpectedTypeAfterAs => "Expected type name after 'as'"@,
        ParseErrorKindView::ExpectedIdentifierAfterAmp => "Expected identifier after '&'"@,
        ParseErrorKindView::UnexpectedToken => "Unexpected token"@,
        ParseErrorKindView::ExpectedIdentifierAfterHash => "Expected identifier after '#'"@,
        ParseErrorKindView::MissingMain => "Missing 'fn main()' in the root 'six' block."@,
        ParseErrorKindView::ExpectedToken(t) => "Expected "@ + token_name(t),
        ParseErrorKindView::ExpectedKeyword(k) => "Expected "@ + keyword_name(k),
        ParseErrorKindView::ExpectedOperator(op) => "Expected operator '"@ + op + "'"@,
    }
}

impl ParseErrorKind {
    /// The text this error is reported with.
    pub fn message(&self) -> (m: String)
        ensures
            m@ == parse_message(self@),
    {
        match self {
            ParseErrorKind::MissingSixHeader => String::from_str("Every .six project must start with 'six <name>'"),
            ParseErrorKind::ExpectedProjectName => String::from_str("Expected project name after 'six'"),
            ParseErrorKind::ExpectedIdentifierAfterV => String::from_str("Expected identifier after 'v'"),
            ParseErrorKind::ExpectedTypeName => String::from_str("Expected type name after ':'"),
            ParseErrorKind::ExpectedFunctionName => String::from_str("Expected function name"),
            ParseErrorKind::ExpectedParameterName => String::from_str("Expected parameter name"),
            ParseErrorKind::ExpectedLoopVariable => String::from_str("Expected identifier for loop variable"),
            ParseErrorKind::ExpectedStringAfterUse => String::from_str("Expected string after 'use'"),
            ParseErrorKind::ExpectedIdentifierAfterGet => String::from_str("Expected identifier after 'get'"),
            ParseErrorKind::ExpectedTypeAfterAs => String::from_str("Expected type name after 'as'"),
            ParseErrorKind::ExpectedIdentifierAfterAmp => String::from_str("Expected identifier after '&'"),
            ParseErrorKind::UnexpectedToken => String::from_str("Unexpected token"),
            ParseErrorKind::ExpectedIdentifierAfterHash => String::from_str("Expected identifier after '#'"),
            ParseErrorKind::MissingMain => String::from_str("Missing 'fn main()' in the root 'six' block."),
            ParseErrorKind::ExpectedToken(t) => {
                let name = token_name_string(t);
                joined("Expected ", name.as_str())
            },
            ParseErrorKind::ExpectedKeyword(k) => {
                let name = keyword_name_string(*k);
                joined("Expected ", name.as_str())
            },
            ParseErrorKind::ExpectedOperator(op) => wrapped("Expected operator '", op.as_str(), "'"),
        }
    }
}

} // verus!
