use six::lexer::{Keyword, Lexer, Token, TokenData};

fn lex(src: &str) -> Vec<TokenData> {
    let mut lexer = Lexer::new(src);
    lexer.tokenize()
}

fn kinds(src: &str) -> Vec<Token> {
    lex(src).into_iter().map(|t| t.token).collect()
}

#[test]
fn header_tokens_with_positions() {
    let toks = lex("six Demo");
    assert_eq!(toks.len(), 3);
    assert_eq!(toks[0].token, Token::Keyword(Keyword::Six));
    assert_eq!((toks[0].line, toks[0].col), (1, 1));
    assert_eq!(toks[1].token, Token::Identifier("Demo".to_string()));
    assert_eq!((toks[1].line, toks[1].col), (1, 5));
    assert_eq!(toks[2].token, Token::EOF);
    assert_eq!((toks[2].line, toks[2].col), (1, 9));
}

#[test]
fn every_keyword_is_recognised() {
    let src = "six end fn v if else for ret use try put get ptr leak report as";
    let expected = vec![
        Keyword::Six,
        Keyword::End,
        Keyword::Fn,
        Keyword::V,
        Keyword::If,
        Keyword::Else,
        Keyword::For,
        Keyword::Ret,
        Keyword::Use,
        Keyword::Try,
        Keyword::Put,
        Keyword::Get,
        Keyword::Ptr,
        Keyword::Leak,
        Keyword::Report,
        Keyword::As,
    ];
    let toks = kinds(src);
    assert_eq!(toks.len(), expected.len() + 1);
    for (i, k) in expected.into_iter().enumerate() {
        assert_eq!(toks[i], Token::Keyword(k));
    }
    assert_eq!(toks[toks.len() - 1], Token::EOF);
}

#[test]
fn identifiers_may_hold_underscores_and_digits() {
    assert_eq!(
        kinds("_tmp x1 sixer"),
        vec![
            Token::Identifier("_tmp".to_string()),
            Token::Identifier("x1".to_string()),
            Token::Identifier("sixer".to_string()),
            Token::EOF,
        ]
    );
}

#[test]
fn operators_and_punctuation() {
    assert_eq!(
        kinds("( ) { } , . .. : & # @ + - * / = < > ! ^ |"),
        vec![
            Token::LParen,
            Token::RParen,
            Token::LBrace,
            Token::RBrace,
            Token::Comma,
            Token::Dot,
            Token::Op("..".to_string()),
            Token::Colon,
            Token::Op("&".to_string()),
            Token::Op("#".to_string()),
            Token::Op("@".to_string()),
            Token::Op("+".to_string()),
            Token::Op("-".to_string()),
            Token::Op("*".to_string()),
            Token::Op("/".to_string()),
            Token::Op("=".to_string()),
            Token::Op("<".to_string()),
            Token::Op(">".to_string()),
            Token::Op("!".to_string()),
            Token::Op("^".to_string()),
            Token::Op("|".to_string()),
            Token::EOF,
        ]
    );
}

#[test]
fn two_character_operators() {
    assert_eq!(
        kinds("a==b!=c<=d>=e+=1"),
        vec![
            Token::Identifier("a".to_string()),
            Token::Op("==".to_string()),
            Token::Identifier("b".to_string()),
            Token::Op("!=".to_string()),
            Token::Identifier("c".to_string()),
            Token::Op("<=".to_string()),
            Token::Identifier("d".to_string()),
            Token::Op(">=".to_string()),
            Token::Identifier("e".to_string()),
            Token::Op("+=".to_string()),
            Token::Number("1".to_string()),
            Token::EOF,
        ]
    );
}

#[test]
fn numbers_stop_at_the_first_non_digit() {
    assert_eq!(
        kinds("123abc"),
        vec![
            Token::Number("123".to_string()),
            Token::Identifier("abc".to_string()),
            Token::EOF,
        ]
    );
}

#[test]
fn strings_and_unterminated_strings() {
    let toks = lex("\"hi there\" x");
    assert_eq!(toks[0].token, Token::String("hi there".to_string()));
    assert_eq!(toks[1].token, Token::Identifier("x".to_string()));
    assert_eq!(toks[1].col, 12);
    assert_eq!(kinds("\"open"), vec![Token::String("open".to_string()), Token::EOF]);
}

#[test]
fn unknown_characters_are_kept() {
    assert_eq!(kinds("$"), vec![Token::Unknown('$'), Token::EOF]);
}

#[test]
fn newlines_collapse_and_carry_the_previous_line() {
    let toks = lex("a\n\n b");
    assert_eq!(toks[0].token, Token::Identifier("a".to_string()));
    assert_eq!(toks[1].token, Token::Newline);
    assert_eq!((toks[1].line, toks[1].col), (2, 2));
    assert_eq!(toks[2].token, Token::Identifier("b".to_string()));
    assert_eq!((toks[2].line, toks[2].col), (3, 2));
    assert_eq!(toks[3].token, Token::EOF);
}

#[test]
fn comments_are_skipped() {
    let toks = lex("// note\nput 1 // trailing");
    assert_eq!(toks[0].token, Token::Newline);
    assert_eq!(toks[0].line, 1);
    assert_eq!(toks[1].token, Token::Keyword(Keyword::Put));
    assert_eq!((toks[1].line, toks[1].col), (2, 1));
    assert_eq!(toks[2].token, Token::Number("1".to_string()));
    assert_eq!(toks[3].token, Token::EOF);
    assert_eq!(toks.len(), 4);
}

#[test]
fn a_single_slash_is_an_operator() {
    assert_eq!(
        kinds("6 / 2"),
        vec![
            Token::Number("6".to_string()),
            Token::Op("/".to_string()),
            Token::Number("2".to_string()),
            Token::EOF,
        ]
    );
}

#[test]
fn next_token_keeps_returning_eof() {
    let mut lexer = Lexer::new("x");
    assert_eq!(lexer.next_token().token, Token::Identifier("x".to_string()));
    let first = lexer.next_token();
    let second = lexer.next_token();
    assert_eq!(first.token, Token::EOF);
    assert_eq!(second.token, Token::EOF);
    assert_eq!((first.line, first.col), (second.line, second.col));
}

#[test]
fn empty_input_is_just_eof() {
    let toks = lex("");
    assert_eq!(toks.len(), 1);
    assert_eq!(toks[0].token, Token::EOF);
    assert_eq!((toks[0].line, toks[0].col), (1, 1));
}

#[test]
fn readme_example_lexes() {
    let src = "six MyProject\n    fn main()\n        try\n            v x: i32 = 500\n            v p = &x\n            *p = 999999\n            put *p\n        end\n    end\nend\n";
    let toks = lex(src);
    assert_eq!(toks[0].token, Token::Keyword(Keyword::Six));
    assert!(toks.iter().any(|t| t.token == Token::Number("999999".to_string())));
    assert_eq!(toks[toks.len() - 1].token, Token::EOF);
    let eofs = toks.iter().filter(|t| t.token == Token::EOF).count();
    assert_eq!(eofs, 1);
}

#[test]
fn line_breaks_inside_strings_move_to_the_next_line() {
    let toks = lex("\"a\nb\" x\ny");
    assert_eq!(toks[0].token, Token::String("a\nb".to_string()));
    assert_eq!((toks[0].line, toks[0].col), (1, 1));
    assert_eq!(toks[1].token, Token::Identifier("x".to_string()));
    assert_eq!((toks[1].line, toks[1].col), (2, 4));
    assert_eq!(toks[2].token, Token::Newline);
    assert_eq!(toks[2].line, 2);
    assert_eq!(toks[3].token, Token::Identifier("y".to_string()));
    assert_eq!((toks[3].line, toks[3].col), (3, 1));
}

#[test]
fn blank_lines_and_comments_give_one_newline() {
    assert_eq!(
        kinds("a\n\n // c\n b"),
        vec![
            Token::Identifier("a".to_string()),
            Token::Newline,
            Token::Identifier("b".to_string()),
            Token::EOF,
        ]
    );
}

#[test]
fn at_most_one_token_per_character_plus_the_end() {
    for src in ["", "abc", "((((", "a b c", "\n\n\n", "1+2*3", "\"x\""] {
        assert!(lex(src).len() <= src.chars().count() + 1);
    }
    assert_eq!(lex("((((").len(), 5);
}
