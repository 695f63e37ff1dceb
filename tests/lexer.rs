use minlang::lexer::{offset_of_position, Lexer, Token, TokenType};

const FIXTURE: &str = "function main() -> int {\n    int x <- 41;\n    return x;\n}\n";

fn lex(s: &str) -> Vec<Token> {
    Lexer::new().lex_text(s).expect("tokenizes")
}

#[test]
fn fixture_token_positions() {
    let toks = lex(FIXTURE);
    let got: Vec<(TokenType, &str, usize, usize)> =
        toks.iter().map(|t| (t.token_type, t.value.as_str(), t.x, t.y)).collect();
    let expected = vec![
        (TokenType::Fun, "function", 1, 1),
        (TokenType::Identifier, "main", 1, 10),
        (TokenType::ParenthesisOpen, "(", 1, 14),
        (TokenType::ParenthesisClose, ")", 1, 15),
        (TokenType::ReturnTypeArrow, "->", 1, 17),
        (TokenType::Identifier, "int", 1, 20),
        (TokenType::CurlyBracketOpen, "{", 1, 24),
        (TokenType::Identifier, "int", 2, 5),
        (TokenType::Identifier, "x", 2, 9),
        (TokenType::AssignmentArrow, "<-", 2, 11),
        (TokenType::Integer, "41", 2, 14),
        (TokenType::EndLine, ";", 2, 16),
        (TokenType::Return, "return", 3, 5),
        (TokenType::Identifier, "x", 3, 12),
        (TokenType::EndLine, ";", 3, 13),
        (TokenType::CurlyBracketClose, "}", 4, 1),
        (TokenType::EndOfFile, "", 5, 1),
    ];
    assert_eq!(got, expected);
}

#[test]
fn positions_round_trip_to_token_text() {
    let src: Vec<char> = FIXTURE.chars().collect();
    let (toks, offs) = Lexer::new().lex_with_offsets(&src).expect("tokenizes");
    assert_eq!(toks.len(), offs.len());
    for (t, o) in toks.iter().zip(offs.iter()) {
        let back = offset_of_position(&src, t.x, t.y);
        assert_eq!(back, Some(*o));
        let text: String = src[*o..*o + t.value.chars().count()].iter().collect();
        assert_eq!(text, t.value);
    }
    assert_eq!(offset_of_position(&src, 9, 9), None);
}

#[test]
fn operator_and_literal_kinds() {
    let toks = lex("a <= b == c != d >= e < f > g + - * / , ; ( ) { } -> <- true false 3.14 \"s t\"");
    let kinds: Vec<TokenType> = toks.iter().map(|t| t.token_type).collect();
    assert_eq!(
        kinds,
        vec![
            TokenType::Identifier, TokenType::ComparisonOperation, TokenType::Identifier, TokenType::ComparisonOperation, TokenType::Identifier,
            TokenType::ComparisonOperation, TokenType::Identifier, TokenType::ComparisonOperation, TokenType::Identifier, TokenType::ComparisonOperation,
            TokenType::Identifier, TokenType::ComparisonOperation, TokenType::Identifier, TokenType::MathOperation, TokenType::MathOperation,
            TokenType::MathOperation, TokenType::MathOperation, TokenType::SeparatorComma, TokenType::EndLine, TokenType::ParenthesisOpen,
            TokenType::ParenthesisClose, TokenType::CurlyBracketOpen, TokenType::CurlyBracketClose, TokenType::ReturnTypeArrow,
            TokenType::AssignmentArrow, TokenType::Boolean, TokenType::Boolean, TokenType::FloatingPoint, TokenType::String, TokenType::EndOfFile,
        ]
    );
    assert_eq!(toks[toks.len() - 2].value, "s t");
    assert_eq!(toks[toks.len() - 3].value, "3.14");
}

#[test]
fn empty_source_is_only_end_of_file() {
    let toks = lex("");
    assert_eq!(toks.len(), 1);
    assert_eq!(toks[0].token_type, TokenType::EndOfFile);
    assert_eq!((toks[0].x, toks[0].y), (1, 1));
}

#[test]
fn unknown_character_is_reported_with_position() {
    let e = Lexer::new().lex_text("int x\n  @").unwrap_err();
    assert_eq!((e.line, e.column), (2, 3));
}

#[test]
fn unterminated_string_is_reported() {
    let e = Lexer::new().lex_text("x \"abc").unwrap_err();
    assert_eq!((e.line, e.column), (1, 3));
}

#[test]
fn number_with_two_points_is_reported() {
    assert!(Lexer::new().lex_text("1.2.3").is_err());
}

#[test]
fn literal_tokens_are_data() {
    let toks = lex("1 x");
    assert!(toks[0].is_data_type());
    assert!(!toks[1].is_data_type());
}

#[test]
fn tokens_are_longest_matches() {
    let toks = lex("abc12 345 <= <- ->x");
    let got: Vec<(TokenType, &str)> = toks.iter().map(|t| (t.token_type, t.value.as_str())).collect();
    assert_eq!(
        got,
        vec![
            (TokenType::Identifier, "abc12"),
            (TokenType::Integer, "345"),
            (TokenType::ComparisonOperation, "<="),
            (TokenType::AssignmentArrow, "<-"),
            (TokenType::ReturnTypeArrow, "->"),
            (TokenType::Identifier, "x"),
            (TokenType::EndOfFile, ""),
        ]
    );
}

#[test]
fn keywords_are_recognised() {
    let toks = lex("function return true false functions");
    let kinds: Vec<TokenType> = toks.iter().map(|t| t.token_type).collect();
    assert_eq!(
        kinds,
        vec![TokenType::Fun, TokenType::Return, TokenType::Boolean, TokenType::Boolean, TokenType::Identifier, TokenType::EndOfFile]
    );
}
