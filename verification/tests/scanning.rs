use graph_dsl::token::{token_eq, LexicalError, Token, Tokenizer};

fn scan(input: &str) -> Vec<Token> {
    let mut tokenizer = Tokenizer::new();
    match tokenizer.parse(input) {
        Ok(tokens) => tokens,
        Err(e) => panic!("scan failed: {:?}", e),
    }
}

#[test]
fn scans_punctuation_one_to_one() {
    let tokens = scan("{ } [ ] = \" -");
    assert_eq!(
        tokens,
        vec![
            Token::CurlyOpen,
            Token::CurlyClose,
            Token::BracketOpen,
            Token::BracketClose,
            Token::Equals,
            Token::Quotation,
            Token::Dash,
        ]
    );
}

#[test]
fn keyword_case_variants_resolve_to_keywords() {
    assert_eq!(scan("GRAPH"), vec![Token::GraphKeyword]);
    assert_eq!(scan("Graph"), vec![Token::GraphKeyword]);
    assert_eq!(scan("graph"), vec![Token::GraphKeyword]);
    assert_eq!(scan("Color"), vec![Token::ColorKeyword]);
    assert_eq!(scan("COLOR"), vec![Token::ColorKeyword]);
    assert_eq!(scan("bgColor"), vec![Token::BGColorKeyword]);
    assert_eq!(scan("BGCOLOR"), vec![Token::BGColorKeyword]);
}

#[test]
fn non_keyword_preserves_original_case() {
    assert_eq!(
        scan("HeLLo"),
        vec![Token::IdentifierDeclaration("HeLLo".to_string())]
    );
    assert_eq!(
        scan("graphs"),
        vec![Token::IdentifierDeclaration("graphs".to_string())]
    );
    assert_eq!(
        scan("n42"),
        vec![Token::IdentifierDeclaration("n42".to_string())]
    );
}

#[test]
fn whitespace_is_skipped_and_never_tokenized() {
    let tokens = scan("  a\tb\nc  ");
    assert_eq!(
        tokens,
        vec![
            Token::IdentifierDeclaration("a".to_string()),
            Token::IdentifierDeclaration("b".to_string()),
            Token::IdentifierDeclaration("c".to_string()),
        ]
    );
    assert_eq!(scan("  \t\n "), vec![]);
}

#[test]
fn identifier_terminator_is_not_consumed() {
    assert_eq!(
        scan("a["),
        vec![
            Token::IdentifierDeclaration("a".to_string()),
            Token::BracketOpen,
        ]
    );
    assert_eq!(
        scan("ab=cd"),
        vec![
            Token::IdentifierDeclaration("ab".to_string()),
            Token::Equals,
            Token::IdentifierDeclaration("cd".to_string()),
        ]
    );
}

#[test]
fn unrecognized_character_is_a_fatal_lexical_error() {
    let mut tokenizer = Tokenizer::new();
    let r = tokenizer.parse("graph { a [color=#red] }");
    assert_eq!(r, Err(LexicalError::UnrecognizedCharacter('#')));
}

#[test]
fn scan_output_matches_input_order() {
    let tokens = scan("graph { a -- b }");
    assert_eq!(
        tokens,
        vec![
            Token::GraphKeyword,
            Token::CurlyOpen,
            Token::IdentifierDeclaration("a".to_string()),
            Token::Dash,
            Token::Dash,
            Token::IdentifierDeclaration("b".to_string()),
            Token::CurlyClose,
        ]
    );
}

#[test]
fn token_equality_is_structural() {
    assert!(token_eq(&Token::GraphKeyword, &Token::GraphKeyword));
    assert!(token_eq(&Token::Dash, &Token::Dash));
    assert!(!token_eq(&Token::GraphKeyword, &Token::Dash));
    assert!(token_eq(
        &Token::IdentifierDeclaration("a".to_string()),
        &Token::IdentifierDeclaration("a".to_string())
    ));
    assert!(!token_eq(
        &Token::IdentifierDeclaration("a".to_string()),
        &Token::IdentifierDeclaration("b".to_string())
    ));
}
