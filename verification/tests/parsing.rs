use graph_dsl::graph::{AttrMap, Edge, Graph, Node};
use graph_dsl::parser::{Expectation, Parser, ParserError};
use graph_dsl::token::{Token, Tokenizer};

fn scan(input: &str) -> Vec<Token> {
    let mut tokenizer = Tokenizer::new();
    match tokenizer.parse(input) {
        Ok(tokens) => tokens,
        Err(e) => panic!("scan failed: {:?}", e),
    }
}

fn parse_text(input: &str) -> Graph {
    let tokens = scan(input);
    let mut parser = Parser::new();
    match parser.parse(tokens) {
        Ok(()) => parser.graph,
        Err(e) => panic!("parse failed: {:?}", e),
    }
}

fn parse_err(input: &str) -> ParserError {
    let tokens = scan(input);
    let mut parser = Parser::new();
    match parser.parse(tokens) {
        Ok(()) => panic!("parse unexpectedly succeeded"),
        Err(e) => e,
    }
}

#[test]
fn single_node_with_attribute() {
    let g = parse_text("graph { a [color=\"red\"] }");
    assert_eq!(g.nodes.len(), 1);
    assert_eq!(g.nodes[0].label, "a");
    assert_eq!(g.nodes[0].attrs.get("color"), Some("red".to_string()));
    assert_eq!(g.edges.len(), 0);
    assert_eq!(g.attrs.get("color"), None);
    assert_eq!(g.attrs.get("bgcolor"), None);
}

#[test]
fn graph_attribute_nodes_and_edge() {
    let g = parse_text(
        "graph [bgcolor=\"yellow\"] graph { a [color=\"red\"] b [color=\"blue\"] a -- b [color=\"green\"] }",
    );
    assert_eq!(g.attrs.get("bgcolor"), Some("yellow".to_string()));
    assert_eq!(g.nodes.len(), 2);
    assert_eq!(g.nodes[0].label, "a");
    assert_eq!(g.nodes[0].attrs.get("color"), Some("red".to_string()));
    assert_eq!(g.nodes[1].label, "b");
    assert_eq!(g.nodes[1].attrs.get("color"), Some("blue".to_string()));
    assert_eq!(g.edges.len(), 1);
    assert_eq!(g.edges[0].left_node.label, "a");
    assert_eq!(g.edges[0].right_node.label, "b");
    assert_eq!(g.edges[0].attrs.get("color"), Some("green".to_string()));
}

#[test]
fn edge_snapshots_node_state_at_declaration_time() {
    let g = parse_text("graph { a [color=\"red\"] b [color=\"blue\"] a -- b [color=\"green\"] }");
    let edge = &g.edges[0];
    assert_eq!(edge.left_node.attrs.get("color"), Some("red".to_string()));
    assert_eq!(edge.right_node.attrs.get("color"), Some("blue".to_string()));
}

#[test]
fn edge_with_undeclared_right_node_names_that_label() {
    let e = parse_err("graph { a [color=\"red\"] a -- b [color=\"green\"] }");
    assert_eq!(e, ParserError::InvalidEdgeDeclaration("b".to_string()));
}

#[test]
fn edge_with_undeclared_left_node_names_that_label() {
    let e = parse_err("graph { a -- b [color=\"green\"] }");
    assert_eq!(e, ParserError::InvalidEdgeDeclaration("a".to_string()));
}

#[test]
fn undeclared_edge_creates_no_node() {
    let tokens = scan("graph { a [color=\"red\"] a -- b [color=\"green\"] }");
    let mut parser = Parser::new();
    assert!(parser.parse(tokens).is_err());
    assert_eq!(parser.graph.nodes.len(), 1);
    assert_eq!(parser.graph.nodes[0].label, "a");
    assert_eq!(parser.graph.edges.len(), 0);
}

#[test]
fn brace_after_graph_attribute_block_is_unexpected_at_top_level() {
    let e = parse_err("graph [bgcolor=\"yellow\"] { a [color=\"red\"] }");
    assert_eq!(e, ParserError::UnexpectedToken(Token::CurlyOpen));
}

#[test]
fn reparsing_same_tokens_yields_identical_graphs() {
    let input = "graph [bgcolor=\"yellow\"] graph { a [color=\"red\"] b [color=\"blue\"] a -- b [color=\"green\"] }";
    let tokens = scan(input);
    let tokens_again = tokens.clone();
    let mut p1 = Parser::new();
    let mut p2 = Parser::new();
    assert!(p1.parse(tokens).is_ok());
    assert!(p2.parse(tokens_again).is_ok());
    let (g1, g2) = (p1.graph, p2.graph);
    assert_eq!(g1.nodes.len(), g2.nodes.len());
    for (n1, n2) in g1.nodes.iter().zip(g2.nodes.iter()) {
        assert_eq!(n1.label, n2.label);
        assert_eq!(n1.attrs.get("color"), n2.attrs.get("color"));
        assert_eq!(n1.attrs.get("bgcolor"), n2.attrs.get("bgcolor"));
    }
    assert_eq!(g1.edges.len(), g2.edges.len());
    for (e1, e2) in g1.edges.iter().zip(g2.edges.iter()) {
        assert_eq!(e1.left_node.label, e2.left_node.label);
        assert_eq!(e1.right_node.label, e2.right_node.label);
        assert_eq!(e1.attrs.get("color"), e2.attrs.get("color"));
    }
    assert_eq!(g1.attrs.get("bgcolor"), g2.attrs.get("bgcolor"));
}

#[test]
fn attribute_block_missing_value_is_rejected() {
    let e = parse_err("graph { a [color=\"\"] }");
    assert_eq!(e, ParserError::InvalidAttributeDeclaration);
}

#[test]
fn attribute_block_missing_key_is_rejected() {
    let e = parse_err("graph { a [\"red\"] }");
    assert_eq!(e, ParserError::InvalidAttributeDeclaration);
}

#[test]
fn attribute_key_must_be_followed_by_equals() {
    let e = parse_err("graph { a [color red] }");
    assert_eq!(
        e,
        ParserError::ExpectedToken(
            Expectation::Exact(Token::Equals),
            Token::IdentifierDeclaration("red".to_string())
        )
    );
}

#[test]
fn attribute_value_must_be_followed_by_quotation() {
    let e = parse_err("graph { a [color=\"red] }");
    assert_eq!(
        e,
        ParserError::ExpectedToken(Expectation::Exact(Token::Quotation), Token::BracketClose)
    );
}

#[test]
fn attribute_block_rejects_foreign_token() {
    let e = parse_err("graph [ { ]");
    assert_eq!(
        e,
        ParserError::ExpectedToken(Expectation::AttributeItem, Token::CurlyOpen)
    );
}

#[test]
fn graph_keyword_needs_brace_or_bracket() {
    let e = parse_err("graph x");
    assert_eq!(
        e,
        ParserError::ExpectedToken(
            Expectation::GraphBody,
            Token::IdentifierDeclaration("x".to_string())
        )
    );
}

#[test]
fn graph_keyword_at_end_of_input_is_rejected() {
    let e = parse_err("graph");
    assert_eq!(e, ParserError::UnexpectedEndOfInput(Expectation::GraphBody));
}

#[test]
fn key_at_end_of_input_is_rejected() {
    let e = parse_err("graph [color");
    assert_eq!(
        e,
        ParserError::UnexpectedEndOfInput(Expectation::Exact(Token::Equals))
    );
}

#[test]
fn unexpected_token_at_top_level() {
    let e = parse_err("]");
    assert_eq!(e, ParserError::UnexpectedToken(Token::BracketClose));
}

#[test]
fn edge_marker_needs_two_dashes() {
    let e = parse_err("graph { a [color=\"red\"] a - b }");
    assert_eq!(
        e,
        ParserError::ExpectedToken(
            Expectation::Exact(Token::Dash),
            Token::IdentifierDeclaration("b".to_string())
        )
    );
}

#[test]
fn edge_statement_cut_short_misses_closing_bracket() {
    let e = parse_err("graph { a [color=\"red\"] a --");
    assert_eq!(e, ParserError::MissingClosingBracket);
}

#[test]
fn attribute_block_cut_short_misses_closing_bracket() {
    let e = parse_err("graph [bgcolor=\"yellow\"");
    assert_eq!(e, ParserError::MissingClosingBracket);
}

#[test]
fn bare_identifier_at_end_registers_no_node() {
    let g = parse_text("graph { a }");
    assert_eq!(g.nodes.len(), 0);
    assert_eq!(g.edges.len(), 0);
}

#[test]
fn parse_accepts_hand_built_tokens() {
    let tokens = vec![
        Token::IdentifierDeclaration("a".to_string()),
        Token::BracketOpen,
        Token::ColorKeyword,
        Token::Equals,
        Token::Quotation,
        Token::IdentifierDeclaration("red".to_string()),
        Token::Quotation,
        Token::BracketClose,
    ];
    let mut parser = Parser::new();
    assert!(parser.parse(tokens).is_ok());
    assert_eq!(parser.graph.nodes.len(), 1);
    assert_eq!(parser.graph.nodes[0].label, "a");
    assert_eq!(
        parser.graph.nodes[0].attrs.get("color"),
        Some("red".to_string())
    );
}

#[test]
fn keywords_match_case_insensitively_in_a_document() {
    let g = parse_text("GRAPH { A [COLOR=\"Red\"] }");
    assert_eq!(g.nodes.len(), 1);
    assert_eq!(g.nodes[0].label, "A");
    assert_eq!(g.nodes[0].attrs.get("color"), Some("Red".to_string()));
}

#[test]
fn attr_map_later_insertion_overrides_earlier() {
    let mut m = AttrMap::new();
    assert_eq!(m.get("color"), None);
    m.insert("color".to_string(), "red".to_string());
    assert_eq!(m.get("color"), Some("red".to_string()));
    m.insert("color".to_string(), "blue".to_string());
    assert_eq!(m.get("color"), Some("blue".to_string()));
    assert_eq!(m.get("bgcolor"), None);
}

#[test]
fn node_and_edge_constructors_start_empty() {
    let n = Node::new();
    assert_eq!(n.label, "");
    assert_eq!(n.attrs.get("color"), None);
    let n2 = Node::with_label("a".to_string());
    assert_eq!(n2.label, "a");
    let e = Edge::default();
    assert_eq!(e.left_node.label, "");
    assert_eq!(e.right_node.label, "");
    let e2 = Edge::with_nodes(Node::with_label("a".to_string()), Node::with_label("b".to_string()));
    assert_eq!(e2.left_node.label, "a");
    assert_eq!(e2.right_node.label, "b");
    let g = Graph::new();
    assert_eq!(g.nodes.len(), 0);
    assert_eq!(g.edges.len(), 0);
}
