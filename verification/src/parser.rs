//! Recursive-descent parser: consumes the token sequence with one token of
//! lookahead and builds a graph, statement by statement. `spec_parse` is the
//! mathematical model of the parse; `Parser::parse` is proved to leave the
//! graph in exactly the state the model describes, or to return exactly the
//! error the model names.

use vstd::prelude::*;
use vstd::string::*;
use crate::graph::{
    empty_edge_model, empty_graph_model, empty_node_model, lemma_view_edges_push,
    lemma_view_nodes_push, view_nodes, Edge, EdgeModel, Graph, GraphModel, Node, NodeModel,
};
use crate::token::{token_eq, view_tokens, Token, TokenModel};

verus! {

/// What the parser was looking for when it found something else.
#[verifier::ext_equal]
pub enum ExpectationModel {
    /// The body of a graph statement: `{` or `[`.
    GraphBody,
    /// Any token an attribute block may continue with: `]`, `=`, `"`, an
    /// attribute keyword or an identifier.
    AttributeItem,
    /// One exact token.
    Exact(TokenModel),
}

/// What the parser was looking for when it found something else.
#[derive(Debug, PartialEq, Eq)]
pub enum Expectation {
    GraphBody,
    AttributeItem,
    Exact(Token),
}

impl View for Expectation {
    type V = ExpectationModel;

    open spec fn view(&self) -> ExpectationModel {
        match self {
            Expectation::GraphBody => ExpectationModel::GraphBody,
            Expectation::AttributeItem => ExpectationModel::AttributeItem,
            Expectation::Exact(t) => ExpectationModel::Exact(t@),
        }
    }
}

/// The abstract value of a parse failure.
#[verifier::ext_equal]
pub enum ParserErrorModel {
    UnexpectedToken(TokenModel),
    ExpectedToken(ExpectationModel, TokenModel),
    UnexpectedEndOfInput(ExpectationModel),
    InvalidAttributeDeclaration,
    InvalidEdgeDeclaration(Seq<char>),
    MissingClosingBracket,
}

/// A parse failure. Every failure is terminal for the parse that raised it:
/// no partial graph is handed out.
#[derive(Debug, PartialEq, Eq)]
pub enum ParserError {
    /// A token that no statement can begin with, where a statement was
    /// expected.
    UnexpectedToken(Token),
    /// The parser expected one thing and found another.
    ExpectedToken(Expectation, Token),
    /// The parser expected one thing and the token stream ended.
    UnexpectedEndOfInput(Expectation),
    /// An attribute block closed before both a key and a value were seen.
    InvalidAttributeDeclaration,
    /// An edge statement named a label with no declared node; carries that
    /// label.
    InvalidEdgeDeclaration(String),
    /// The token stream ended inside a block that a `]` should close.
    MissingClosingBracket,
}

impl View for ParserError {
    type V = ParserErrorModel;

    open spec fn view(&self) -> ParserErrorModel {
        match self {
            ParserError::UnexpectedToken(t) => ParserErrorModel::UnexpectedToken(t@),
            ParserError::ExpectedToken(e, t) => ParserErrorModel::ExpectedToken(e@, t@),
            ParserError::UnexpectedEndOfInput(e) => ParserErrorModel::UnexpectedEndOfInput(e@),
            ParserError::InvalidAttributeDeclaration => ParserErrorModel::InvalidAttributeDeclaration,
            ParserError::InvalidEdgeDeclaration(s) => ParserErrorModel::InvalidEdgeDeclaration(s@),
            ParserError::MissingClosingBracket => ParserErrorModel::MissingClosingBracket,
        }
    }
}

/// The key the `color` keyword sets.
pub open spec fn color_key() -> Seq<char> {
    "color"@
}

/// The key the `bgcolor` keyword sets.
pub open spec fn bgcolor_key() -> Seq<char> {
    "bgcolor"@
}

/// One token of lookahead against an exact expected token: the position
/// after it on a match, the precise failure otherwise.
pub open spec fn spec_expect(ts: Seq<TokenModel>, i: int, expected: TokenModel) -> Result<
    int,
    ParserErrorModel,
> {
    if i >= ts.len() {
        Err(ParserErrorModel::UnexpectedEndOfInput(ExpectationModel::Exact(expected)))
    } else if ts[i] == expected {
        Ok(i + 1)
    } else {
        Err(ParserErrorModel::ExpectedToken(ExpectationModel::Exact(expected), ts[i]))
    }
}

/// The model of an attribute block, entered just after its `[`. `key` and
/// `val` are what has been captured so far; the result is the completed
/// pair and the position after the closing `]`.
pub open spec fn spec_attr(ts: Seq<TokenModel>, i: int, key: Seq<char>, val: Seq<char>) -> Result<
    (Seq<char>, Seq<char>, int),
    ParserErrorModel,
>
    decreases ts.len() - i,
{
    if i >= ts.len() {
        Err(ParserErrorModel::MissingClosingBracket)
    } else {
        match ts[i] {
            TokenModel::ColorKeyword => match spec_expect(ts, i + 1, TokenModel::Equals) {
                Ok(j) => spec_attr(ts, j, color_key(), val),
                Err(e) => Err(e),
            },
            TokenModel::BGColorKeyword => match spec_expect(ts, i + 1, TokenModel::Equals) {
                Ok(j) => spec_attr(ts, j, bgcolor_key(), val),
                Err(e) => Err(e),
            },
            TokenModel::Quotation => spec_attr(ts, i + 1, key, val),
            TokenModel::IdentifierDeclaration(id) => match spec_expect(
                ts,
                i + 1,
                TokenModel::Quotation,
            ) {
                Ok(j) => spec_attr(ts, j, key, id),
                Err(e) => Err(e),
            },
            TokenModel::BracketClose => {
                if key.len() == 0 || val.len() == 0 {
                    Err(ParserErrorModel::InvalidAttributeDeclaration)
                } else {
                    Ok((key, val, i + 1))
                }
            },
            _ => Err(ParserErrorModel::ExpectedToken(ExpectationModel::AttributeItem, ts[i])),
        }
    }
}

/// The first declared node carrying the label, if any.
pub open spec fn spec_find(nodes: Seq<NodeModel>, label: Seq<char>) -> Option<NodeModel>
    decreases nodes.len(),
{
    if nodes.len() == 0 {
        None
    } else if nodes[0].label == label {
        Some(nodes[0])
    } else {
        spec_find(nodes.drop_first(), label)
    }
}

/// The body of an edge statement after `--`: identifiers re-bind the
/// right-hand node, `[` closes the statement with the edge's attribute
/// block.
pub open spec fn spec_edge_loop(
    ts: Seq<TokenModel>,
    i: int,
    nodes: Seq<NodeModel>,
    left: NodeModel,
    edge: EdgeModel,
) -> Result<(EdgeModel, int), ParserErrorModel>
    decreases ts.len() - i,
{
    if i >= ts.len() {
        Err(ParserErrorModel::MissingClosingBracket)
    } else {
        match ts[i] {
            TokenModel::IdentifierDeclaration(id) => match spec_find(nodes, id) {
                None => Err(ParserErrorModel::InvalidEdgeDeclaration(id)),
                Some(right) => spec_edge_loop(
                    ts,
                    i + 1,
                    nodes,
                    left,
                    EdgeModel { left_node: left, right_node: right, attrs: Map::empty() },
                ),
            },
            TokenModel::BracketOpen => match spec_attr(
                ts,
                i + 1,
                Seq::empty(),
                Seq::empty(),
            ) {
                Ok((k, v, j)) => Ok(
                    (
                        EdgeModel {
                            left_node: edge.left_node,
                            right_node: edge.right_node,
                            attrs: edge.attrs.insert(k, v),
                        },
                        j,
                    ),
                ),
                Err(e) => Err(e),
            },
            _ => Err(ParserErrorModel::UnexpectedToken(ts[i])),
        }
    }
}

/// The model of an edge statement, entered just after `--` with the
/// left-hand label. Both endpoints must already be declared; the edge
/// snapshots their current state.
pub open spec fn spec_edge(
    ts: Seq<TokenModel>,
    i: int,
    nodes: Seq<NodeModel>,
    left_label: Seq<char>,
) -> Result<(EdgeModel, int), ParserErrorModel> {
    match spec_find(nodes, left_label) {
        None => Err(ParserErrorModel::InvalidEdgeDeclaration(left_label)),
        Some(left) => spec_edge_loop(ts, i, nodes, left, empty_edge_model()),
    }
}

/// The model of an identifier statement, entered just after the identifier.
/// A `[` makes it a node declaration, `--` an edge declaration; stray
/// tokens are skipped, and a statement cut short by the end of the input
/// registers nothing.
pub open spec fn spec_ident_decl(
    ts: Seq<TokenModel>,
    i: int,
    g: GraphModel,
    label: Seq<char>,
) -> Result<(GraphModel, int), ParserErrorModel>
    decreases ts.len() - i,
{
    if i >= ts.len() {
        Ok((g, i))
    } else {
        match ts[i] {
            TokenModel::BracketOpen => match spec_attr(ts, i + 1, Seq::empty(), Seq::empty()) {
                Ok((k, v, j)) => Ok(
                    (
                        GraphModel {
                            nodes: g.nodes.push(
                                NodeModel {
                                    label,
                                    attrs: Map::<Seq<char>, Seq<char>>::empty().insert(k, v),
                                },
                            ),
                            edges: g.edges,
                            attrs: g.attrs,
                        },
                        j,
                    ),
                ),
                Err(e) => Err(e),
            },
            TokenModel::Dash => {
                if i + 1 >= ts.len() {
                    Ok((g, i + 1))
                } else if ts[i + 1] != TokenModel::Dash {
                    Err(
                        ParserErrorModel::ExpectedToken(
                            ExpectationModel::Exact(TokenModel::Dash),
                            ts[i + 1],
                        ),
                    )
                } else {
                    match spec_edge(ts, i + 2, g.nodes, label) {
                        Ok((e, j)) => Ok(
                            (
                                GraphModel {
                                    nodes: g.nodes,
                                    edges: g.edges.push(e),
                                    attrs: g.attrs,
                                },
                                j,
                            ),
                        ),
                        Err(err) => Err(err),
                    }
                }
            },
            _ => spec_ident_decl(ts, i + 1, g, label),
        }
    }
}

/// The model of a graph statement, entered just after the `graph` keyword:
/// either one graph-level attribute block or the opening brace of the body.
pub open spec fn spec_graph_kw(ts: Seq<TokenModel>, i: int, g: GraphModel) -> Result<
    (GraphModel, int),
    ParserErrorModel,
> {
    if i >= ts.len() {
        Err(ParserErrorModel::UnexpectedEndOfInput(ExpectationModel::GraphBody))
    } else if ts[i] == TokenModel::BracketOpen {
        match spec_attr(ts, i + 1, Seq::empty(), Seq::empty()) {
            Ok((k, v, j)) => Ok(
                (GraphModel { nodes: g.nodes, edges: g.edges, attrs: g.attrs.insert(k, v) }, j),
            ),
            Err(e) => Err(e),
        }
    } else if ts[i] == TokenModel::CurlyOpen {
        Ok((g, i + 1))
    } else {
        Err(ParserErrorModel::ExpectedToken(ExpectationModel::GraphBody, ts[i]))
    }
}

pub proof fn lemma_spec_attr_bounds(ts: Seq<TokenModel>, i: int, key: Seq<char>, val: Seq<char>)
    requires
        0 <= i,
    ensures
        spec_attr(ts, i, key, val) matches Ok(r) ==> i < r.2 <= ts.len(),
    decreases ts.len() - i,
{
    if i >= ts.len() {
    } else {
        match ts[i] {
            TokenModel::ColorKeyword => {
                match spec_expect(ts, i + 1, TokenModel::Equals) {
                    Ok(j) => lemma_spec_attr_bounds(ts, j, color_key(), val),
                    Err(_) => {},
                }
            },
            TokenModel::BGColorKeyword => {
                match spec_expect(ts, i + 1, TokenModel::Equals) {
                    Ok(j) => lemma_spec_attr_bounds(ts, j, bgcolor_key(), val),
                    Err(_) => {},
                }
            },
            TokenModel::Quotation => {
                lemma_spec_attr_bounds(ts, i + 1, key, val);
            },
            TokenModel::IdentifierDeclaration(id) => {
                match spec_expect(ts, i + 1, TokenModel::Quotation) {
                    Ok(j) => lemma_spec_attr_bounds(ts, j, key, id),
                    Err(_) => {},
                }
            },
            _ => {},
        }
    }
}

pub proof fn lemma_spec_edge_loop_bounds(
    ts: Seq<TokenModel>,
    i: int,
    nodes: Seq<NodeModel>,
    left: NodeModel,
    edge: EdgeModel,
)
    requires
        0 <= i,
    ensures
        spec_edge_loop(ts, i, nodes, left, edge) matches Ok(r) ==> i < r.1 <= ts.len(),
    decreases ts.len() - i,
{
    if i >= ts.len() {
    } else {
        match ts[i] {
            TokenModel::IdentifierDeclaration(id) => {
                match spec_find(nodes, id) {
                    Some(right) => {
                        lemma_spec_edge_loop_bounds(
                            ts,
                            i + 1,
                            nodes,
                            left,
                            EdgeModel { left_node: left, right_node: right, attrs: Map::empty() },
                        );
                    },
                    None => {},
                }
            },
            TokenModel::BracketOpen => {
                lemma_spec_attr_bounds(ts, i + 1, Seq::empty(), Seq::empty());
            },
            _ => {},
        }
    }
}

pub proof fn lemma_spec_edge_bounds(
    ts: Seq<TokenModel>,
    i: int,
    nodes: Seq<NodeModel>,
    left_label: Seq<char>,
)
    requires
        0 <= i,
    ensures
        spec_edge(ts, i, nodes, left_label) matches Ok(r) ==> i < r.1 <= ts.len(),
{
    match spec_find(nodes, left_label) {
        Some(left) => {
            lemma_spec_edge_loop_bounds(ts, i, nodes, left, empty_edge_model());
        },
        None => {},
    }
}

pub proof fn lemma_spec_ident_bounds(ts: Seq<TokenModel>, i: int, g: GraphModel, label: Seq<char>)
    requires
        0 <= i,
    ensures
        spec_ident_decl(ts, i, g, label) matches Ok(r) ==> i <= r.1 && (i <= ts.len() ==> r.1
            <= ts.len()),
    decreases ts.len() - i,
{
    if i >= ts.len() {
    } else {
        match ts[i] {
            TokenModel::BracketOpen => {
                lemma_spec_attr_bounds(ts, i + 1, Seq::empty(), Seq::empty());
            },
            TokenModel::Dash => {
                if i + 1 < ts.len() && ts[i + 1] == TokenModel::Dash {
                    lemma_spec_edge_bounds(ts, i + 2, g.nodes, label);
                }
            },
            _ => {
                lemma_spec_ident_bounds(ts, i + 1, g, label);
            },
        }
    }
}

pub proof fn lemma_spec_graph_kw_bounds(ts: Seq<TokenModel>, i: int, g: GraphModel)
    requires
        0 <= i,
    ensures
        spec_graph_kw(ts, i, g) matches Ok(r) ==> i < r.1 <= ts.len(),
{
    if 0 <= i < ts.len() && ts[i] == TokenModel::BracketOpen {
        lemma_spec_attr_bounds(ts, i + 1, Seq::empty(), Seq::empty());
    }
}

/// The model of the whole parse from position `i`: the top-level loop takes
/// one token and dispatches. `graph` opens a graph statement, an identifier
/// opens a node or edge statement, a closing brace is a no-op terminator,
/// and anything else is an unexpected token.
pub open spec fn spec_parse(ts: Seq<TokenModel>, i: int, g: GraphModel) -> Result<
    GraphModel,
    ParserErrorModel,
>
    decreases ts.len() - i,
{
    if i < 0 || i >= ts.len() {
        Ok(g)
    } else {
        match ts[i] {
            TokenModel::GraphKeyword => {
                proof {
                    lemma_spec_graph_kw_bounds(ts, i + 1, g);
                }
                match spec_graph_kw(ts, i + 1, g) {
                    Ok((g2, j)) => spec_parse(ts, j, g2),
                    Err(e) => Err(e),
                }
            },
            TokenModel::IdentifierDeclaration(id) => {
                proof {
                    lemma_spec_ident_bounds(ts, i + 1, g, id);
                }
                match spec_ident_decl(ts, i + 1, g, id) {
                    Ok((g2, j)) => spec_parse(ts, j, g2),
                    Err(e) => Err(e),
                }
            },
            TokenModel::CurlyClose => spec_parse(ts, i + 1, g),
            _ => Err(ParserErrorModel::UnexpectedToken(ts[i])),
        }
    }
}

pub proof fn lemma_spec_find_at(nodes: Seq<NodeModel>, label: Seq<char>, k: int)
    requires
        0 <= k < nodes.len(),
        nodes[k].label == label,
        forall|j: int| 0 <= j < k ==> nodes[j].label != label,
    ensures
        spec_find(nodes, label) == Some(nodes[k]),
    decreases k,
{
    if k > 0 {
        lemma_spec_find_at(nodes.drop_first(), label, k - 1);
    }
}

pub proof fn lemma_spec_find_none(nodes: Seq<NodeModel>, label: Seq<char>)
    requires
        forall|j: int| 0 <= j < nodes.len() ==> nodes[j].label != label,
    ensures
        spec_find(nodes, label) is None,
    decreases nodes.len(),
{
    if nodes.len() > 0 {
        lemma_spec_find_none(nodes.drop_first(), label);
    }
}

pub proof fn lemma_spec_find_declares(nodes: Seq<NodeModel>, label: Seq<char>)
    ensures
        spec_find(nodes, label) matches Some(nm) ==> nm.label == label && exists|k: int|
            0 <= k < nodes.len() && nodes[k] == nm,
    decreases nodes.len(),
{
    if nodes.len() > 0 && nodes[0].label != label {
        lemma_spec_find_declares(nodes.drop_first(), label);
        if let Some(nm) = spec_find(nodes, label) {
            let k = choose|k: int| 0 <= k < nodes.drop_first().len() && nodes.drop_first()[k]
                == nm;
            assert(nodes[k + 1] == nm);
        }
    }
}

/// The index of the first declared node carrying the label, if any.
fn find_node(nodes: &Vec<Node>, label: &String) -> (r: Option<usize>)
    ensures
        match spec_find(view_nodes(nodes@), label@) {
            Some(nm) => r matches Some(k) && k < nodes@.len() && nodes@[k as int]@ == nm,
            None => r is None,
        },
{
    let mut k: usize = 0;
    while k < nodes.len()
        invariant
            k <= nodes@.len(),
            forall|j: int| 0 <= j < k ==> view_nodes(nodes@)[j].label != label@,
        decreases nodes@.len() - k,
    {
        if nodes[k].label == *label {
            proof {
                lemma_spec_find_at(view_nodes(nodes@), label@, k as int);
            }
            return Some(k);
        }
        k += 1;
    }
    proof {
        lemma_spec_find_none(view_nodes(nodes@), label@);
    }
    None
}

/// The parser. It owns the graph it is building; `parse` mutates it in
/// place, statement by statement.
pub struct Parser {
    pub graph: Graph,
}

impl Parser {
    /// A parser with an empty graph.
    pub fn new() -> (p: Parser)
        ensures
            p.graph@ == empty_graph_model(),
    {
        Parser { graph: Graph::new() }
    }

    /// Parse the whole token sequence into the graph. On success the graph
    /// holds exactly what the model parse describes; on failure the exact
    /// model error is returned and no graph is handed out.
    pub fn parse(&mut self, tokens: Vec<Token>) -> (r: Result<(), ParserError>)
        ensures
            match spec_parse(view_tokens(tokens@), 0, old(self).graph@) {
                Ok(g) => r is Ok && final(self).graph@ == g,
                Err(e) => r matches Err(pe) && pe@ == e,
            },
    {
        let ghost ts = view_tokens(tokens@);
        let ghost g0 = self.graph@;
        let mut i: usize = 0;
        while i < tokens.len()
            invariant
                i <= tokens@.len(),
                ts == view_tokens(tokens@),
                g0 == old(self).graph@,
                spec_parse(ts, 0, g0) == spec_parse(ts, i as int, self.graph@),
            decreases tokens@.len() - i,
        {
            let ghost p = i as int;
            let ghost gb = self.graph@;
            let t = &tokens[i];
            i += 1;
            match t {
                Token::GraphKeyword => {
                    match self.graph_keyword(&tokens, &mut i) {
                        Ok(_) => {
                            proof {
                                lemma_spec_graph_kw_bounds(ts, p + 1, gb);
                            }
                        },
                        Err(e) => {
                            return Err(e);
                        },
                    }
                },
                Token::IdentifierDeclaration(id) => {
                    let id2 = id.clone();
                    match self.identifier_declaration(id2, &tokens, &mut i) {
                        Ok(_) => {
                            proof {
                                lemma_spec_ident_bounds(ts, p + 1, gb, id@);
                            }
                        },
                        Err(e) => {
                            return Err(e);
                        },
                    }
                },
                Token::CurlyClose => {},
                _ => {
                    return Err(ParserError::UnexpectedToken(t.clone()));
                },
            }
        }
        Ok(())
    }

    /// A graph statement: one graph-level attribute block, or the opening
    /// brace of the statement body.
    fn graph_keyword(&mut self, tokens: &Vec<Token>, i: &mut usize) -> (r: Result<
        (),
        ParserError,
    >)
        requires
            *old(i) <= tokens@.len(),
        ensures
            match spec_graph_kw(view_tokens(tokens@), *old(i) as int, old(self).graph@) {
                Ok(r2) => r is Ok && final(self).graph@ == r2.0 && *final(i) as int == r2.1,
                Err(e) => r matches Err(pe) && pe@ == e,
            },
    {
        if *i >= tokens.len() {
            return Err(ParserError::UnexpectedEndOfInput(Expectation::GraphBody));
        }
        let t = &tokens[*i];
        *i += 1;
        match t {
            Token::BracketOpen => {
                match self.attr_declaration(tokens, i) {
                    Ok(kv) => {
                        let (key, value) = kv;
                        self.graph.attrs.insert(key, value);
                        Ok(())
                    },
                    Err(e) => Err(e),
                }
            },
            Token::CurlyOpen => Ok(()),
            _ => Err(ParserError::ExpectedToken(Expectation::GraphBody, t.clone())),
        }
    }

    /// An identifier statement: a node declaration with an attribute block,
    /// or — after a double dash — an edge declaration.
    fn identifier_declaration(&mut self, id: String, tokens: &Vec<Token>, i: &mut usize) -> (r:
        Result<(), ParserError>)
        requires
            *old(i) <= tokens@.len(),
        ensures
            match spec_ident_decl(
                view_tokens(tokens@),
                *old(i) as int,
                old(self).graph@,
                id@,
            ) {
                Ok(r2) => r is Ok && final(self).graph@ == r2.0 && *final(i) as int == r2.1,
                Err(e) => r matches Err(pe) && pe@ == e,
            },
    {
        let ghost ts = view_tokens(tokens@);
        let ghost i0 = *i as int;
        let ghost g0 = self.graph@;
        let mut node = Node::with_label(id);
        while *i < tokens.len()
            invariant
                *i <= tokens@.len(),
                ts == view_tokens(tokens@),
                i0 == *old(i) as int,
                g0 == old(self).graph@,
                self.graph@ == g0,
                node@.label == id@,
                node@.attrs == Map::<Seq<char>, Seq<char>>::empty(),
                spec_ident_decl(ts, i0, g0, id@) == spec_ident_decl(ts, *i as int, g0, id@),
            decreases tokens@.len() - *i,
        {
            let ghost p = *i as int;
            let t = &tokens[*i];
            *i += 1;
            match t {
                Token::BracketOpen => {
                    match self.attr_declaration(tokens, i) {
                        Ok(kv) => {
                            let (key, value) = kv;
                            node.attrs.insert(key, value);
                            proof {
                                lemma_view_nodes_push(self.graph.nodes@, node);
                            }
                            self.graph.nodes.push(node);
                            proof {
                                assert(self.graph@ =~= (spec_ident_decl(ts, p, g0, id@)->Ok_0).0);
                            }
                            return Ok(());
                        },
                        Err(e) => {
                            return Err(e);
                        },
                    }
                },
                Token::Dash => {
                    if *i >= tokens.len() {
                        return Ok(());
                    }
                    let second = &tokens[*i];
                    *i += 1;
                    match second {
                        Token::Dash => {
                            match self.edge_declaration(node, tokens, i) {
                                Ok(edge) => {
                                    proof {
                                        lemma_view_edges_push(self.graph.edges@, edge);
                                    }
                                    self.graph.edges.push(edge);
                                    proof {
                                        assert(self.graph@ =~= (spec_ident_decl(
                                            ts,
                                            p,
                                            g0,
                                            id@,
                                        )->Ok_0).0);
                                    }
                                    return Ok(());
                                },
                                Err(e) => {
                                    return Err(e);
                                },
                            }
                        },
                        _ => {
                            return Err(
                                ParserError::ExpectedToken(
                                    Expectation::Exact(Token::Dash),
                                    second.clone(),
                                ),
                            );
                        },
                    }
                },
                _ => {},
            }
        }
        Ok(())
    }

    /// An edge statement: both labels must already be declared; the edge
    /// snapshots the nodes' current state and closes with its attribute
    /// block.
    fn edge_declaration(&self, left_node: Node, tokens: &Vec<Token>, i: &mut usize) -> (r: Result<
        Edge,
        ParserError,
    >)
        requires
            *old(i) <= tokens@.len(),
        ensures
            match spec_edge(
                view_tokens(tokens@),
                *old(i) as int,
                view_nodes(self.graph.nodes@),
                left_node@.label,
            ) {
                Ok(r2) => r matches Ok(e) && e@ == r2.0 && *final(i) as int == r2.1,
                Err(err) => r matches Err(pe) && pe@ == err,
            },
    {
        let ghost ts = view_tokens(tokens@);
        let ghost nodes_m = view_nodes(self.graph.nodes@);
        let li = match find_node(&self.graph.nodes, &left_node.label) {
            None => {
                return Err(ParserError::InvalidEdgeDeclaration(left_node.label));
            },
            Some(li) => li,
        };
        let left = self.graph.nodes[li].clone();
        let ghost left_m = left@;
        let mut edge = Edge::default();
        let ghost i0 = *i as int;
        while *i < tokens.len()
            invariant
                *i <= tokens@.len(),
                ts == view_tokens(tokens@),
                i0 == *old(i) as int,
                nodes_m == view_nodes(self.graph.nodes@),
                left@ == left_m,
                spec_find(nodes_m, left_node@.label) == Some(left_m),
                spec_edge_loop(ts, i0, nodes_m, left_m, empty_edge_model()) == spec_edge_loop(
                    ts,
                    *i as int,
                    nodes_m,
                    left_m,
                    edge@,
                ),
            decreases tokens@.len() - *i,
        {
            let ghost p = *i as int;
            let t = &tokens[*i];
            *i += 1;
            match t {
                Token::IdentifierDeclaration(id) => {
                    match find_node(&self.graph.nodes, id) {
                        None => {
                            return Err(ParserError::InvalidEdgeDeclaration(id.clone()));
                        },
                        Some(ri) => {
                            let right = self.graph.nodes[ri].clone();
                            edge = Edge::with_nodes(left.clone(), right);
                            proof {
                                assert(edge@ =~= (EdgeModel {
                                    left_node: left_m,
                                    right_node: spec_find(nodes_m, id@)->Some_0,
                                    attrs: Map::empty(),
                                }));
                            }
                        },
                    }
                },
                Token::BracketOpen => {
                    match self.attr_declaration(tokens, i) {
                        Ok(kv) => {
                            let (key, value) = kv;
                            let ghost eb = edge@;
                            edge.attrs.insert(key, value);
                            proof {
                                assert(edge@ =~= (EdgeModel {
                                    left_node: eb.left_node,
                                    right_node: eb.right_node,
                                    attrs: eb.attrs.insert(key@, value@),
                                }));
                            }
                            return Ok(edge);
                        },
                        Err(e) => {
                            return Err(e);
                        },
                    }
                },
                _ => {
                    return Err(ParserError::UnexpectedToken(t.clone()));
                },
            }
        }
        Err(ParserError::MissingClosingBracket)
    }

    /// An attribute block: one `key="value"` pair closed by `]`.
    fn attr_declaration(&self, tokens: &Vec<Token>, i: &mut usize) -> (r: Result<
        (String, String),
        ParserError,
    >)
        requires
            *old(i) <= tokens@.len(),
        ensures
            match spec_attr(
                view_tokens(tokens@),
                *old(i) as int,
                Seq::<char>::empty(),
                Seq::<char>::empty(),
            ) {
                Ok(r2) => r matches Ok(p) && p.0@ == r2.0 && p.1@ == r2.1 && *final(i) as int
                    == r2.2,
                Err(e) => r matches Err(pe) && pe@ == e,
            },
    {
        let ghost ts = view_tokens(tokens@);
        let ghost i0 = *i as int;
        let mut key = String::new();
        let mut val = String::new();
        while *i < tokens.len()
            invariant
                *i <= tokens@.len(),
                ts == view_tokens(tokens@),
                i0 == *old(i) as int,
                spec_attr(ts, i0, Seq::<char>::empty(), Seq::<char>::empty()) == spec_attr(
                    ts,
                    *i as int,
                    key@,
                    val@,
                ),
            decreases tokens@.len() - *i,
        {
            let t = &tokens[*i];
            *i += 1;
            match t {
                Token::ColorKeyword => {
                    key = String::from_str("color");
                    match self.expect_token(tokens, i, Token::Equals) {
                        Ok(_) => {},
                        Err(e) => {
                            return Err(e);
                        },
                    }
                },
                Token::BGColorKeyword => {
                    key = String::from_str("bgcolor");
                    match self.expect_token(tokens, i, Token::Equals) {
                        Ok(_) => {},
                        Err(e) => {
                            return Err(e);
                        },
                    }
                },
                Token::Quotation => {},
                Token::IdentifierDeclaration(s) => {
                    val = s.clone();
                    match self.expect_token(tokens, i, Token::Quotation) {
                        Ok(_) => {},
                        Err(e) => {
                            return Err(e);
                        },
                    }
                },
                Token::BracketClose => {
                    if key.as_str().is_empty() || val.as_str().is_empty() {
                        return Err(ParserError::InvalidAttributeDeclaration);
                    }
                    return Ok((key, val));
                },
                _ => {
                    return Err(
                        ParserError::ExpectedToken(Expectation::AttributeItem, t.clone()),
                    );
                },
            }
        }
        Err(ParserError::MissingClosingBracket)
    }

    /// One token of lookahead against an exact expected token; consumed only
    /// on a match.
    fn expect_token(&self, tokens: &Vec<Token>, i: &mut usize, expected: Token) -> (r: Result<
        (),
        ParserError,
    >)
        requires
            *old(i) <= tokens@.len(),
        ensures
            match spec_expect(view_tokens(tokens@), *old(i) as int, expected@) {
                Ok(j) => r is Ok && *final(i) as int == j,
                Err(e) => r matches Err(pe) && pe@ == e,
            },
    {
        if *i >= tokens.len() {
            return Err(ParserError::UnexpectedEndOfInput(Expectation::Exact(expected)));
        }
        let t = &tokens[*i];
        if token_eq(t, &expected) {
            *i += 1;
            Ok(())
        } else {
            Err(ParserError::ExpectedToken(Expectation::Exact(expected), t.clone()))
        }
    }
}

/// Both endpoint labels of the edge resolve to declared nodes, or the edge
/// still carries its two untouched placeholder endpoints (possible only for
/// the degenerate edge statement whose attribute block arrives before any
/// right-hand identifier, which the grammar rules out).
pub open spec fn edge_ok(nodes: Seq<NodeModel>, e: EdgeModel) -> bool {
    ||| (e.left_node == empty_node_model() && e.right_node == empty_node_model())
    ||| ((exists|k: int| 0 <= k < nodes.len() && nodes[k].label == e.left_node.label) && (
    exists|k: int| 0 <= k < nodes.len() && nodes[k].label == e.right_node.label))
}

/// Every edge of the graph resolves its endpoints among the graph's own
/// nodes (or is the placeholder edge, see `edge_ok`).
pub open spec fn edges_resolved(g: GraphModel) -> bool {
    forall|x: int| 0 <= x < g.edges.len() ==> edge_ok(g.nodes, #[trigger] g.edges[x])
}

proof fn lemma_edge_loop_ok(
    ts: Seq<TokenModel>,
    i: int,
    nodes: Seq<NodeModel>,
    left: NodeModel,
    edge: EdgeModel,
)
    requires
        exists|k: int| 0 <= k < nodes.len() && (#[trigger] nodes[k]).label == left.label,
        edge_ok(nodes, edge),
    ensures
        spec_edge_loop(ts, i, nodes, left, edge) matches Ok(r) ==> edge_ok(nodes, r.0),
    decreases ts.len() - i,
{
    if i >= ts.len() {
    } else {
        match ts[i] {
            TokenModel::IdentifierDeclaration(id) => {
                lemma_spec_find_declares(nodes, id);
                match spec_find(nodes, id) {
                    Some(right) => {
                        let e2 = EdgeModel {
                            left_node: left,
                            right_node: right,
                            attrs: Map::empty(),
                        };
                        assert(edge_ok(nodes, e2)) by {
                            let k = choose|k: int| 0 <= k < nodes.len() && nodes[k] == right;
                            assert(nodes[k].label == e2.right_node.label);
                        }
                        lemma_edge_loop_ok(ts, i + 1, nodes, left, e2);
                    },
                    None => {},
                }
            },
            _ => {},
        }
    }
}

proof fn lemma_spec_edge_ok(ts: Seq<TokenModel>, i: int, nodes: Seq<NodeModel>, label: Seq<char>)
    ensures
        spec_edge(ts, i, nodes, label) matches Ok(r) ==> edge_ok(nodes, r.0),
{
    lemma_spec_find_declares(nodes, label);
    match spec_find(nodes, label) {
        Some(left) => {
            assert(exists|k: int| 0 <= k < nodes.len() && (#[trigger] nodes[k]).label
                == left.label) by {
                let k = choose|k: int| 0 <= k < nodes.len() && nodes[k] == left;
                assert(nodes[k].label == left.label);
            }
            lemma_edge_loop_ok(ts, i, nodes, left, empty_edge_model());
        },
        None => {},
    }
}

proof fn lemma_ident_decl_resolved(ts: Seq<TokenModel>, i: int, g: GraphModel, label: Seq<char>)
    requires
        edges_resolved(g),
    ensures
        spec_ident_decl(ts, i, g, label) matches Ok(r) ==> edges_resolved(r.0),
    decreases ts.len() - i,
{
    if i >= ts.len() {
    } else {
        match ts[i] {
            TokenModel::BracketOpen => {
                match spec_attr(ts, i + 1, Seq::empty(), Seq::empty()) {
                    Ok((k, v, j)) => {
                        let g2 = (spec_ident_decl(ts, i, g, label)->Ok_0).0;
                        assert forall|x: int| 0 <= x < g2.edges.len() implies edge_ok(
                            g2.nodes,
                            #[trigger] g2.edges[x],
                        ) by {
                            assert(edge_ok(g.nodes, g.edges[x]));
                            if !(g2.edges[x].left_node == empty_node_model()
                                && g2.edges[x].right_node == empty_node_model()) {
                                let kl = choose|k2: int|
                                    0 <= k2 < g.nodes.len() && g.nodes[k2].label
                                        == g.edges[x].left_node.label;
                                let kr = choose|k2: int|
                                    0 <= k2 < g.nodes.len() && g.nodes[k2].label
                                        == g.edges[x].right_node.label;
                                assert(g2.nodes[kl].label == g2.edges[x].left_node.label);
                                assert(g2.nodes[kr].label == g2.edges[x].right_node.label);
                            }
                        }
                    },
                    Err(_) => {},
                }
            },
            TokenModel::Dash => {
                if i + 1 < ts.len() && ts[i + 1] == TokenModel::Dash {
                    lemma_spec_edge_ok(ts, i + 2, g.nodes, label);
                    match spec_edge(ts, i + 2, g.nodes, label) {
                        Ok((e, j)) => {
                            let g2 = GraphModel {
                                nodes: g.nodes,
                                edges: g.edges.push(e),
                                attrs: g.attrs,
                            };
                            assert forall|x: int| 0 <= x < g2.edges.len() implies edge_ok(
                                g2.nodes,
                                #[trigger] g2.edges[x],
                            ) by {
                                if x < g.edges.len() {
                                    assert(edge_ok(g.nodes, g.edges[x]));
                                    assert(g2.edges[x] == g.edges[x]);
                                } else {
                                    assert(g2.edges[x] == e);
                                }
                            }
                        },
                        Err(_) => {},
                    }
                }
            },
            _ => {
                lemma_ident_decl_resolved(ts, i + 1, g, label);
            },
        }
    }
}

proof fn lemma_parse_resolved_from(ts: Seq<TokenModel>, i: int, g: GraphModel)
    requires
        edges_resolved(g),
    ensures
        spec_parse(ts, i, g) matches Ok(g2) ==> edges_resolved(g2),
    decreases ts.len() - i,
{
    if i < 0 || i >= ts.len() {
    } else {
        match ts[i] {
            TokenModel::GraphKeyword => {
                lemma_spec_graph_kw_bounds(ts, i + 1, g);
                match spec_graph_kw(ts, i + 1, g) {
                    Ok((g2, j)) => {
                        assert forall|x: int| 0 <= x < g2.edges.len() implies edge_ok(
                            g2.nodes,
                            #[trigger] g2.edges[x],
                        ) by {
                            assert(edge_ok(g.nodes, g.edges[x]));
                        }
                        lemma_parse_resolved_from(ts, j, g2);
                    },
                    Err(_) => {},
                }
            },
            TokenModel::IdentifierDeclaration(id) => {
                lemma_spec_ident_bounds(ts, i + 1, g, id);
                lemma_ident_decl_resolved(ts, i + 1, g, id);
                match spec_ident_decl(ts, i + 1, g, id) {
                    Ok((g2, j)) => {
                        lemma_parse_resolved_from(ts, j, g2);
                    },
                    Err(_) => {},
                }
            },
            TokenModel::CurlyClose => {
                lemma_parse_resolved_from(ts, i + 1, g);
            },
            _ => {},
        }
    }
}

/// Law: every edge of a successfully parsed graph references nodes present
/// in the graph's node sequence — each endpoint label equals some declared
/// node's label. The one exception is the degenerate edge statement whose
/// attribute block arrives before any right-hand identifier, which the
/// grammar rules out: such an edge keeps its two untouched placeholder
/// endpoints.
pub proof fn lemma_parse_edges_resolved(ts: Seq<TokenModel>, g: GraphModel)
    requires
        spec_parse(ts, 0, empty_graph_model()) == Ok::<GraphModel, ParserErrorModel>(g),
    ensures
        forall|x: int| 0 <= x < g.edges.len() ==> edge_ok(g.nodes, #[trigger] g.edges[x]),
{
    lemma_parse_resolved_from(ts, 0, empty_graph_model());
}

/// Law: parsing is deterministic — re-parsing one and the same token
/// sequence from the same starting graph yields the same result, so two
/// parses with fresh parser state yield graphs with identical content.
pub proof fn lemma_parse_idempotent(t1: Seq<TokenModel>, t2: Seq<TokenModel>, g: GraphModel)
    requires
        t1 == t2,
    ensures
        spec_parse(t1, 0, g) == spec_parse(t2, 0, g),
{
}

/// Law: an edge statement whose left-hand label was never declared fails
/// with the edge-declaration error naming exactly that label — the node is
/// not created silently.
pub proof fn lemma_edge_undeclared_left(
    ts: Seq<TokenModel>,
    i: int,
    nodes: Seq<NodeModel>,
    label: Seq<char>,
)
    requires
        forall|k: int| 0 <= k < nodes.len() ==> (#[trigger] nodes[k]).label != label,
    ensures
        spec_edge(ts, i, nodes, label) == Err::<(EdgeModel, int), ParserErrorModel>(
            ParserErrorModel::InvalidEdgeDeclaration(label),
        ),
{
    lemma_spec_find_none(nodes, label);
}

/// Law: an edge statement that names an undeclared right-hand node fails
/// with the edge-declaration error naming exactly that label.
pub proof fn lemma_edge_undeclared_right(
    ts: Seq<TokenModel>,
    i: int,
    nodes: Seq<NodeModel>,
    left_label: Seq<char>,
    id: Seq<char>,
)
    requires
        0 <= i < ts.len(),
        ts[i] == TokenModel::IdentifierDeclaration(id),
        forall|k: int| 0 <= k < nodes.len() ==> (#[trigger] nodes[k]).label != id,
        spec_find(nodes, left_label) is Some,
    ensures
        spec_edge(ts, i, nodes, left_label) == Err::<(EdgeModel, int), ParserErrorModel>(
            ParserErrorModel::InvalidEdgeDeclaration(id),
        ),
{
    lemma_spec_find_none(nodes, id);
}

/// Law: an attribute block never returns a partial pair — whenever it
/// succeeds, both the key and the value it returns are non-empty, whatever
/// had been captured when it was entered.
pub proof fn lemma_attr_block_never_partial(
    ts: Seq<TokenModel>,
    i: int,
    key: Seq<char>,
    val: Seq<char>,
)
    ensures
        spec_attr(ts, i, key, val) matches Ok(r) ==> r.0.len() > 0 && r.1.len() > 0,
    decreases ts.len() - i,
{
    if i >= ts.len() {
    } else {
        match ts[i] {
            TokenModel::ColorKeyword => {
                match spec_expect(ts, i + 1, TokenModel::Equals) {
                    Ok(j) => lemma_attr_block_never_partial(ts, j, color_key(), val),
                    Err(_) => {},
                }
            },
            TokenModel::BGColorKeyword => {
                match spec_expect(ts, i + 1, TokenModel::Equals) {
                    Ok(j) => lemma_attr_block_never_partial(ts, j, bgcolor_key(), val),
                    Err(_) => {},
                }
            },
            TokenModel::Quotation => {
                lemma_attr_block_never_partial(ts, i + 1, key, val);
            },
            TokenModel::IdentifierDeclaration(id) => {
                match spec_expect(ts, i + 1, TokenModel::Quotation) {
                    Ok(j) => lemma_attr_block_never_partial(ts, j, key, id),
                    Err(_) => {},
                }
            },
            _ => {},
        }
    }
}


/// The second graph extends the first: every node and every edge of `g1`
/// stands unchanged, at its position, in `g2`.
pub open spec fn graph_extended(g1: GraphModel, g2: GraphModel) -> bool {
    &&& g1.nodes.len() <= g2.nodes.len()
    &&& forall|k: int| 0 <= k < g1.nodes.len() ==> g2.nodes[k] == g1.nodes[k]
    &&& g1.edges.len() <= g2.edges.len()
    &&& forall|k: int| 0 <= k < g1.edges.len() ==> g2.edges[k] == g1.edges[k]
}

proof fn lemma_ident_decl_extends(ts: Seq<TokenModel>, i: int, g: GraphModel, label: Seq<char>)
    ensures
        spec_ident_decl(ts, i, g, label) matches Ok(r) ==> graph_extended(g, r.0),
    decreases ts.len() - i,
{
    if i >= ts.len() {
    } else {
        match ts[i] {
            TokenModel::BracketOpen => {},
            TokenModel::Dash => {},
            _ => {
                lemma_ident_decl_extends(ts, i + 1, g, label);
            },
        }
    }
}

/// Law: parsing only appends — every node and every edge already declared
/// when the parse stands at any position, each with its attribute pairs,
/// is still present and unchanged in the graph the parse returns. In
/// particular, every declared key/value pair of every node survives into
/// the final graph.
pub proof fn lemma_parse_preserves_declarations(ts: Seq<TokenModel>, i: int, g: GraphModel)
    ensures
        spec_parse(ts, i, g) matches Ok(g2) ==> graph_extended(g, g2),
    decreases ts.len() - i,
{
    if i < 0 || i >= ts.len() {
    } else {
        match ts[i] {
            TokenModel::GraphKeyword => {
                lemma_spec_graph_kw_bounds(ts, i + 1, g);
                match spec_graph_kw(ts, i + 1, g) {
                    Ok((g2, j)) => {
                        lemma_parse_preserves_declarations(ts, j, g2);
                    },
                    Err(_) => {},
                }
            },
            TokenModel::IdentifierDeclaration(id) => {
                lemma_spec_ident_bounds(ts, i + 1, g, id);
                lemma_ident_decl_extends(ts, i + 1, g, id);
                match spec_ident_decl(ts, i + 1, g, id) {
                    Ok((g2, j)) => {
                        lemma_parse_preserves_declarations(ts, j, g2);
                    },
                    Err(_) => {},
                }
            },
            TokenModel::CurlyClose => {
                lemma_parse_preserves_declarations(ts, i + 1, g);
            },
            _ => {},
        }
    }
}

} // verus!
