//! Running a query over the syntax tree of a Rust source.
//!
//! The tree is made and searched by `tree_sitter` with the grammar of
//! `tree_sitter_rust`. What comes back is held as plain values: for each
//! match its captures, each with its name, the text of its node, and the
//! node's `argument` as a tree of its own.

use crate::parser::captures::{capture_models, Capture, CaptureModel};
use crate::parser::specs::UseNode;
use tree_sitter::{Language, Parser, Query, QueryCursor, StreamingIterator};
use vstd::prelude::*;

verus! {

/// Why a query found nothing.
#[derive(Debug)]
pub enum QueryProblem {
    /// The parser does not take the grammar.
    Language,
    /// The source could not be parsed.
    Parse,
    /// The query is not one.
    Query(String),
}

pub enum ProblemModel {
    Language,
    Parse,
    Query(Seq<char>),
}

impl View for QueryProblem {
    type V = ProblemModel;

    open spec fn view(&self) -> ProblemModel {
        match self {
            QueryProblem::Language => ProblemModel::Language,
            QueryProblem::Parse => ProblemModel::Parse,
            QueryProblem::Query(e) => ProblemModel::Query(e@),
        }
    }
}

/// What `tree_sitter::QueryCursor::matches` gives for a query and a source:
/// the matches in the order in which they come, each with its captures, or
/// what went wrong before it could be called. The query is the one that
/// `Query::new` makes of the text `query`, the tree the one that
/// `Parser::parse` makes of the text `source`, both under the grammar of
/// Rust that the library is built with. It depends on the two texts alone.
pub uninterp spec fn query_result(query: Seq<char>, source: Seq<char>) -> Result<
    Seq<Seq<CaptureModel>>,
    ProblemModel,
>;

/// The matches that the matches stand for.
pub open spec fn match_models(matches: Seq<Vec<Capture>>) -> Seq<Seq<CaptureModel>> {
    Seq::new(matches.len(), |i: int| capture_models(matches[i]@))
}

/// `tree_sitter::Query`, a compiled query. Nothing is known of what it
/// holds.
#[verifier::external_type_specification]
#[verifier::external_body]
pub struct ExQuery(Query);

/// `tree_sitter::Node`, a node of a syntax tree. Nothing is known of what
/// it holds.
#[verifier::external_type_specification]
#[verifier::external_body]
pub struct ExNode<'tree>(tree_sitter::Node<'tree>);

/// Turns a node into a tree of the library: its kind from `Node::kind`,
/// its text from `Node::utf8_text`, the texts of its children `path`,
/// `name` and `alias` and its child `list` from
/// `Node::child_by_field_name`, its named children from
/// `Node::named_children`.
#[verifier::external_body]
fn use_node(node: tree_sitter::Node, source: &str) -> UseNode {
    let text = |n: tree_sitter::Node| n.utf8_text(source.as_bytes()).unwrap_or("").to_string();
    UseNode {
        kind: node.kind().to_string(),
        text: text(node),
        path: node.child_by_field_name("path").map(text),
        name: node.child_by_field_name("name").map(text),
        alias: node.child_by_field_name("alias").map(text),
        list: node.child_by_field_name("list").map(|n| use_node(n, source)).into_iter().collect(),
        children: node.named_children(&mut node.walk()).map(|n| use_node(n, source)).collect(),
    }
}

/// Turns a capture into one of the library: its name from
/// `Query::capture_names`, the text of its node from `Node::utf8_text`, and
/// the node's child `argument` from `Node::child_by_field_name`.
#[verifier::external_body]
fn capture_of(query: &Query, index: u32, node: tree_sitter::Node, source: &str) -> Capture {
    Capture {
        name: query.capture_names()[index as usize].to_string(),
        text: node.utf8_text(source.as_bytes()).ok().map(str::to_string),
        argument: node.child_by_field_name("argument").map(|n| use_node(n, source)).into_iter()
            .collect(),
    }
}

/// Calls `tree_sitter::QueryCursor::matches` from the root of the tree of
/// `source` with the query `query`. Its arguments are made of the two
/// texts: the tree by `Parser::parse` under the grammar
/// `tree_sitter_rust::LANGUAGE`, the query by `Query::new`; where one of
/// them cannot be made, that is the problem returned. The result is what
/// `query_result` names.
#[verifier::external_body]
pub(crate) fn run_query(query: &str, source: &str) -> (r: Result<Vec<Vec<Capture>>, QueryProblem>)
    ensures
        match r {
            Ok(matches) => query_result(query@, source@) == Ok::<
                Seq<Seq<CaptureModel>>,
                ProblemModel,
            >(match_models(matches@)),
            Err(problem) => query_result(query@, source@) == Err::<
                Seq<Seq<CaptureModel>>,
                ProblemModel,
            >(problem@),
        },
{
    let language = Language::new(tree_sitter_rust::LANGUAGE);
    let mut parser = Parser::new();
    parser.set_language(&language).map_err(|_| QueryProblem::Language)?;
    let tree = parser.parse(source, None).ok_or(QueryProblem::Parse)?;
    let compiled = Query::new(&language, query).map_err(|e| QueryProblem::Query(e.to_string()))?;
    let mut cursor = QueryCursor::new();
    let mut found = cursor.matches(&compiled, tree.root_node(), source.as_bytes());
    let mut out = Vec::new();
    while let Some(m) = found.next() {
        out.push(m.captures().iter().map(|c| capture_of(&compiled, c.index, c.node, source)).collect());
    }
    Ok(out)
}

} // verus!
