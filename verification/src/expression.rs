//! License expressions in postfix order, as the `spdx` crate parses them.

use vstd::prelude::*;
use vstd::string::*;
use spdx::expression::{ExprNode, Operator};
use crate::text::owned;

verus! {

/// One license term of an expression: `license`, or `license WITH exception`.
pub struct Term {
    /// the SPDX id, when the license is on the SPDX list
    pub id: Option<String>,
    /// the license written out (`LicenseRef-weird` when it is not on the list)
    pub text: String,
    /// the id of the exception behind `WITH`, when it is on the SPDX list
    pub exception: Option<String>,
}

/// A step of an expression in postfix order.
pub enum Node {
    Req(Term),
    And,
    Or,
}

/// A license expression: its terms and operators in postfix order.
pub struct Expression {
    pub nodes: Vec<Node>,
}

/// What a `Term` holds.
pub struct TermView {
    pub id: Option<Seq<char>>,
    pub text: Seq<char>,
    pub exception: Option<Seq<char>>,
}

/// What a `Node` holds.
pub enum NodeView {
    Req(TermView),
    And,
    Or,
}

impl DeepView for Term {
    type V = TermView;

    open spec fn deep_view(&self) -> TermView {
        TermView {
            id: self.id.deep_view(),
            text: self.text@,
            exception: self.exception.deep_view(),
        }
    }
}

impl DeepView for Node {
    type V = NodeView;

    open spec fn deep_view(&self) -> NodeView {
        match self {
            Node::Req(t) => NodeView::Req(t.deep_view()),
            Node::And => NodeView::And,
            Node::Or => NodeView::Or,
        }
    }
}

impl DeepView for Expression {
    type V = Seq<NodeView>;

    open spec fn deep_view(&self) -> Seq<NodeView> {
        self.nodes.deep_view()
    }
}

/// What `spdx::Expression::parse_mode` makes of a text in its lax mode: the nodes in
/// postfix order, or the message of its error.
pub uninterp spec fn spdx_parse(s: Seq<char>) -> Result<Seq<NodeView>, Seq<char>>;

/// What a parse result holds.
pub open spec fn parsed(r: Result<Expression, String>) -> Result<Seq<NodeView>, Seq<char>> {
    match r {
        Ok(e) => Ok(e.deep_view()),
        Err(m) => Err(m@),
    }
}

/// Calls `spdx::Expression::parse_mode` in its lax mode, which reads `/` as `OR` and
/// takes lower-case operators. The nodes of the expression, or the error's message,
/// depend on the text alone.
#[verifier::external_body]
fn lax_expression(text: &str) -> (r: Result<Expression, String>)
    ensures
        parsed(r) == spdx_parse(text@),
{
    match spdx::Expression::parse_mode(text, spdx::ParseMode::LAX) {
        Ok(e) => Ok(Expression { nodes: e.iter().map(|n| match n {
            ExprNode::Op(Operator::And) => Node::And,
            ExprNode::Op(Operator::Or) => Node::Or,
            ExprNode::Req(r) => Node::Req(Term {
                id: r.req.license.id().map(|l| l.name.to_string()),
                text: r.req.license.to_string(),
                exception: r.req.addition.as_ref().and_then(|a| a.id()).map(|x| x.name.to_string()),
            }),
        }).collect() }),
        Err(e) => Err(e.to_string()),
    }
}

impl Expression {
    /// Parses a license expression; the legacy `/` and lower-case operators of older
    /// crates are accepted.
    pub fn parse(text: &str) -> (r: Result<Expression, String>)
        ensures
            parsed(r) == spdx_parse(text@),
    {
        lax_expression(text)
    }
}

/// The name under which a license is attributed: its SPDX id, or else the reference
/// as it is written out.
pub open spec fn name_of(t: TermView) -> Seq<char> {
    match t.id {
        Some(id) => id,
        None => t.text,
    }
}

/// The name under which a license is attributed.
pub fn license_name(t: &Term) -> (r: String)
    ensures
        r@ == name_of(t.deep_view()),
{
    match &t.id {
        Some(id) => owned(id.as_str()),
        None => owned(t.text.as_str()),
    }
}

} // verus!
