//! The shapes of the abstract syntax tree that the evaluator walks.
//!
//! The tree itself comes from an external parser; this module only fixes the
//! node shapes.  Any child may be absent, so every link is an
//! `Option<Rc<Node>>`.

use std::rc::Rc;
use vstd::prelude::*;

verus! {

/// One AST node.
pub enum Node {
    ExpressionStatement(Option<Rc<Node>>),
    AdditiveExpression { operator: char, left: Option<Rc<Node>>, right: Option<Rc<Node>> },
    AssignmentExpression { operator: char, left: Option<Rc<Node>>, right: Option<Rc<Node>> },
    MemberExpression { object: Option<Rc<Node>>, property: Option<Rc<Node>> },
    NumericLiteral(u64),
    StringLiteral(String),
    Identifier(String),
    VariableDeclaration { declarations: Vec<Option<Rc<Node>>> },
    VariableDeclarator { id: Option<Rc<Node>>, init: Option<Rc<Node>> },
    CallExpression { callee: Option<Rc<Node>>, arguments: Vec<Option<Rc<Node>>> },
    BlockStatement { body: Vec<Option<Rc<Node>>> },
    ReturnStatement { argument: Option<Rc<Node>> },
    FunctionDeclaration {
        id: Option<Rc<Node>>,
        params: Vec<Option<Rc<Node>>>,
        body: Option<Rc<Node>>,
    },
}

/// An ordered list of top-level statements.
pub struct Program {
    body: Vec<Rc<Node>>,
}

impl Program {
    pub closed spec fn body_view(&self) -> Seq<Rc<Node>> {
        self.body@
    }

    pub fn new() -> (r: Program)
        ensures
            r.body_view() == Seq::<Rc<Node>>::empty(),
    {
        Program { body: Vec::new() }
    }

    pub fn set_body(&mut self, body: Vec<Rc<Node>>)
        ensures
            final(self).body_view() == body@,
    {
        self.body = body;
    }

    pub fn body(&self) -> (r: &Vec<Rc<Node>>)
        ensures
            r@ == self.body_view(),
    {
        &self.body
    }
}

} // verus!
