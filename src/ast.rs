//! The abstract syntax tree and its mathematical view.
use vstd::prelude::*;
use crate::token::Op;

verus! {

/// An expression of the language; each node owns its sub-trees.
#[derive(Debug, PartialEq)]
pub enum Ast {
    BinOp { op: Op, left: Box<Ast>, right: Box<Ast> },
    Num(i64),
    IfThenElse { condition: Box<Ast>, then_branch: Box<Ast>, else_branch: Box<Ast> },
    KeywordPrint(Box<Ast>),
    WhileLoop { condition: Box<Ast>, body: Box<Ast> },
    Identifier(String),
    Assignment { identifier: String, value: Box<Ast> },
}

/// The view of an expression: names are sequences of characters.
pub enum SpecAst {
    BinOp { op: Op, left: Box<SpecAst>, right: Box<SpecAst> },
    Num(i64),
    IfThenElse { condition: Box<SpecAst>, then_branch: Box<SpecAst>, else_branch: Box<SpecAst> },
    KeywordPrint(Box<SpecAst>),
    WhileLoop { condition: Box<SpecAst>, body: Box<SpecAst> },
    Identifier(Seq<char>),
    Assignment { identifier: Seq<char>, value: Box<SpecAst> },
}

impl View for Ast {
    type V = SpecAst;

    open spec fn view(&self) -> SpecAst
        decreases self,
    {
        match self {
            Ast::BinOp { op, left, right } => SpecAst::BinOp {
                op: *op,
                left: Box::new((**left).view()),
                right: Box::new((**right).view()),
            },
            Ast::Num(v) => SpecAst::Num(*v),
            Ast::IfThenElse { condition, then_branch, else_branch } => SpecAst::IfThenElse {
                condition: Box::new((**condition).view()),
                then_branch: Box::new((**then_branch).view()),
                else_branch: Box::new((**else_branch).view()),
            },
            Ast::KeywordPrint(e) => SpecAst::KeywordPrint(Box::new((**e).view())),
            Ast::WhileLoop { condition, body } => SpecAst::WhileLoop {
                condition: Box::new((**condition).view()),
                body: Box::new((**body).view()),
            },
            Ast::Identifier(n) => SpecAst::Identifier(n@),
            Ast::Assignment { identifier, value } => SpecAst::Assignment {
                identifier: identifier@,
                value: Box::new((**value).view()),
            },
        }
    }
}

} // verus!
