//! The part of a parsed program that the import scan reads.
//!
//! A tree keeps the import declarations, call expressions, identifiers and
//! string literals of a module in source order. Every other syntax node is
//! an [`Node::Other`] that only holds its children.

use vstd::prelude::*;

verus! {

/// One binding of an import declaration.
#[derive(Debug)]
pub enum ImportSpecifier {
    /// `import { local } from "…"`
    Named { local: String },
    /// `import local from "…"`
    Default { local: String },
    /// `import * as local from "…"`
    Namespace { local: String },
}

/// `import … from "src"`
#[derive(Debug)]
pub struct ImportDecl {
    pub src: String,
    pub specifiers: Vec<ImportSpecifier>,
}

/// What a call expression calls.
#[derive(Debug)]
pub enum Callee {
    /// `super(…)`
    Super,
    /// `import(…)`
    Import,
    /// Any expression, such as an identifier.
    Expr(Box<Node>),
}

/// `callee(args…)`
#[derive(Debug)]
pub struct CallExpr {
    pub callee: Callee,
    pub args: Vec<Node>,
}

/// A syntax node.
#[derive(Debug)]
pub enum Node {
    ImportDecl(ImportDecl),
    Call(CallExpr),
    Ident { sym: String },
    Str { value: String },
    Other { children: Vec<Node> },
}

} // verus!
