//! Infers names for anonymous function and class expressions.
//!
//! Where an anonymous function or class expression is the value of a variable
//! declarator or of a plain assignment whose target is a single identifier, it
//! takes that identifier as its inline name:
//!
//! ```js
//! var number = function (x) { return x; };   // becomes: function number(x) { return x; }
//! var Foo = class {};                        // becomes: class Foo {}
//! ```
//!
//! [`FnName`] walks a whole tree; for each such binding it starts one
//! [`renamer::Renamer`] on the bound expression, which asks
//! [`usage::UsageFinder`] whether the expression already mentions the binding.

pub mod ast;
pub mod laws;
pub mod renamer;
pub mod usage;

use crate::ast::{trees_of, AssignOp, Name, Node, Tree};
use crate::renamer::{rename, Renamer};
use vstd::prelude::*;

verus! {

/// The name that a binding target proposes: its identifier if the target is a
/// single identifier, nothing otherwise.
pub open spec fn candidate(target: Tree) -> Option<Name> {
    match target {
        Tree::Ident(n) => Some(n),
        _ => None,
    }
}

/// The bound expression `value`, after the naming walk for `target` where
/// `binds` holds and `target` is a single identifier.
pub open spec fn bound(binds: bool, target: Tree, value: Tree) -> Tree {
    if binds && candidate(target) is Some {
        rename(value, candidate(target)).0
    } else {
        value
    }
}

/// The tree that the pass makes of `tree`.
///
/// The children of every node are rewritten first. Then the initializer of a
/// variable declarator whose pattern is a single identifier, and the right-hand
/// side of an assignment with `=` whose target is a single identifier, goes
/// through the naming walk with that identifier as the candidate.
pub open spec fn infer_names(tree: Tree) -> Tree
    decreases tree, 1nat,
{
    match tree {
        Tree::Ident(_) => tree,
        Tree::VarDeclarator { name, init } => {
            let name2 = infer_names(*name);
            match init {
                Some(e) => Tree::VarDeclarator {
                    name: Box::new(name2),
                    init: Some(Box::new(bound(true, name2, infer_names(*e)))),
                },
                None => Tree::VarDeclarator { name: Box::new(name2), init: None },
            }
        },
        Tree::Assign { op, left, right } => {
            let left2 = infer_names(*left);
            Tree::Assign {
                op,
                left: Box::new(left2),
                right: Box::new(bound(op == AssignOp::Assign, left2, infer_names(*right))),
            }
        },
        Tree::Fn { ident, body } => Tree::Fn { ident, body: infer_names_each(body) },
        Tree::Class { ident, body } => Tree::Class { ident, body: infer_names_each(body) },
        Tree::Opaque { kind, operands } => Tree::Opaque { kind, operands: infer_names_each(operands) },
        Tree::Other { children } => Tree::Other { children: infer_names_each(children) },
    }
}

/// The pass applied to each of `trees`.
pub open spec fn infer_names_each(trees: Seq<Tree>) -> Seq<Tree>
    decreases trees, 0nat,
{
    Seq::new(
        trees.len(),
        |i: int|
            if 0 <= i < trees.len() {
                infer_names(trees[i])
            } else {
                Tree::Other { children: Seq::empty() }
            },
    )
}

/// The pass that names anonymous function and class expressions after the
/// identifier that they are bound to.
#[derive(Clone, Copy)]
pub struct FnName;

/// The naming pass.
pub fn function_name() -> FnName {
    FnName
}

impl FnName {
    /// Applies the pass to `node` and everything below it.
    pub fn fold(&mut self, node: Node) -> (out: Node)
        ensures
            out@ == infer_names(node@),
        decreases node, 1nat,
    {
        match node {
            Node::Ident(i) => Node::Ident(i),
            Node::VarDeclarator { name, init } => {
                let name = self.fold(*name);
                let init = match init {
                    Some(e) => {
                        let e = self.fold(*e);
                        Some(Box::new(self.bind(true, &name, e)))
                    },
                    None => None,
                };
                Node::VarDeclarator { name: Box::new(name), init }
            },
            Node::Assign { op, left, right } => {
                let left = self.fold(*left);
                let right = self.fold(*right);
                let plain = match op {
                    AssignOp::Assign => true,
                    _ => false,
                };
                let right = self.bind(plain, &left, right);
                Node::Assign { op, left: Box::new(left), right: Box::new(right) }
            },
            Node::Fn { ident, body } => Node::Fn { ident, body: self.fold_each(body) },
            Node::Class { ident, body } => Node::Class { ident, body: self.fold_each(body) },
            Node::Opaque { kind, operands } => Node::Opaque { kind, operands: self.fold_each(operands) },
            Node::Other { children } => Node::Other { children: self.fold_each(children) },
        }
    }

    /// Applies the pass to each of `nodes`.
    pub fn fold_each(&mut self, nodes: Vec<Node>) -> (out: Vec<Node>)
        ensures
            trees_of(out) == infer_names_each(trees_of(nodes)),
        decreases nodes, 0nat,
    {
        let ghost all = nodes;
        let ghost trees = trees_of(nodes);
        let mut out: Vec<Node> = Vec::new();
        for node in iter: nodes
            invariant
                iter.seq() == all@,
                trees == trees_of(all),
                out.len() == iter.index(),
                forall|j: int| 0 <= j < out.len() ==> (#[trigger] out[j])@ == infer_names(trees[j]),
        {
            let ghost k = iter.index() as int;
            assert(node == all[k]);
            assert(trees[k] == all[k]@);
            let folded = self.fold(node);
            out.push(folded);
        }
        assert(trees_of(out) =~= infer_names_each(trees));
        out
    }

    /// Runs the naming walk for the binding of `value` to `target`, where
    /// `binds` holds and `target` is a single identifier; hands `value` back
    /// otherwise.
    pub fn bind(&mut self, binds: bool, target: &Node, value: Node) -> (out: Node)
        ensures
            out@ == bound(binds, target@, value@),
    {
        if !binds {
            return value;
        }
        match target {
            Node::Ident(ident) => {
                let mut folder = Renamer { name: Some(ident.clone()) };
                folder.fold(value)
            },
            _ => value,
        }
    }
}

} // verus!
