//! The naming walk: hands one candidate name to the first anonymous function or
//! class expression that it reaches.

use crate::ast::{name_of, trees_of, Ident, Name, Node, Tree};
use crate::usage::{mentions, UsageFinder};
use vstd::prelude::*;

verus! {

/// What the naming walk makes of `tree` when it arrives with the candidate
/// `cand`, and the candidate that it leaves with.
///
/// A function or class expression that has a name is passed by. An anonymous
/// one uses the candidate up: it takes the candidate as its name unless it
/// mentions that binding already. Neither is entered, nor is an opaque
/// expression. Every other node hands the candidate through its children from
/// left to right.
pub open spec fn rename(tree: Tree, cand: Option<Name>) -> (Tree, Option<Name>)
    decreases tree, 1nat,
{
    match tree {
        Tree::Ident(_) => (tree, cand),
        Tree::VarDeclarator { name, init } => {
            let (name2, c1) = rename(*name, cand);
            match init {
                Some(e) => {
                    let (init2, c2) = rename(*e, c1);
                    (Tree::VarDeclarator { name: Box::new(name2), init: Some(Box::new(init2)) }, c2)
                },
                None => (Tree::VarDeclarator { name: Box::new(name2), init: None }, c1),
            }
        },
        Tree::Assign { op, left, right } => {
            let (left2, c1) = rename(*left, cand);
            let (right2, c2) = rename(*right, c1);
            (Tree::Assign { op, left: Box::new(left2), right: Box::new(right2) }, c2)
        },
        Tree::Fn { ident, body } => {
            if ident is Some {
                (tree, cand)
            } else if cand is Some && !mentions(tree, cand->0) {
                (Tree::Fn { ident: cand, body }, None)
            } else {
                (tree, None)
            }
        },
        Tree::Class { ident, body } => {
            if ident is Some {
                (tree, cand)
            } else if cand is Some && !mentions(tree, cand->0) {
                (Tree::Class { ident: cand, body }, None)
            } else {
                (tree, None)
            }
        },
        Tree::Opaque { kind, operands } => (tree, cand),
        Tree::Other { children } => {
            let (children2, c1) = rename_each(children, cand);
            (Tree::Other { children: children2 }, c1)
        },
    }
}

/// The naming walk over `trees` from left to right, each taking up the
/// candidate that the one before it left.
pub open spec fn rename_each(trees: Seq<Tree>, cand: Option<Name>) -> (Seq<Tree>, Option<Name>)
    decreases trees, 0nat,
{
    if trees.len() == 0 {
        (trees, cand)
    } else {
        let (front, c1) = rename_each(trees.drop_last(), cand);
        let (last, c2) = rename(trees.last(), c1);
        (front.push(last), c2)
    }
}

/// The naming walk, with the candidate that is still to be handed out.
pub struct Renamer {
    pub name: Option<Ident>,
}

impl Renamer {
    /// Walks `node` with the pending candidate and returns the rewritten node;
    /// the candidate is gone afterwards if an anonymous function or class
    /// expression was reached.
    pub fn fold(&mut self, node: Node) -> (out: Node)
        ensures
            (out@, name_of(final(self).name)) == rename(node@, name_of(old(self).name)),
        decreases node, 1nat,
    {
        match node {
            Node::Ident(i) => Node::Ident(i),
            Node::VarDeclarator { name, init } => {
                let name = self.fold(*name);
                let init = match init {
                    Some(e) => Some(Box::new(self.fold(*e))),
                    None => None,
                };
                Node::VarDeclarator { name: Box::new(name), init }
            },
            Node::Assign { op, left, right } => {
                let left = self.fold(*left);
                let right = self.fold(*right);
                Node::Assign { op, left: Box::new(left), right: Box::new(right) }
            },
            Node::Fn { ident: Some(i), body } => Node::Fn { ident: Some(i), body },
            Node::Fn { ident: None, body } => {
                let node = Node::Fn { ident: None, body };
                match self.name.take() {
                    None => node,
                    Some(name) => {
                        if UsageFinder::find(&name, &node) {
                            node
                        } else {
                            node.named(name)
                        }
                    },
                }
            },
            Node::Class { ident: Some(i), body } => Node::Class { ident: Some(i), body },
            Node::Class { ident: None, body } => {
                let node = Node::Class { ident: None, body };
                match self.name.take() {
                    None => node,
                    Some(name) => {
                        if UsageFinder::find(&name, &node) {
                            node
                        } else {
                            node.named(name)
                        }
                    },
                }
            },
            Node::Opaque { kind, operands } => Node::Opaque { kind, operands },
            Node::Other { children } => Node::Other { children: self.fold_each(children) },
        }
    }

    /// Walks `nodes` from left to right with the pending candidate.
    pub fn fold_each(&mut self, nodes: Vec<Node>) -> (out: Vec<Node>)
        ensures
            (trees_of(out), name_of(final(self).name)) == rename_each(
                trees_of(nodes),
                name_of(old(self).name),
            ),
        decreases nodes, 0nat,
    {
        let ghost trees = trees_of(nodes);
        let ghost cand = name_of(self.name);
        let ghost all = nodes;
        let mut out: Vec<Node> = Vec::new();
        proof {
            assert(trees.take(0) =~= Seq::empty());
            assert(trees_of(out) =~= Seq::empty());
        }
        for node in iter: nodes
            invariant
                iter.seq() == all@,
                trees == trees_of(all),
                (trees_of(out), name_of(self.name)) == rename_each(trees.take(iter.index() as int), cand),
        {
            let ghost k = iter.index() as int;
            let ghost done = trees_of(out);
            assert(node == all[k]);
            let renamed = self.fold(node);
            out.push(renamed);
            proof {
                assert(trees[k] == all[k]@);
                assert(trees.take(k + 1).drop_last() =~= trees.take(k));
                assert(trees.take(k + 1).last() == trees[k]);
                assert(trees_of(out) =~= done.push(renamed@));
            }
        }
        proof {
            assert(trees.take(trees.len() as int) =~= trees);
        }
        out
    }
}

} // verus!
