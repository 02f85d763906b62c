//! The conflict check: does a subtree mention a given binding?

use crate::ast::{Ident, Name, Node, Tree};
use vstd::prelude::*;

verus! {

/// Whether an identifier that denotes `name` occurs anywhere in `tree`, the
/// inline names of function and class expressions included.
pub open spec fn mentions(tree: Tree, name: Name) -> bool
    decreases tree, 1nat,
{
    match tree {
        Tree::Ident(n) => n == name,
        Tree::VarDeclarator { name: pattern, init } => mentions(*pattern, name) || match init {
            Some(e) => mentions(*e, name),
            None => false,
        },
        Tree::Assign { op, left, right } => mentions(*left, name) || mentions(*right, name),
        Tree::Fn { ident, body } => ident == Some(name) || any_mentions(body, name),
        Tree::Class { ident, body } => ident == Some(name) || any_mentions(body, name),
        Tree::Opaque { kind, operands } => any_mentions(operands, name),
        Tree::Other { children } => any_mentions(children, name),
    }
}

/// Whether one of `trees` mentions `name`.
pub open spec fn any_mentions(trees: Seq<Tree>, name: Name) -> bool
    decreases trees, 0nat,
{
    exists|i: int| 0 <= i < trees.len() && mentions(#[trigger] trees[i], name)
}

/// A scan of a subtree for occurrences of one identifier.
pub struct UsageFinder<'a> {
    pub ident: &'a Ident,
    pub found: bool,
}

impl<'a> UsageFinder<'a> {
    /// Whether `node` mentions the binding that `ident` denotes.
    pub fn find(ident: &'a Ident, node: &Node) -> (found: bool)
        ensures
            found == mentions(node@, ident@),
    {
        let mut v = UsageFinder { ident, found: false };
        v.visit_node(node);
        v.found
    }

    /// Records whether the identifier `i` denotes the binding looked for.
    pub fn visit(&mut self, i: &Ident)
        ensures
            final(self).ident == old(self).ident,
            final(self).found == (old(self).found || i@ == old(self).ident@),
    {
        if i.same_binding(self.ident) {
            self.found = true;
        }
    }

    /// Scans `node` and everything below it.
    pub fn visit_node(&mut self, node: &Node)
        ensures
            final(self).ident == old(self).ident,
            final(self).found == (old(self).found || mentions(node@, old(self).ident@)),
        decreases node, 1nat,
    {
        match node {
            Node::Ident(i) => self.visit(i),
            Node::VarDeclarator { name, init } => {
                self.visit_node(name);
                match init {
                    Some(e) => self.visit_node(e),
                    None => {},
                }
            },
            Node::Assign { op, left, right } => {
                self.visit_node(left);
                self.visit_node(right);
            },
            Node::Fn { ident, body } => {
                match ident {
                    Some(i) => self.visit(i),
                    None => {},
                }
                self.visit_nodes(body);
            },
            Node::Class { ident, body } => {
                match ident {
                    Some(i) => self.visit(i),
                    None => {},
                }
                self.visit_nodes(body);
            },
            Node::Opaque { kind, operands } => self.visit_nodes(operands),
            Node::Other { children } => self.visit_nodes(children),
        }
    }

    /// Scans each of `nodes` and everything below them.
    pub fn visit_nodes(&mut self, nodes: &Vec<Node>)
        ensures
            final(self).ident == old(self).ident,
            final(self).found == (old(self).found || any_mentions(
                crate::ast::trees_of(*nodes),
                old(self).ident@,
            )),
        decreases nodes, 0nat,
    {
        let ghost trees = crate::ast::trees_of(*nodes);
        let ghost start = self.found;
        let ghost name = self.ident@;
        let mut i: usize = 0;
        while i < nodes.len()
            invariant
                i <= nodes.len(),
                trees == crate::ast::trees_of(*nodes),
                self.ident == old(self).ident,
                name == self.ident@,
                self.found == (start || exists|j: int| 0 <= j < i && mentions(#[trigger] trees[j], name)),
            decreases nodes.len() - i,
        {
            let ghost before = self.found;
            self.visit_node(&nodes[i]);
            proof {
                assert(trees[i as int] == nodes[i as int]@);
                assert(self.found == (before || mentions(trees[i as int], name)));
            }
            i += 1;
        }
    }
}

} // verus!
