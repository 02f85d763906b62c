//! The syntax tree that the naming pass reads and rewrites.

use vstd::prelude::*;

verus! {

/// The mathematical value of an [`Ident`]: the characters of its symbol and its
/// lexical-context token.
pub struct Name {
    pub sym: Seq<char>,
    pub ctxt: u32,
}

/// An identifier: a symbol together with the token of the lexical context that
/// it was resolved in. Two identifiers denote the same binding only when both
/// agree.
#[derive(Debug, PartialEq, Eq, Hash)]
pub struct Ident {
    pub sym: String,
    pub ctxt: u32,
}

impl View for Ident {
    type V = Name;

    open spec fn view(&self) -> Name {
        Name { sym: self.sym@, ctxt: self.ctxt }
    }
}

impl Clone for Ident {
    fn clone(&self) -> (copy: Ident)
        ensures
            copy@ == self@,
    {
        Ident { sym: self.sym.clone(), ctxt: self.ctxt }
    }
}

impl Ident {
    /// The identifier with the symbol `sym`, resolved in the context `ctxt`.
    pub fn new(sym: String, ctxt: u32) -> (ident: Ident)
        ensures
            ident@ == (Name { sym: sym@, ctxt }),
    {
        Ident { sym, ctxt }
    }

    /// Whether `self` and `other` denote the same binding.
    pub fn same_binding(&self, other: &Ident) -> (same: bool)
        ensures
            same == (self@ == other@),
    {
        self.ctxt == other.ctxt && self.sym == other.sym
    }
}

/// The view of an optional identifier.
pub open spec fn name_of(ident: Option<Ident>) -> Option<Name> {
    match ident {
        Some(i) => Some(i@),
        None => None,
    }
}

/// The operator of an assignment expression.
#[derive(Clone, Copy, Debug, PartialEq, Eq, Structural)]
pub enum AssignOp {
    /// `=`
    Assign,
    /// `+=`
    AddAssign,
    /// `-=`
    SubAssign,
    /// `*=`
    MulAssign,
    /// `/=`
    DivAssign,
    /// `%=`
    ModAssign,
    /// `<<=`
    LShiftAssign,
    /// `>>=`
    RShiftAssign,
    /// `>>>=`
    ZeroFillRShiftAssign,
    /// `|=`
    BitOrAssign,
    /// `^=`
    BitXorAssign,
    /// `&=`
    BitAndAssign,
    /// `**=`
    ExpAssign,
    /// `&&=`
    AndAssign,
    /// `||=`
    OrAssign,
    /// `??=`
    NullishAssign,
}

/// The expression kinds that stop the search for an expression to name: a
/// function or class found below one of them is not itself the value that is
/// being bound.
#[derive(Clone, Copy, Debug, PartialEq, Eq, Structural)]
pub enum OpaqueKind {
    /// An object literal.
    Object,
    /// An array literal.
    Array,
    /// A call expression.
    Call,
    /// A `new` expression.
    New,
    /// A binary expression.
    Binary,
    /// A unary expression.
    Unary,
}

/// A node of the syntax tree. Every node owns its children.
#[derive(Debug, PartialEq, Eq)]
pub enum Node {
    /// An identifier, as an expression or as a simple binding pattern.
    Ident(Ident),
    /// A variable declarator: a binding pattern and an optional initializer.
    VarDeclarator { name: Box<Node>, init: Option<Box<Node>> },
    /// An assignment expression.
    Assign { op: AssignOp, left: Box<Node>, right: Box<Node> },
    /// A function expression: an optional inline name, and its parameters and
    /// body as children.
    Fn { ident: Option<Ident>, body: Vec<Node> },
    /// A class expression: an optional inline name, and its super class and
    /// members as children.
    Class { ident: Option<Ident>, body: Vec<Node> },
    /// An expression of one of the kinds of [`OpaqueKind`], with its operands.
    Opaque { kind: OpaqueKind, operands: Vec<Node> },
    /// A node of any other kind, with its children in source order.
    Other { children: Vec<Node> },
}

/// The mathematical value of a [`Node`].
pub enum Tree {
    Ident(Name),
    VarDeclarator { name: Box<Tree>, init: Option<Box<Tree>> },
    Assign { op: AssignOp, left: Box<Tree>, right: Box<Tree> },
    Fn { ident: Option<Name>, body: Seq<Tree> },
    Class { ident: Option<Name>, body: Seq<Tree> },
    Opaque { kind: OpaqueKind, operands: Seq<Tree> },
    Other { children: Seq<Tree> },
}

/// The views of a vector of nodes, in order.
pub open spec fn trees_of(nodes: Vec<Node>) -> Seq<Tree>
    decreases nodes, 0nat,
{
    Seq::new(
        nodes.len() as nat,
        |i: int|
            if 0 <= i < nodes.len() {
                tree_of(nodes[i])
            } else {
                Tree::Other { children: Seq::empty() }
            },
    )
}

/// The view of a node.
pub open spec fn tree_of(node: Node) -> Tree
    decreases node, 1nat,
{
    match node {
        Node::Ident(i) => Tree::Ident(i@),
        Node::VarDeclarator { name, init } => Tree::VarDeclarator {
            name: Box::new(tree_of(*name)),
            init: match init {
                Some(e) => Some(Box::new(tree_of(*e))),
                None => None,
            },
        },
        Node::Assign { op, left, right } => Tree::Assign {
            op,
            left: Box::new(tree_of(*left)),
            right: Box::new(tree_of(*right)),
        },
        Node::Fn { ident, body } => Tree::Fn { ident: name_of(ident), body: trees_of(body) },
        Node::Class { ident, body } => Tree::Class { ident: name_of(ident), body: trees_of(body) },
        Node::Opaque { kind, operands } => Tree::Opaque { kind, operands: trees_of(operands) },
        Node::Other { children } => Tree::Other { children: trees_of(children) },
    }
}

impl Node {
    /// This node with `name` as its inline name, if it is a function or class
    /// expression; any other node as it is.
    pub fn named(self, name: Ident) -> (out: Node)
        ensures
            out@ == match self@ {
                Tree::Fn { ident, body } => Tree::Fn { ident: Some(name@), body },
                Tree::Class { ident, body } => Tree::Class { ident: Some(name@), body },
                other => other,
            },
    {
        match self {
            Node::Fn { ident, body } => Node::Fn { ident: Some(name), body },
            Node::Class { ident, body } => Node::Class { ident: Some(name), body },
            other => other,
        }
    }
}

impl Clone for Node {
    fn clone(&self) -> (copy: Node)
        ensures
            copy@ == self@,
        decreases self, 1nat,
    {
        match self {
            Node::Ident(i) => Node::Ident(i.clone()),
            Node::VarDeclarator { name, init } => Node::VarDeclarator {
                name: Box::new((**name).clone()),
                init: match init {
                    Some(e) => Some(Box::new((**e).clone())),
                    None => None,
                },
            },
            Node::Assign { op, left, right } => Node::Assign {
                op: *op,
                left: Box::new((**left).clone()),
                right: Box::new((**right).clone()),
            },
            Node::Fn { ident, body } => Node::Fn { ident: clone_name(ident), body: clone_each(body) },
            Node::Class { ident, body } => Node::Class {
                ident: clone_name(ident),
                body: clone_each(body),
            },
            Node::Opaque { kind, operands } => Node::Opaque {
                kind: *kind,
                operands: clone_each(operands),
            },
            Node::Other { children } => Node::Other { children: clone_each(children) },
        }
    }
}

/// A copy of an optional identifier.
fn clone_name(ident: &Option<Ident>) -> (copy: Option<Ident>)
    ensures
        name_of(copy) == name_of(*ident),
{
    match ident {
        Some(i) => Some(i.clone()),
        None => None,
    }
}

/// A copy of each of `nodes`, in order.
fn clone_each(nodes: &Vec<Node>) -> (copy: Vec<Node>)
    ensures
        trees_of(copy) == trees_of(*nodes),
    decreases nodes, 0nat,
{
    let mut copy: Vec<Node> = Vec::new();
    let mut i: usize = 0;
    while i < nodes.len()
        invariant
            i <= nodes.len(),
            copy.len() == i,
            forall|j: int| 0 <= j < i ==> (#[trigger] copy[j])@ == nodes[j]@,
        decreases nodes.len() - i,
    {
        copy.push(nodes[i].clone());
        i += 1;
    }
    assert(trees_of(copy) =~= trees_of(*nodes));
    copy
}

impl View for Node {
    type V = Tree;

    open spec fn view(&self) -> Tree {
        tree_of(*self)
    }
}

} // verus!
