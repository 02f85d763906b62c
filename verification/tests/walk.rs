use function_name::ast::{AssignOp, Ident, Node, OpaqueKind};
use function_name::renamer::Renamer;
use function_name::usage::UsageFinder;

fn id(sym: &str, ctxt: u32) -> Ident {
    Ident::new(sym.to_string(), ctxt)
}

fn ident(sym: &str, ctxt: u32) -> Node {
    Node::Ident(id(sym, ctxt))
}

fn other(children: Vec<Node>) -> Node {
    Node::Other { children }
}

fn func(name: Option<Ident>, body: Vec<Node>) -> Node {
    Node::Fn { ident: name, body }
}

fn class(name: Option<Ident>, body: Vec<Node>) -> Node {
    Node::Class { ident: name, body }
}

fn named_count(node: &Node) -> usize {
    match node {
        Node::Ident(_) => 0,
        Node::VarDeclarator { name, init } => {
            named_count(name) + init.as_ref().map_or(0, |e| named_count(e))
        }
        Node::Assign { left, right, .. } => named_count(left) + named_count(right),
        Node::Fn { ident, body } | Node::Class { ident, body } => {
            usize::from(ident.is_some()) + body.iter().map(named_count).sum::<usize>()
        }
        Node::Opaque { operands, .. } => operands.iter().map(named_count).sum(),
        Node::Other { children } => children.iter().map(named_count).sum(),
    }
}

#[test]
fn same_binding_needs_symbol_and_context() {
    assert!(id("a", 1).same_binding(&id("a", 1)));
    assert!(!id("a", 1).same_binding(&id("a", 2)));
    assert!(!id("a", 1).same_binding(&id("b", 1)));
    assert!(id("", 0).same_binding(&id("", 0)));
}

#[test]
fn clone_of_identifier_is_the_same_binding() {
    let a = id("name", 9);
    let b = a.clone();
    assert_eq!(a, b);
    assert!(a.same_binding(&b));
}

#[test]
fn named_sets_the_inline_name_of_functions_and_classes_only() {
    assert_eq!(func(None, vec![ident("p", 0)]).named(id("n", 1)), func(Some(id("n", 1)), vec![ident("p", 0)]));
    assert_eq!(class(None, vec![]).named(id("n", 1)), class(Some(id("n", 1)), vec![]));
    assert_eq!(func(Some(id("m", 0)), vec![]).named(id("n", 1)), func(Some(id("n", 1)), vec![]));
    assert_eq!(ident("a", 0).named(id("n", 1)), ident("a", 0));
    assert_eq!(other(vec![func(None, vec![])]).named(id("n", 1)), other(vec![func(None, vec![])]));
}

#[test]
fn finds_identifier_at_any_depth() {
    let needle = id("f", 0);
    let deep = other(vec![
        ident("a", 0),
        Node::Opaque {
            kind: OpaqueKind::Binary,
            operands: vec![ident("b", 0), class(None, vec![func(None, vec![ident("f", 0)])])],
        },
    ]);
    assert!(UsageFinder::find(&needle, &deep));
    assert!(UsageFinder::find(&needle, &ident("f", 0)));
}

#[test]
fn finds_identifier_in_declarators_and_assignments() {
    let needle = id("t", 4);
    let decl = |name: Node, init: Option<Node>| Node::VarDeclarator {
        name: Box::new(name),
        init: init.map(Box::new),
    };
    assert!(UsageFinder::find(&needle, &decl(ident("t", 4), None)));
    assert!(UsageFinder::find(&needle, &decl(ident("u", 4), Some(ident("t", 4)))));
    assert!(!UsageFinder::find(&needle, &decl(ident("u", 4), Some(ident("v", 4)))));
    assert!(!UsageFinder::find(&needle, &decl(ident("u", 4), None)));
    let asg = |left: Node, right: Node| Node::Assign {
        op: AssignOp::AddAssign,
        left: Box::new(left),
        right: Box::new(right),
    };
    assert!(UsageFinder::find(&needle, &asg(ident("t", 4), ident("u", 4))));
    assert!(UsageFinder::find(&needle, &asg(ident("u", 4), ident("t", 4))));
    assert!(!UsageFinder::find(&needle, &asg(ident("u", 4), ident("t", 5))));
}

#[test]
fn finds_inline_names() {
    let needle = id("f", 0);
    assert!(UsageFinder::find(&needle, &func(Some(id("f", 0)), vec![])));
    assert!(UsageFinder::find(&needle, &class(Some(id("f", 0)), vec![])));
    assert!(!UsageFinder::find(&needle, &func(Some(id("g", 0)), vec![])));
}

#[test]
fn does_not_find_other_bindings() {
    let needle = id("f", 0);
    let tree = other(vec![ident("f", 1), ident("g", 0), func(None, vec![ident("ff", 0)])]);
    assert!(!UsageFinder::find(&needle, &tree));
    assert!(!UsageFinder::find(&needle, &other(vec![])));
}

#[test]
fn visit_keeps_an_earlier_find() {
    let needle = id("f", 0);
    let mut finder = UsageFinder { ident: &needle, found: false };
    finder.visit(&id("g", 0));
    assert!(!finder.found);
    finder.visit(&id("f", 0));
    assert!(finder.found);
    finder.visit(&id("g", 0));
    assert!(finder.found);
}

#[test]
fn visit_nodes_scans_each_node() {
    let needle = id("f", 0);
    let mut finder = UsageFinder { ident: &needle, found: false };
    finder.visit_nodes(&vec![ident("a", 0), ident("b", 0)]);
    assert!(!finder.found);
    finder.visit_nodes(&vec![ident("a", 0), other(vec![ident("f", 0)])]);
    assert!(finder.found);
}

#[test]
fn walk_names_anonymous_function_and_uses_the_candidate_up() {
    let mut walk = Renamer { name: Some(id("n", 0)) };
    let out = walk.fold(func(None, vec![ident("x", 0)]));
    assert_eq!(out, func(Some(id("n", 0)), vec![ident("x", 0)]));
    assert_eq!(walk.name, None);
}

#[test]
fn walk_uses_the_candidate_up_on_a_conflict() {
    let mut walk = Renamer { name: Some(id("n", 0)) };
    let out = walk.fold(class(None, vec![ident("n", 0)]));
    assert_eq!(out, class(None, vec![ident("n", 0)]));
    assert_eq!(walk.name, None);
}

#[test]
fn walk_keeps_the_candidate_at_a_named_expression() {
    let mut walk = Renamer { name: Some(id("n", 0)) };
    let out = walk.fold(func(Some(id("h", 0)), vec![]));
    assert_eq!(out, func(Some(id("h", 0)), vec![]));
    assert_eq!(walk.name, Some(id("n", 0)));
}

#[test]
fn walk_keeps_the_candidate_at_an_opaque_expression() {
    let mut walk = Renamer { name: Some(id("n", 0)) };
    let opaque = Node::Opaque { kind: OpaqueKind::New, operands: vec![func(None, vec![])] };
    let out = walk.fold(opaque.clone());
    assert_eq!(out, opaque);
    assert_eq!(walk.name, Some(id("n", 0)));
}

#[test]
fn walk_without_candidate_changes_nothing() {
    let mut walk = Renamer { name: None };
    let tree = other(vec![func(None, vec![]), class(None, vec![])]);
    let out = walk.fold(tree.clone());
    assert_eq!(out, tree);
    assert_eq!(walk.name, None);
}

#[test]
fn walk_does_not_enter_the_expression_that_it_names() {
    let mut walk = Renamer { name: Some(id("n", 0)) };
    let out = walk.fold(func(None, vec![func(None, vec![])]));
    assert_eq!(out, func(Some(id("n", 0)), vec![func(None, vec![])]));
}

#[test]
fn walk_goes_through_declarators_and_assignments() {
    let mut walk = Renamer { name: Some(id("n", 0)) };
    let tree = Node::VarDeclarator {
        name: Box::new(ident("p", 0)),
        init: Some(Box::new(Node::Assign {
            op: AssignOp::MulAssign,
            left: Box::new(ident("q", 0)),
            right: Box::new(class(None, vec![])),
        })),
    };
    let expected = Node::VarDeclarator {
        name: Box::new(ident("p", 0)),
        init: Some(Box::new(Node::Assign {
            op: AssignOp::MulAssign,
            left: Box::new(ident("q", 0)),
            right: Box::new(class(Some(id("n", 0)), vec![])),
        })),
    };
    assert_eq!(walk.fold(tree), expected);
    assert_eq!(walk.name, None);
}

#[test]
fn walk_over_nodes_goes_from_left_to_right() {
    let mut walk = Renamer { name: Some(id("n", 0)) };
    let out = walk.fold_each(vec![
        func(Some(id("h", 0)), vec![]),
        ident("a", 0),
        class(None, vec![]),
        func(None, vec![]),
    ]);
    let expected = vec![
        func(Some(id("h", 0)), vec![]),
        ident("a", 0),
        class(Some(id("n", 0)), vec![]),
        func(None, vec![]),
    ];
    assert_eq!(out, expected);
    assert_eq!(walk.name, None);
}

#[test]
fn walk_names_at_most_one_expression() {
    let trees = vec![
        other(vec![func(None, vec![]), func(None, vec![]), class(None, vec![])]),
        other(vec![other(vec![class(None, vec![])]), other(vec![func(None, vec![])])]),
        other(vec![func(None, vec![ident("n", 0)]), func(None, vec![])]),
        other(vec![func(Some(id("h", 0)), vec![]), func(None, vec![]), func(None, vec![])]),
        func(None, vec![]),
        ident("n", 0),
    ];
    for tree in trees {
        let before = named_count(&tree);
        let mut walk = Renamer { name: Some(id("n", 0)) };
        let out = walk.fold(tree);
        let after = named_count(&out);
        assert!(before <= after && after <= before + 1);
    }
}

#[test]
fn clone_of_node_is_equal_at_every_depth() {
    let tree = Node::VarDeclarator {
        name: Box::new(ident("a", 1)),
        init: Some(Box::new(Node::Assign {
            op: AssignOp::ExpAssign,
            left: Box::new(other(vec![ident("b", 2)])),
            right: Box::new(func(
                Some(id("f", 3)),
                vec![
                    class(None, vec![ident("c", 4)]),
                    Node::Opaque { kind: OpaqueKind::Unary, operands: vec![ident("d", 5)] },
                ],
            )),
        })),
    };
    let copy = tree.clone();
    assert_eq!(copy, tree);
    assert_ne!(copy, ident("a", 1));
    let bare = Node::VarDeclarator { name: Box::new(ident("a", 1)), init: None };
    assert_eq!(bare.clone(), bare);
    assert_ne!(bare, tree);
}
