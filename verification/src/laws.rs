//! What holds of the naming walk and of the pass on every tree.

use crate::ast::{AssignOp, Name, Tree};
use crate::renamer::{rename, rename_each};
use crate::{bound, candidate, infer_names, infer_names_each};
use vstd::prelude::*;

verus! {

/// The number of function and class expressions in `tree`, at any depth, that
/// carry an inline name.
pub open spec fn named_count(tree: Tree) -> nat
    decreases tree, 1nat,
{
    match tree {
        Tree::Ident(_) => 0,
        Tree::VarDeclarator { name, init } => named_count(*name) + match init {
            Some(e) => named_count(*e),
            None => 0,
        },
        Tree::Assign { op, left, right } => named_count(*left) + named_count(*right),
        Tree::Fn { ident, body } => named_count_each(body) + if ident is Some {
            1nat
        } else {
            0nat
        },
        Tree::Class { ident, body } => named_count_each(body) + if ident is Some {
            1nat
        } else {
            0nat
        },
        Tree::Opaque { kind, operands } => named_count_each(operands),
        Tree::Other { children } => named_count_each(children),
    }
}

/// The sum of [`named_count`] over `trees`.
pub open spec fn named_count_each(trees: Seq<Tree>) -> nat
    decreases trees, 0nat,
{
    if trees.len() == 0 {
        0
    } else {
        named_count_each(trees.drop_last()) + named_count(trees.last())
    }
}

/// Whether `after` is `before` but for inline names given to function and class
/// expressions that had none: the shape, the identifiers, the operators and
/// every inline name of `before` are those of `after`.
pub open spec fn adds_names(before: Tree, after: Tree) -> bool
    decreases before, 1nat,
{
    match (before, after) {
        (Tree::Ident(a), Tree::Ident(b)) => a == b,
        (
            Tree::VarDeclarator { name: n1, init: i1 },
            Tree::VarDeclarator { name: n2, init: i2 },
        ) => adds_names(*n1, *n2) && match (i1, i2) {
            (Some(e1), Some(e2)) => adds_names(*e1, *e2),
            (None, None) => true,
            _ => false,
        },
        (
            Tree::Assign { op: o1, left: l1, right: r1 },
            Tree::Assign { op: o2, left: l2, right: r2 },
        ) => o1 == o2 && adds_names(*l1, *l2) && adds_names(*r1, *r2),
        (Tree::Fn { ident: a, body: b1 }, Tree::Fn { ident: b, body: b2 }) => (a is Some ==> a == b)
            && adds_names_each(b1, b2),
        (Tree::Class { ident: a, body: b1 }, Tree::Class { ident: b, body: b2 }) => (a is Some ==> a
            == b) && adds_names_each(b1, b2),
        (Tree::Opaque { kind: k1, operands: o1 }, Tree::Opaque { kind: k2, operands: o2 }) => k1
            == k2 && adds_names_each(o1, o2),
        (Tree::Other { children: c1 }, Tree::Other { children: c2 }) => adds_names_each(c1, c2),
        _ => false,
    }
}

/// [`adds_names`] of each of `before` and the tree at its place in `after`.
pub open spec fn adds_names_each(before: Seq<Tree>, after: Seq<Tree>) -> bool
    decreases before, 0nat,
{
    before.len() == after.len() && forall|i: int|
        #![trigger before[i]]
        #![trigger after[i]]
        0 <= i < before.len() ==> adds_names(before[i], after[i])
}

proof fn lemma_adds_names_refl(tree: Tree)
    ensures
        adds_names(tree, tree),
    decreases tree, 1nat,
{
    match tree {
        Tree::Ident(_) => {},
        Tree::VarDeclarator { name, init } => {
            lemma_adds_names_refl(*name);
            match init {
                Some(e) => lemma_adds_names_refl(*e),
                None => {},
            }
        },
        Tree::Assign { op, left, right } => {
            lemma_adds_names_refl(*left);
            lemma_adds_names_refl(*right);
        },
        Tree::Fn { ident, body } => lemma_adds_names_each_refl(body),
        Tree::Class { ident, body } => lemma_adds_names_each_refl(body),
        Tree::Opaque { kind, operands } => lemma_adds_names_each_refl(operands),
        Tree::Other { children } => lemma_adds_names_each_refl(children),
    }
}

proof fn lemma_adds_names_each_refl(trees: Seq<Tree>)
    ensures
        adds_names_each(trees, trees),
    decreases trees, 0nat,
{
    assert forall|i: int| 0 <= i < trees.len() implies adds_names(#[trigger] trees[i], trees[i]) by {
        lemma_adds_names_refl(trees[i]);
    }
}

proof fn lemma_adds_names_trans(a: Tree, b: Tree, c: Tree)
    requires
        adds_names(a, b),
        adds_names(b, c),
    ensures
        adds_names(a, c),
    decreases a, 1nat,
{
    match (a, b, c) {
        (
            Tree::VarDeclarator { name: n1, init: i1 },
            Tree::VarDeclarator { name: n2, init: i2 },
            Tree::VarDeclarator { name: n3, init: i3 },
        ) => {
            lemma_adds_names_trans(*n1, *n2, *n3);
            match (i1, i2, i3) {
                (Some(e1), Some(e2), Some(e3)) => lemma_adds_names_trans(*e1, *e2, *e3),
                _ => {},
            }
        },
        (
            Tree::Assign { op: o1, left: l1, right: r1 },
            Tree::Assign { op: o2, left: l2, right: r2 },
            Tree::Assign { op: o3, left: l3, right: r3 },
        ) => {
            lemma_adds_names_trans(*l1, *l2, *l3);
            lemma_adds_names_trans(*r1, *r2, *r3);
        },
        (
            Tree::Fn { ident: _, body: b1 },
            Tree::Fn { ident: _, body: b2 },
            Tree::Fn { ident: _, body: b3 },
        ) => lemma_adds_names_each_trans(b1, b2, b3),
        (
            Tree::Class { ident: _, body: b1 },
            Tree::Class { ident: _, body: b2 },
            Tree::Class { ident: _, body: b3 },
        ) => lemma_adds_names_each_trans(b1, b2, b3),
        (
            Tree::Opaque { kind: _, operands: b1 },
            Tree::Opaque { kind: _, operands: b2 },
            Tree::Opaque { kind: _, operands: b3 },
        ) => lemma_adds_names_each_trans(b1, b2, b3),
        (
            Tree::Other { children: b1 },
            Tree::Other { children: b2 },
            Tree::Other { children: b3 },
        ) => lemma_adds_names_each_trans(b1, b2, b3),
        _ => {},
    }
}

proof fn lemma_adds_names_each_trans(a: Seq<Tree>, b: Seq<Tree>, c: Seq<Tree>)
    requires
        adds_names_each(a, b),
        adds_names_each(b, c),
    ensures
        adds_names_each(a, c),
    decreases a, 0nat,
{
    assert forall|i: int| 0 <= i < a.len() implies adds_names(#[trigger] a[i], c[i]) by {
        assert(adds_names(a[i], b[i]));
        assert(adds_names(b[i], c[i]));
        lemma_adds_names_trans(a[i], b[i], c[i]);
    }
}

/// Giving names never lowers the number of named expressions, and leaves it the
/// same only where nothing was named.
pub proof fn lemma_adds_names_counts(before: Tree, after: Tree)
    requires
        adds_names(before, after),
    ensures
        named_count(before) <= named_count(after),
        named_count(before) == named_count(after) ==> before == after,
    decreases before, 1nat,
{
    match (before, after) {
        (
            Tree::VarDeclarator { name: n1, init: i1 },
            Tree::VarDeclarator { name: n2, init: i2 },
        ) => {
            lemma_adds_names_counts(*n1, *n2);
            match (i1, i2) {
                (Some(e1), Some(e2)) => lemma_adds_names_counts(*e1, *e2),
                _ => {},
            }
        },
        (
            Tree::Assign { op: o1, left: l1, right: r1 },
            Tree::Assign { op: o2, left: l2, right: r2 },
        ) => {
            lemma_adds_names_counts(*l1, *l2);
            lemma_adds_names_counts(*r1, *r2);
        },
        (Tree::Fn { ident: _, body: b1 }, Tree::Fn { ident: _, body: b2 }) => {
            lemma_adds_names_each_counts(b1, b2)
        },
        (Tree::Class { ident: _, body: b1 }, Tree::Class { ident: _, body: b2 }) => {
            lemma_adds_names_each_counts(b1, b2)
        },
        (Tree::Opaque { kind: _, operands: b1 }, Tree::Opaque { kind: _, operands: b2 }) => {
            lemma_adds_names_each_counts(b1, b2)
        },
        (Tree::Other { children: b1 }, Tree::Other { children: b2 }) => {
            lemma_adds_names_each_counts(b1, b2)
        },
        _ => {},
    }
}

proof fn lemma_adds_names_each_counts(before: Seq<Tree>, after: Seq<Tree>)
    requires
        adds_names_each(before, after),
    ensures
        named_count_each(before) <= named_count_each(after),
        named_count_each(before) == named_count_each(after) ==> before == after,
    decreases before, 0nat,
{
    if before.len() > 0 {
        let n = before.len() - 1;
        assert forall|i: int| 0 <= i < n implies adds_names(
            #[trigger] before.drop_last()[i],
            after.drop_last()[i],
        ) by {
            assert(adds_names(before[i], after[i]));
        }
        lemma_adds_names_each_counts(before.drop_last(), after.drop_last());
        assert(adds_names(before[n], after[n]));
        lemma_adds_names_counts(before.last(), after.last());
        if named_count_each(before) == named_count_each(after) {
            assert(before =~= before.drop_last().push(before.last()));
            assert(after =~= after.drop_last().push(after.last()));
        }
    } else {
        assert(before =~= after);
    }
}

/// The naming walk names at most one expression of `tree`, whatever it can
/// reach: it gives names and changes nothing else, the number of named
/// expressions grows by one at most, and a walk that changed anything had a
/// candidate and has none left. The candidate that is left is the one it came
/// with, or none; without a candidate nothing changes.
pub proof fn lemma_walk_names_at_most_one(tree: Tree, cand: Option<Name>)
    ensures
        adds_names(tree, rename(tree, cand).0),
        named_count(rename(tree, cand).0) <= named_count(tree) + 1,
        rename(tree, cand).0 != tree ==> cand is Some && rename(tree, cand).1 is None,
        rename(tree, cand).1 == cand || rename(tree, cand).1 is None,
        cand is None ==> rename(tree, cand) == (tree, cand),
    decreases tree, 1nat,
{
    match tree {
        Tree::Ident(_) => {},
        Tree::VarDeclarator { name, init } => {
            lemma_walk_names_at_most_one(*name, cand);
            match init {
                Some(e) => lemma_walk_names_at_most_one(*e, rename(*name, cand).1),
                None => {},
            }
        },
        Tree::Assign { op, left, right } => {
            lemma_walk_names_at_most_one(*left, cand);
            lemma_walk_names_at_most_one(*right, rename(*left, cand).1);
        },
        Tree::Fn { ident, body } => lemma_adds_names_each_refl(body),
        Tree::Class { ident, body } => lemma_adds_names_each_refl(body),
        Tree::Opaque { kind, operands } => lemma_adds_names_each_refl(operands),
        Tree::Other { children } => lemma_walk_each_names_at_most_one(children, cand),
    }
}

proof fn lemma_walk_each_names_at_most_one(trees: Seq<Tree>, cand: Option<Name>)
    ensures
        adds_names_each(trees, rename_each(trees, cand).0),
        named_count_each(rename_each(trees, cand).0) <= named_count_each(trees) + 1,
        rename_each(trees, cand).0 != trees ==> cand is Some && rename_each(trees, cand).1 is None,
        rename_each(trees, cand).1 == cand || rename_each(trees, cand).1 is None,
        cand is None ==> rename_each(trees, cand) == (trees, cand),
    decreases trees, 0nat,
{
    if trees.len() > 0 {
        let (front, c1) = rename_each(trees.drop_last(), cand);
        let (last, c2) = rename(trees.last(), c1);
        let out = front.push(last);
        lemma_walk_each_names_at_most_one(trees.drop_last(), cand);
        lemma_walk_names_at_most_one(trees.last(), c1);
        assert(out.drop_last() =~= front);
        assert(out.last() == last);
        assert forall|i: int| 0 <= i < trees.len() implies adds_names(#[trigger] trees[i], out[i]) by {
            if i < trees.len() - 1 {
                assert(adds_names(trees.drop_last()[i], front[i]));
            }
        }
        if front == trees.drop_last() && last == trees.last() {
            assert(out =~= trees);
        }
    }
}

/// The pass gives names and changes nothing else: the shape of the tree, its
/// identifiers and every inline name that was there stay as they were.
pub proof fn lemma_pass_keeps_names(tree: Tree)
    ensures
        adds_names(tree, infer_names(tree)),
    decreases tree, 1nat,
{
    match tree {
        Tree::Ident(_) => {},
        Tree::VarDeclarator { name, init } => {
            lemma_pass_keeps_names(*name);
            match init {
                Some(e) => {
                    let e2 = infer_names(*e);
                    let e3 = bound(true, infer_names(*name), e2);
                    lemma_pass_keeps_names(*e);
                    lemma_binding_names_at_most_one(true, infer_names(*name), e2);
                    lemma_adds_names_trans(*e, e2, e3);
                },
                None => {},
            }
        },
        Tree::Assign { op, left, right } => {
            let r2 = infer_names(*right);
            let r3 = bound(op == AssignOp::Assign, infer_names(*left), r2);
            lemma_pass_keeps_names(*left);
            lemma_pass_keeps_names(*right);
            lemma_binding_names_at_most_one(op == AssignOp::Assign, infer_names(*left), r2);
            lemma_adds_names_trans(*right, r2, r3);
        },
        Tree::Fn { ident, body } => lemma_pass_keeps_names_each(body),
        Tree::Class { ident, body } => lemma_pass_keeps_names_each(body),
        Tree::Opaque { kind, operands } => lemma_pass_keeps_names_each(operands),
        Tree::Other { children } => lemma_pass_keeps_names_each(children),
    }
}

proof fn lemma_pass_keeps_names_each(trees: Seq<Tree>)
    ensures
        adds_names_each(trees, infer_names_each(trees)),
    decreases trees, 0nat,
{
    let out = infer_names_each(trees);
    assert forall|i: int| 0 <= i < trees.len() implies adds_names(#[trigger] trees[i], out[i]) by {
        lemma_pass_keeps_names(trees[i]);
    }
}

/// For one declarator or assignment, the naming walk names at most one
/// expression in the whole of the bound expression `value`, and changes
/// nothing else in it.
pub proof fn lemma_binding_names_at_most_one(binds: bool, target: Tree, value: Tree)
    ensures
        adds_names(value, bound(binds, target, value)),
        named_count(bound(binds, target, value)) <= named_count(value) + 1,
{
    lemma_adds_names_refl(value);
    lemma_walk_names_at_most_one(value, candidate(target));
}

/// Whether the pass finds nothing to name in `tree`: for every declarator and
/// assignment in it, the naming walk hands the bound expression back as it is.
pub open spec fn settled(tree: Tree) -> bool
    decreases tree, 1nat,
{
    match tree {
        Tree::Ident(_) => true,
        Tree::VarDeclarator { name, init } => settled(*name) && match init {
            Some(e) => settled(*e) && bound(true, *name, *e) == *e,
            None => true,
        },
        Tree::Assign { op, left, right } => settled(*left) && settled(*right) && bound(
            op == AssignOp::Assign,
            *left,
            *right,
        ) == *right,
        Tree::Fn { ident, body } => settled_each(body),
        Tree::Class { ident, body } => settled_each(body),
        Tree::Opaque { kind, operands } => settled_each(operands),
        Tree::Other { children } => settled_each(children),
    }
}

/// Whether each of `trees` is [`settled`].
pub open spec fn settled_each(trees: Seq<Tree>) -> bool
    decreases trees, 0nat,
{
    forall|i: int| 0 <= i < trees.len() ==> settled(#[trigger] trees[i])
}

/// The pass leaves a tree as it is exactly when the tree is settled.
pub proof fn lemma_unchanged_iff_settled(tree: Tree)
    ensures
        infer_names(tree) == tree <==> settled(tree),
    decreases tree, 1nat,
{
    match tree {
        Tree::Ident(_) => {},
        Tree::VarDeclarator { name, init } => {
            lemma_unchanged_iff_settled(*name);
            match init {
                Some(e) => {
                    lemma_unchanged_iff_settled(*e);
                    lemma_binding_undone_only_if_unchanged(true, infer_names(*name), *e);
                },
                None => {},
            }
        },
        Tree::Assign { op, left, right } => {
            lemma_unchanged_iff_settled(*left);
            lemma_unchanged_iff_settled(*right);
            lemma_binding_undone_only_if_unchanged(op == AssignOp::Assign, infer_names(*left), *right);
        },
        Tree::Fn { ident, body } => lemma_unchanged_iff_settled_each(body),
        Tree::Class { ident, body } => lemma_unchanged_iff_settled_each(body),
        Tree::Opaque { kind, operands } => lemma_unchanged_iff_settled_each(operands),
        Tree::Other { children } => lemma_unchanged_iff_settled_each(children),
    }
}

proof fn lemma_unchanged_iff_settled_each(trees: Seq<Tree>)
    ensures
        infer_names_each(trees) == trees <==> settled_each(trees),
    decreases trees, 0nat,
{
    let out = infer_names_each(trees);
    assert forall|i: int| 0 <= i < trees.len() implies (out[i] == #[trigger] trees[i] <==> settled(
        trees[i],
    )) by {
        lemma_unchanged_iff_settled(trees[i]);
    }
    if settled_each(trees) {
        assert(out =~= trees);
    }
}

/// Where the pass and then the naming walk for a binding give `value` back,
/// the pass alone left `value` as it was.
proof fn lemma_binding_undone_only_if_unchanged(binds: bool, target: Tree, value: Tree)
    ensures
        bound(binds, target, infer_names(value)) == value ==> infer_names(value) == value,
{
    let v2 = infer_names(value);
    lemma_pass_keeps_names(value);
    lemma_binding_names_at_most_one(binds, target, v2);
    lemma_adds_names_counts(value, v2);
    lemma_adds_names_counts(v2, bound(binds, target, v2));
}

/// Applying the pass a second time changes nothing, on every tree that the
/// first application leaves settled; on any other tree the second application
/// does change something.
pub proof fn lemma_pass_idempotent_iff_settled(tree: Tree)
    ensures
        infer_names(infer_names(tree)) == infer_names(tree) <==> settled(infer_names(tree)),
{
    lemma_unchanged_iff_settled(infer_names(tree));
}

/// The number of anonymous function and class expressions of `tree` that the
/// naming walk can reach: those that lie below neither a function or class
/// expression nor an opaque expression.
pub open spec fn targets(tree: Tree) -> nat
    decreases tree, 1nat,
{
    match tree {
        Tree::Ident(_) => 0,
        Tree::VarDeclarator { name, init } => targets(*name) + match init {
            Some(e) => targets(*e),
            None => 0,
        },
        Tree::Assign { op, left, right } => targets(*left) + targets(*right),
        Tree::Fn { ident, body } => if ident is None {
            1
        } else {
            0
        },
        Tree::Class { ident, body } => if ident is None {
            1
        } else {
            0
        },
        Tree::Opaque { kind, operands } => 0,
        Tree::Other { children } => targets_each(children),
    }
}

/// The sum of [`targets`] over `trees`.
pub open spec fn targets_each(trees: Seq<Tree>) -> nat
    decreases trees, 0nat,
{
    if trees.len() == 0 {
        0
    } else {
        targets_each(trees.drop_last()) + targets(trees.last())
    }
}

/// Whether every declarator and assignment in `tree` that proposes a name
/// binds an expression in which the naming walk can reach at most one
/// anonymous function or class expression.
pub open spec fn unambiguous(tree: Tree) -> bool
    decreases tree, 1nat,
{
    match tree {
        Tree::Ident(_) => true,
        Tree::VarDeclarator { name, init } => unambiguous(*name) && match init {
            Some(e) => unambiguous(*e) && (candidate(*name) is Some ==> targets(*e) <= 1),
            None => true,
        },
        Tree::Assign { op, left, right } => unambiguous(*left) && unambiguous(*right) && (op
            == AssignOp::Assign && candidate(*left) is Some ==> targets(*right) <= 1),
        Tree::Fn { ident, body } => unambiguous_each(body),
        Tree::Class { ident, body } => unambiguous_each(body),
        Tree::Opaque { kind, operands } => unambiguous_each(operands),
        Tree::Other { children } => unambiguous_each(children),
    }
}

/// Whether each of `trees` is [`unambiguous`].
pub open spec fn unambiguous_each(trees: Seq<Tree>) -> bool
    decreases trees, 0nat,
{
    forall|i: int| 0 <= i < trees.len() ==> unambiguous(#[trigger] trees[i])
}

/// Where the naming walk can reach no anonymous expression, it changes
/// nothing and keeps its candidate.
pub proof fn lemma_walk_without_target(tree: Tree, cand: Option<Name>)
    requires
        targets(tree) == 0,
    ensures
        rename(tree, cand) == (tree, cand),
    decreases tree, 1nat,
{
    match tree {
        Tree::VarDeclarator { name, init } => {
            lemma_walk_without_target(*name, cand);
            match init {
                Some(e) => lemma_walk_without_target(*e, cand),
                None => {},
            }
        },
        Tree::Assign { op, left, right } => {
            lemma_walk_without_target(*left, cand);
            lemma_walk_without_target(*right, cand);
        },
        Tree::Other { children } => lemma_walk_each_without_target(children, cand),
        _ => {},
    }
}

proof fn lemma_walk_each_without_target(trees: Seq<Tree>, cand: Option<Name>)
    requires
        targets_each(trees) == 0,
    ensures
        rename_each(trees, cand) == (trees, cand),
    decreases trees, 0nat,
{
    if trees.len() > 0 {
        lemma_walk_each_without_target(trees.drop_last(), cand);
        lemma_walk_without_target(trees.last(), cand);
        assert(trees.drop_last().push(trees.last()) =~= trees);
    }
}

/// The naming walk never adds to what it can reach, and where it changes a
/// tree it takes exactly one expression out of reach: the one that it named.
/// Its candidate is left exactly where no anonymous expression was in reach.
pub proof fn lemma_walk_takes_target(tree: Tree, cand: Option<Name>)
    ensures
        targets(rename(tree, cand).0) <= targets(tree),
        rename(tree, cand).0 != tree ==> targets(rename(tree, cand).0) + 1 == targets(tree),
        rename(tree, cand).1 == if targets(tree) == 0 {
            cand
        } else {
            None
        },
    decreases tree, 1nat,
{
    match tree {
        Tree::VarDeclarator { name, init } => {
            lemma_walk_takes_target(*name, cand);
            lemma_walk_names_at_most_one(*name, cand);
            match init {
                Some(e) => {
                    lemma_walk_takes_target(*e, rename(*name, cand).1);
                    lemma_walk_names_at_most_one(*e, rename(*name, cand).1);
                },
                None => {},
            }
        },
        Tree::Assign { op, left, right } => {
            lemma_walk_takes_target(*left, cand);
            lemma_walk_names_at_most_one(*left, cand);
            lemma_walk_takes_target(*right, rename(*left, cand).1);
            lemma_walk_names_at_most_one(*right, rename(*left, cand).1);
        },
        Tree::Other { children } => lemma_walk_each_takes_target(children, cand),
        _ => {},
    }
}

proof fn lemma_walk_each_takes_target(trees: Seq<Tree>, cand: Option<Name>)
    ensures
        targets_each(rename_each(trees, cand).0) <= targets_each(trees),
        rename_each(trees, cand).0 != trees ==> targets_each(rename_each(trees, cand).0) + 1
            == targets_each(trees),
        rename_each(trees, cand).1 == if targets_each(trees) == 0 {
            cand
        } else {
            None
        },
    decreases trees, 0nat,
{
    if trees.len() > 0 {
        let (front, c1) = rename_each(trees.drop_last(), cand);
        let (last, c2) = rename(trees.last(), c1);
        let out = front.push(last);
        lemma_walk_each_takes_target(trees.drop_last(), cand);
        lemma_walk_each_names_at_most_one(trees.drop_last(), cand);
        lemma_walk_takes_target(trees.last(), c1);
        lemma_walk_names_at_most_one(trees.last(), c1);
        assert(out.drop_last() =~= front);
        assert(out.last() == last);
        if front == trees.drop_last() && last == trees.last() {
            assert(out =~= trees);
        }
    }
}

proof fn lemma_walk_keeps_unambiguous(tree: Tree, cand: Option<Name>)
    requires
        unambiguous(tree),
    ensures
        unambiguous(rename(tree, cand).0),
    decreases tree, 1nat,
{
    match tree {
        Tree::VarDeclarator { name, init } => {
            lemma_walk_keeps_unambiguous(*name, cand);
            match init {
                Some(e) => {
                    lemma_walk_keeps_unambiguous(*e, rename(*name, cand).1);
                    lemma_walk_takes_target(*e, rename(*name, cand).1);
                },
                None => {},
            }
        },
        Tree::Assign { op, left, right } => {
            lemma_walk_keeps_unambiguous(*left, cand);
            lemma_walk_keeps_unambiguous(*right, rename(*left, cand).1);
            lemma_walk_takes_target(*right, rename(*left, cand).1);
        },
        Tree::Other { children } => lemma_walk_each_keeps_unambiguous(children, cand),
        _ => {},
    }
}

proof fn lemma_walk_each_keeps_unambiguous(trees: Seq<Tree>, cand: Option<Name>)
    requires
        unambiguous_each(trees),
    ensures
        unambiguous_each(rename_each(trees, cand).0),
    decreases trees, 0nat,
{
    if trees.len() > 0 {
        let (front, c1) = rename_each(trees.drop_last(), cand);
        let (last, c2) = rename(trees.last(), c1);
        let out = front.push(last);
        assert forall|i: int| 0 <= i < trees.len() - 1 implies unambiguous(
            #[trigger] trees.drop_last()[i],
        ) by {
            assert(unambiguous(trees[i]));
        }
        lemma_walk_each_keeps_unambiguous(trees.drop_last(), cand);
        lemma_walk_each_names_at_most_one(trees.drop_last(), cand);
        lemma_walk_keeps_unambiguous(trees.last(), c1);
        assert forall|i: int| 0 <= i < out.len() implies unambiguous(#[trigger] out[i]) by {
            if i < front.len() {
                assert(unambiguous(front[i]));
            }
        }
    }
}

proof fn lemma_pass_lowers_targets(tree: Tree)
    ensures
        targets(infer_names(tree)) <= targets(tree),
    decreases tree, 1nat,
{
    match tree {
        Tree::VarDeclarator { name, init } => {
            lemma_pass_lowers_targets(*name);
            match init {
                Some(e) => {
                    lemma_pass_lowers_targets(*e);
                    lemma_walk_takes_target(infer_names(*e), candidate(infer_names(*name)));
                },
                None => {},
            }
        },
        Tree::Assign { op, left, right } => {
            lemma_pass_lowers_targets(*left);
            lemma_pass_lowers_targets(*right);
            lemma_walk_takes_target(infer_names(*right), candidate(infer_names(*left)));
        },
        Tree::Other { children } => lemma_pass_each_lowers_targets(children),
        _ => {},
    }
}

proof fn lemma_pass_each_lowers_targets(trees: Seq<Tree>)
    ensures
        targets_each(infer_names_each(trees)) <= targets_each(trees),
    decreases trees, 0nat,
{
    if trees.len() > 0 {
        let out = infer_names_each(trees);
        lemma_pass_each_lowers_targets(trees.drop_last());
        lemma_pass_lowers_targets(trees.last());
        assert(out.drop_last() =~= infer_names_each(trees.drop_last()));
        assert(out.last() == infer_names(trees.last()));
    }
}

proof fn lemma_pass_keeps_unambiguous(tree: Tree)
    requires
        unambiguous(tree),
    ensures
        unambiguous(infer_names(tree)),
    decreases tree, 1nat,
{
    match tree {
        Tree::Ident(_) => {},
        Tree::VarDeclarator { name, init } => {
            lemma_pass_keeps_unambiguous(*name);
            match init {
                Some(e) => {
                    let c = candidate(infer_names(*name));
                    lemma_pass_keeps_unambiguous(*e);
                    lemma_pass_lowers_targets(*e);
                    lemma_walk_keeps_unambiguous(infer_names(*e), c);
                    lemma_walk_takes_target(infer_names(*e), c);
                },
                None => {},
            }
        },
        Tree::Assign { op, left, right } => {
            let c = candidate(infer_names(*left));
            lemma_pass_keeps_unambiguous(*left);
            lemma_pass_keeps_unambiguous(*right);
            lemma_pass_lowers_targets(*right);
            lemma_walk_keeps_unambiguous(infer_names(*right), c);
            lemma_walk_takes_target(infer_names(*right), c);
        },
        Tree::Fn { ident, body } => lemma_pass_each_keeps_unambiguous(body),
        Tree::Class { ident, body } => lemma_pass_each_keeps_unambiguous(body),
        Tree::Opaque { kind, operands } => lemma_pass_each_keeps_unambiguous(operands),
        Tree::Other { children } => lemma_pass_each_keeps_unambiguous(children),
    }
}

proof fn lemma_pass_each_keeps_unambiguous(trees: Seq<Tree>)
    requires
        unambiguous_each(trees),
    ensures
        unambiguous_each(infer_names_each(trees)),
    decreases trees, 0nat,
{
    let out = infer_names_each(trees);
    assert forall|i: int| 0 <= i < out.len() implies unambiguous(#[trigger] out[i]) by {
        assert(unambiguous(trees[i]));
        lemma_pass_keeps_unambiguous(trees[i]);
    }
}

proof fn lemma_walk_keeps_settled(tree: Tree, cand: Option<Name>)
    requires
        settled(tree),
        unambiguous(tree),
    ensures
        settled(rename(tree, cand).0),
    decreases tree, 1nat,
{
    match tree {
        Tree::VarDeclarator { name, init } => {
            lemma_walk_keeps_settled(*name, cand);
            match init {
                Some(e) => {
                    let c1 = rename(*name, cand).1;
                    let e2 = rename(*e, c1).0;
                    lemma_walk_keeps_settled(*e, c1);
                    lemma_walk_takes_target(*e, c1);
                    if e2 != *e && candidate(*name) is Some {
                        lemma_walk_without_target(e2, candidate(*name));
                    }
                },
                None => {},
            }
        },
        Tree::Assign { op, left, right } => {
            let c1 = rename(*left, cand).1;
            let r2 = rename(*right, c1).0;
            lemma_walk_keeps_settled(*left, cand);
            lemma_walk_keeps_settled(*right, c1);
            lemma_walk_takes_target(*right, c1);
            if r2 != *right && op == AssignOp::Assign && candidate(*left) is Some {
                lemma_walk_without_target(r2, candidate(*left));
            }
        },
        Tree::Other { children } => lemma_walk_each_keeps_settled(children, cand),
        _ => {},
    }
}

proof fn lemma_walk_each_keeps_settled(trees: Seq<Tree>, cand: Option<Name>)
    requires
        settled_each(trees),
        unambiguous_each(trees),
    ensures
        settled_each(rename_each(trees, cand).0),
    decreases trees, 0nat,
{
    if trees.len() > 0 {
        let (front, c1) = rename_each(trees.drop_last(), cand);
        let (last, c2) = rename(trees.last(), c1);
        let out = front.push(last);
        assert forall|i: int| 0 <= i < trees.len() - 1 implies settled(
            #[trigger] trees.drop_last()[i],
        ) && unambiguous(trees.drop_last()[i]) by {
            assert(settled(trees[i]));
            assert(unambiguous(trees[i]));
        }
        lemma_walk_each_keeps_settled(trees.drop_last(), cand);
        lemma_walk_each_names_at_most_one(trees.drop_last(), cand);
        lemma_walk_keeps_settled(trees.last(), c1);
        assert forall|i: int| 0 <= i < out.len() implies settled(#[trigger] out[i]) by {
            if i < front.len() {
                assert(settled(front[i]));
            }
        }
    }
}

/// The pass leaves every unambiguous tree settled.
pub proof fn lemma_unambiguous_settles(tree: Tree)
    requires
        unambiguous(tree),
    ensures
        settled(infer_names(tree)),
    decreases tree, 1nat,
{
    match tree {
        Tree::Ident(_) => {},
        Tree::VarDeclarator { name, init } => {
            lemma_unambiguous_settles(*name);
            match init {
                Some(e) => {
                    lemma_unambiguous_settles(*e);
                    lemma_binding_settles(true, infer_names(*name), *e);
                },
                None => {},
            }
        },
        Tree::Assign { op, left, right } => {
            lemma_unambiguous_settles(*left);
            lemma_unambiguous_settles(*right);
            if op == AssignOp::Assign && candidate(*left) is Some {
                lemma_binding_settles(true, infer_names(*left), *right);
            }
        },
        Tree::Fn { ident, body } => lemma_unambiguous_settles_each(body),
        Tree::Class { ident, body } => lemma_unambiguous_settles_each(body),
        Tree::Opaque { kind, operands } => lemma_unambiguous_settles_each(operands),
        Tree::Other { children } => lemma_unambiguous_settles_each(children),
    }
}

proof fn lemma_unambiguous_settles_each(trees: Seq<Tree>)
    requires
        unambiguous_each(trees),
    ensures
        settled_each(infer_names_each(trees)),
    decreases trees, 0nat,
{
    let out = infer_names_each(trees);
    assert forall|i: int| 0 <= i < out.len() implies settled(#[trigger] out[i]) by {
        assert(unambiguous(trees[i]));
        lemma_unambiguous_settles(trees[i]);
    }
}

/// The naming walk for a binding, on a bound expression that the pass left
/// settled and in which at most one anonymous expression was in reach, gives
/// a settled expression that a second walk for the same binding leaves as it
/// is.
proof fn lemma_binding_settles(binds: bool, target: Tree, value: Tree)
    requires
        unambiguous(value),
        binds && candidate(target) is Some ==> targets(value) <= 1,
        settled(infer_names(value)),
    ensures
        settled(bound(binds, target, infer_names(value))),
        bound(binds, target, bound(binds, target, infer_names(value))) == bound(
            binds,
            target,
            infer_names(value),
        ),
{
    let v2 = infer_names(value);
    let v3 = bound(binds, target, v2);
    if binds && candidate(target) is Some {
        lemma_pass_keeps_unambiguous(value);
        lemma_pass_lowers_targets(value);
        lemma_walk_keeps_settled(v2, candidate(target));
        lemma_walk_takes_target(v2, candidate(target));
        if v3 != v2 {
            lemma_walk_without_target(v3, candidate(target));
        }
    }
}

/// Applying the pass twice gives what applying it once gives, on every tree
/// in which each binding has at most one anonymous expression in reach.
pub proof fn lemma_pass_idempotent(tree: Tree)
    requires
        unambiguous(tree),
    ensures
        infer_names(infer_names(tree)) == infer_names(tree),
{
    lemma_unambiguous_settles(tree);
    lemma_unchanged_iff_settled(infer_names(tree));
}

} // verus!
