//! Resolution of chains of infix operators.
//!
//! How a chain groups depends on its operators alone, so the grouping is a
//! tree over the positions of the operands.

use vstd::prelude::*;
use vstd::string::StringExecFns;
use crate::ast;
use crate::ast::{is_comparison_operator, SyntaxExpr, SyntaxOperator};
use crate::term;
use crate::term::{formed, Tag, Term};
use crate::values::Builtin;

verus! {

#[derive(Debug, Clone, Copy, PartialEq, Eq, Structural)]
pub enum Associativity {
    Left,
    Right,
    Neither,
}

#[derive(Debug, Clone, Copy, PartialEq, Eq, Structural)]
pub enum OperatorRelation {
    Stronger,
    Weaker,
    Same(Associativity),
    Unrelated,
}

/// How the operands of a chain are grouped.
pub enum Tree {
    Leaf(nat),
    Binary(SyntaxOperator, Box<Tree>, Box<Tree>),
    Chain(Box<Tree>, Seq<(SyntaxOperator, Tree)>),
}

/// A group that may still gain comparisons.
pub enum Piece {
    Whole(Tree),
    Open(Tree, Seq<(SyntaxOperator, Tree)>),
}

/// The groups and operators that are not yet combined.
pub struct Stack {
    pub pieces: Seq<Piece>,
    pub ops: Seq<SyntaxOperator>,
}

/// The operands of a group, in order.
pub open spec fn leaves(tree: Tree) -> Seq<nat>
    decreases tree,
{
    match tree {
        Tree::Leaf(i) => seq![i],
        Tree::Binary(_, left, right) => leaves(*left) + leaves(*right),
        Tree::Chain(first, rest) => leaves(*first) + link_leaves(rest),
    }
}

pub open spec fn link_leaves(links: Seq<(SyntaxOperator, Tree)>) -> Seq<nat>
    decreases links,
{
    if links.len() == 0 {
        Seq::empty()
    } else {
        link_leaves(links.drop_last()) + leaves(links.last().1)
    }
}

/// The term of a binary operation.
pub open spec fn binary_term(operator: SyntaxOperator, left: Term, right: Term) -> Term {
    match operator {
        SyntaxOperator::Builtin(Builtin::Append) => term::node(Tag::Append, seq![left, right]),
        SyntaxOperator::Builtin(Builtin::Add) => term::node(Tag::Add, seq![left, right]),
        SyntaxOperator::Builtin(Builtin::Subtract) => term::node(Tag::Subtract, seq![left, right]),
        SyntaxOperator::Builtin(Builtin::Multiply) => term::node(Tag::Multiply, seq![left, right]),
        SyntaxOperator::Builtin(Builtin::Divide) => term::node(Tag::Divide, seq![left, right]),
        _ => term::node(Tag::OperatorApply, seq![Term::Operator(operator), left, right]),
    }
}

/// The term of a group of operands.
pub open spec fn tree_term(tree: Tree, operands: Seq<Term>) -> Term
    decreases tree,
{
    match tree {
        Tree::Leaf(i) => operands[i as int],
        Tree::Binary(operator, left, right) => binary_term(
            operator,
            tree_term(*left, operands),
            tree_term(*right, operands),
        ),
        Tree::Chain(first, rest) => term::node(
            Tag::ComparisonChain,
            seq![tree_term(*first, operands), term::many(link_terms(rest, operands))],
        ),
    }
}

pub open spec fn link_terms(links: Seq<(SyntaxOperator, Tree)>, operands: Seq<Term>) -> Seq<Term>
    decreases links,
{
    if links.len() == 0 {
        Seq::empty()
    } else {
        link_terms(links.drop_last(), operands).push(
            term::node(
                Tag::Link,
                seq![Term::Operator(links.last().0), tree_term(links.last().1, operands)],
            ),
        )
    }
}

/// The strength of an operator.
pub open spec fn precedence(operator: SyntaxOperator) -> nat {
    match operator {
        SyntaxOperator::BoolOr => 0,
        SyntaxOperator::BoolAnd => 1,
        SyntaxOperator::EffectBind => 2,
        SyntaxOperator::EffectThen => 2,
        SyntaxOperator::PipeForward => 3,
        SyntaxOperator::PipeBackward => 3,
        SyntaxOperator::ApplicativeForward => 3,
        SyntaxOperator::ApplicativeBackward => 3,
        SyntaxOperator::ComposeForward => 4,
        SyntaxOperator::ComposeBackward => 4,
        SyntaxOperator::KleisliCompose => 4,
        SyntaxOperator::Builtin(builtin) => if ast::comparison(operator) {
            5
        } else if builtin == Builtin::Append {
            6
        } else if builtin == Builtin::Add || builtin == Builtin::Subtract {
            7
        } else if builtin == Builtin::Multiply || builtin == Builtin::Divide {
            8
        } else {
            9
        },
    }
}

pub open spec fn arithmetic(operator: SyntaxOperator) -> bool {
    ||| operator == SyntaxOperator::Builtin(Builtin::Add)
    ||| operator == SyntaxOperator::Builtin(Builtin::Subtract)
    ||| operator == SyntaxOperator::Builtin(Builtin::Multiply)
    ||| operator == SyntaxOperator::Builtin(Builtin::Divide)
}

pub open spec fn binds(operator: SyntaxOperator) -> bool {
    operator == SyntaxOperator::EffectBind || operator == SyntaxOperator::EffectThen
}

/// How an operator associates with itself, where it does.
pub open spec fn own_associativity(operator: SyntaxOperator) -> Option<Associativity> {
    match operator {
        SyntaxOperator::BoolOr => Some(Associativity::Left),
        SyntaxOperator::BoolAnd => Some(Associativity::Left),
        SyntaxOperator::EffectBind => Some(Associativity::Left),
        SyntaxOperator::EffectThen => Some(Associativity::Left),
        SyntaxOperator::KleisliCompose => Some(Associativity::Right),
        SyntaxOperator::PipeForward => Some(Associativity::Left),
        SyntaxOperator::PipeBackward => Some(Associativity::Right),
        SyntaxOperator::ApplicativeForward => Some(Associativity::Right),
        SyntaxOperator::ApplicativeBackward => Some(Associativity::Left),
        SyntaxOperator::ComposeForward => Some(Associativity::Left),
        SyntaxOperator::ComposeBackward => Some(Associativity::Right),
        SyntaxOperator::Builtin(builtin) => if builtin == Builtin::Append || builtin == Builtin::Add
            || builtin == Builtin::Multiply {
            Some(Associativity::Left)
        } else if builtin == Builtin::Subtract || builtin == Builtin::Divide {
            Some(Associativity::Neither)
        } else {
            None
        },
    }
}

/// How an operator relates to the one that follows it. Comparisons form
/// chains; arithmetic operators, `and` and `or`, and operators of opposite
/// directions do not mix.
pub open spec fn relation(left: SyntaxOperator, right: SyntaxOperator) -> OperatorRelation {
    if left == right && own_associativity(left) is Some {
        OperatorRelation::Same(own_associativity(left)->0)
    } else if binds(left) && binds(right) {
        OperatorRelation::Same(Associativity::Left)
    } else if ast::comparison(left) && ast::comparison(right) {
        OperatorRelation::Same(Associativity::Neither)
    } else if arithmetic(left) && arithmetic(right) {
        OperatorRelation::Unrelated
    } else if left == SyntaxOperator::BoolOr && right == SyntaxOperator::BoolAnd {
        OperatorRelation::Unrelated
    } else if left == SyntaxOperator::BoolAnd && right == SyntaxOperator::BoolOr {
        OperatorRelation::Unrelated
    } else if precedence(left) > precedence(right) {
        OperatorRelation::Stronger
    } else if precedence(left) < precedence(right) {
        OperatorRelation::Weaker
    } else {
        OperatorRelation::Unrelated
    }
}

/// A group that gains no further comparison.
pub open spec fn settled(piece: Piece) -> Tree {
    match piece {
        Piece::Whole(tree) => tree,
        Piece::Open(first, rest) => if rest.len() == 1 {
            Tree::Binary(rest[0].0, Box::new(first), Box::new(rest[0].1))
        } else {
            Tree::Chain(Box::new(first), rest)
        },
    }
}

/// The stack after its last operator is applied.
pub open spec fn reduced(st: Stack) -> Stack {
    let n = st.pieces.len();
    let right = settled(st.pieces[n - 1]);
    let left = st.pieces[n - 2];
    let op = st.ops.last();
    let joined = if ast::comparison(op) {
        match left {
            Piece::Whole(tree) => Piece::Open(tree, seq![(op, right)]),
            Piece::Open(first, rest) => Piece::Open(first, rest.push((op, right))),
        }
    } else {
        Piece::Whole(Tree::Binary(op, Box::new(settled(left)), Box::new(right)))
    };
    Stack { pieces: st.pieces.take(n - 2).push(joined), ops: st.ops.drop_last() }
}

pub open spec fn neither_message(op: SyntaxOperator) -> Seq<char> {
    "operator `"@ + spelling(op) + "` is non-associative; parenthesize this chain"@
}

pub open spec fn unrelated_message(left: SyntaxOperator, right: SyntaxOperator) -> Seq<char> {
    "operators `"@ + spelling(left) + "` and `"@ + spelling(right)
        + "` have no precedence relationship; parenthesize to disambiguate"@
}

/// The stack after one more operator and operand.
pub open spec fn shifted(st: Stack, op: SyntaxOperator, leaf: nat) -> Result<Stack, Seq<char>>
    decreases st.ops.len(),
{
    let pushed = Stack {
        pieces: st.pieces.push(Piece::Whole(Tree::Leaf(leaf))),
        ops: st.ops.push(op),
    };
    if st.ops.len() == 0 {
        Ok(pushed)
    } else {
        match relation(st.ops.last(), op) {
            OperatorRelation::Stronger => shifted(reduced(st), op, leaf),
            OperatorRelation::Same(Associativity::Left) => shifted(reduced(st), op, leaf),
            OperatorRelation::Weaker => Ok(pushed),
            OperatorRelation::Same(Associativity::Right) => Ok(pushed),
            OperatorRelation::Same(Associativity::Neither) => if ast::comparison(st.ops.last())
                && ast::comparison(op) {
                shifted(reduced(st), op, leaf)
            } else {
                Err(neither_message(op))
            },
            OperatorRelation::Unrelated => Err(unrelated_message(st.ops.last(), op)),
        }
    }
}

/// The stack after the first operators of a chain.
pub open spec fn stacked(ops: Seq<SyntaxOperator>) -> Result<Stack, Seq<char>>
    decreases ops.len(),
{
    if ops.len() == 0 {
        Ok(Stack { pieces: seq![Piece::Whole(Tree::Leaf(0))], ops: Seq::empty() })
    } else {
        match stacked(ops.drop_last()) {
            Ok(st) => shifted(st, ops.last(), ops.len()),
            Err(message) => Err(message),
        }
    }
}

/// The group that remains when every operator is applied.
pub open spec fn finished(st: Stack) -> Tree
    decreases st.ops.len(),
{
    if st.ops.len() == 0 {
        settled(st.pieces[0])
    } else {
        finished(reduced(st))
    }
}

/// How a chain with the given operators groups its operands.
pub open spec fn resolved(ops: Seq<SyntaxOperator>) -> Result<Tree, Seq<char>> {
    match stacked(ops) {
        Ok(st) => Ok(finished(st)),
        Err(message) => Err(message),
    }
}

/// The operands of a list of groups, in order.
pub open spec fn piece_leaves(pieces: Seq<Piece>) -> Seq<nat>
    decreases pieces.len(),
{
    if pieces.len() == 0 {
        Seq::empty()
    } else {
        piece_leaves(pieces.drop_last()) + leaves(settled(pieces.last()))
    }
}

/// The first `n` positions.
pub open spec fn positions(n: nat) -> Seq<nat> {
    Seq::new(n, |i: int| i as nat)
}

proof fn settled_leaves(piece: Piece)
    ensures
        leaves(settled(piece)) == match piece {
            Piece::Whole(tree) => leaves(tree),
            Piece::Open(first, rest) => leaves(first) + link_leaves(rest),
        },
{
    if let Piece::Open(first, rest) = piece {
        if rest.len() == 1 {
            assert(rest.drop_last() =~= Seq::empty());
            assert(link_leaves(rest.drop_last()) =~= Seq::<nat>::empty());
            assert(link_leaves(rest) =~= leaves(rest[0].1));
            assert(leaves(Tree::Binary(rest[0].0, Box::new(first), Box::new(rest[0].1))) == leaves(
                first,
            ) + leaves(rest[0].1));
        }
    }
}

proof fn reduced_leaves(st: Stack)
    requires
        st.pieces.len() == st.ops.len() + 1,
        st.ops.len() > 0,
    ensures
        piece_leaves(reduced(st).pieces) == piece_leaves(st.pieces),
        reduced(st).pieces.len() == reduced(st).ops.len() + 1,
{
    let n = st.pieces.len();
    let right = settled(st.pieces[n - 1]);
    let left = st.pieces[n - 2];
    let op = st.ops.last();
    let after = reduced(st);
    assert(st.pieces.drop_last().drop_last() =~= st.pieces.take(n - 2));
    assert(st.pieces.drop_last().last() == left);
    assert(after.pieces.drop_last() =~= st.pieces.take(n - 2));
    assert(piece_leaves(st.pieces.drop_last()) == piece_leaves(st.pieces.take(n - 2)) + leaves(
        settled(left),
    ));
    settled_leaves(left);
    settled_leaves(after.pieces.last());
    if ast::comparison(op) {
        match left {
            Piece::Whole(tree) => {
                let links = seq![(op, right)];
                assert(links.drop_last() =~= Seq::empty());
                assert(link_leaves(links.drop_last()) =~= Seq::<nat>::empty());
                assert(link_leaves(links) =~= leaves(right));
            },
            Piece::Open(first, rest) => {
                let links = rest.push((op, right));
                assert(links.drop_last() =~= rest);
                assert(link_leaves(links) == link_leaves(rest) + leaves(right));
            },
        }
    } else {
        assert(leaves(Tree::Binary(op, Box::new(settled(left)), Box::new(right))) == leaves(
            settled(left),
        ) + leaves(right));
    }
    assert(leaves(settled(after.pieces.last())) =~= leaves(settled(left)) + leaves(right));
    assert(piece_leaves(after.pieces) =~= piece_leaves(st.pieces));
}

proof fn shifted_leaves(st: Stack, op: SyntaxOperator, leaf: nat)
    requires
        st.pieces.len() == st.ops.len() + 1,
    ensures
        shifted(st, op, leaf) matches Ok(after) ==> {
            &&& piece_leaves(after.pieces) == piece_leaves(st.pieces).push(leaf)
            &&& after.pieces.len() == after.ops.len() + 1
        },
    decreases st.ops.len(),
{
    let pushed = st.pieces.push(Piece::Whole(Tree::Leaf(leaf)));
    assert(pushed.drop_last() =~= st.pieces);
    assert(piece_leaves(pushed) =~= piece_leaves(st.pieces).push(leaf));
    if st.ops.len() > 0 {
        reduced_leaves(st);
        shifted_leaves(reduced(st), op, leaf);
    }
}

proof fn stacked_leaves(ops: Seq<SyntaxOperator>)
    ensures
        stacked(ops) matches Ok(st) ==> {
            &&& piece_leaves(st.pieces) == positions(ops.len() + 1)
            &&& st.pieces.len() == st.ops.len() + 1
        },
    decreases ops.len(),
{
    if ops.len() == 0 {
        let pieces = seq![Piece::Whole(Tree::Leaf(0))];
        assert(pieces.drop_last() =~= Seq::empty());
        assert(piece_leaves(pieces.drop_last()) =~= Seq::<nat>::empty());
        assert(piece_leaves(pieces) =~= positions(1));
    } else {
        stacked_leaves(ops.drop_last());
        if let Ok(st) = stacked(ops.drop_last()) {
            shifted_leaves(st, ops.last(), ops.len());
            assert(positions(ops.len()).push(ops.len()) =~= positions(ops.len() + 1));
        }
    }
}

proof fn finished_leaves(st: Stack)
    requires
        st.pieces.len() == st.ops.len() + 1,
    ensures
        leaves(finished(st)) == piece_leaves(st.pieces),
    decreases st.ops.len(),
{
    if st.ops.len() == 0 {
        assert(st.pieces.drop_last() =~= Seq::empty());
        assert(piece_leaves(st.pieces.drop_last()) =~= Seq::<nat>::empty());
        assert(piece_leaves(st.pieces) =~= leaves(settled(st.pieces[0])));
    } else {
        reduced_leaves(st);
        finished_leaves(reduced(st));
    }
}

/// Grouping keeps every operand once, in source order.
pub proof fn grouping_keeps_operands(ops: Seq<SyntaxOperator>)
    ensures
        resolved(ops) matches Ok(tree) ==> leaves(tree) == positions(ops.len() + 1),
{
    stacked_leaves(ops);
    if let Ok(st) = stacked(ops) {
        finished_leaves(st);
    }
}

/// The operators of a group, in order.
pub open spec fn operators(tree: Tree) -> Seq<SyntaxOperator>
    decreases tree,
{
    match tree {
        Tree::Leaf(_) => Seq::empty(),
        Tree::Binary(op, left, right) => operators(*left) + seq![op] + operators(*right),
        Tree::Chain(first, rest) => operators(*first) + link_operators(rest),
    }
}

pub open spec fn link_operators(links: Seq<(SyntaxOperator, Tree)>) -> Seq<SyntaxOperator>
    decreases links,
{
    if links.len() == 0 {
        Seq::empty()
    } else {
        link_operators(links.drop_last()) + seq![links.last().0] + operators(links.last().1)
    }
}

/// The operators of groups and those between them, in order.
pub open spec fn piece_operators(
    pieces: Seq<Piece>,
    ops: Seq<SyntaxOperator>,
) -> Seq<SyntaxOperator>
    decreases pieces.len(),
{
    if pieces.len() == 0 {
        Seq::empty()
    } else if pieces.len() == 1 {
        operators(settled(pieces[0]))
    } else {
        piece_operators(pieces.drop_last(), ops.drop_last()) + seq![ops.last()] + operators(
            settled(pieces.last()),
        )
    }
}

proof fn settled_operators(piece: Piece)
    ensures
        operators(settled(piece)) == match piece {
            Piece::Whole(tree) => operators(tree),
            Piece::Open(first, rest) => operators(first) + link_operators(rest),
        },
{
    if let Piece::Open(first, rest) = piece {
        if rest.len() == 1 {
            assert(rest.drop_last() =~= Seq::empty());
            assert(link_operators(rest.drop_last()) =~= Seq::<SyntaxOperator>::empty());
            assert(link_operators(rest) =~= seq![rest[0].0] + operators(rest[0].1));
            assert(operators(Tree::Binary(rest[0].0, Box::new(first), Box::new(rest[0].1)))
                == operators(first) + seq![rest[0].0] + operators(rest[0].1));
            assert(operators(settled(piece)) =~= operators(first) + link_operators(rest));
        }
    }
}

proof fn reduced_operators(st: Stack)
    requires
        st.pieces.len() == st.ops.len() + 1,
        st.ops.len() > 0,
    ensures
        piece_operators(reduced(st).pieces, reduced(st).ops) == piece_operators(st.pieces, st.ops),
        reduced(st).pieces.len() == reduced(st).ops.len() + 1,
{
    let n = st.pieces.len();
    let right = settled(st.pieces[n - 1]);
    let left = st.pieces[n - 2];
    let op = st.ops.last();
    let after = reduced(st);
    assert(st.pieces.drop_last().drop_last() =~= st.pieces.take(n - 2));
    assert(st.pieces.drop_last().last() == left);
    assert(after.pieces.drop_last() =~= st.pieces.take(n - 2));
    settled_operators(left);
    settled_operators(after.pieces.last());
    if ast::comparison(op) {
        match left {
            Piece::Whole(tree) => {
                let links = seq![(op, right)];
                assert(links.drop_last() =~= Seq::empty());
                assert(link_operators(links.drop_last()) =~= Seq::<SyntaxOperator>::empty());
                assert(link_operators(links) =~= seq![op] + operators(right));
            },
            Piece::Open(first, rest) => {
                let links = rest.push((op, right));
                assert(links.drop_last() =~= rest);
                assert(link_operators(links) == link_operators(rest) + seq![op] + operators(right));
            },
        }
    } else {
        assert(operators(Tree::Binary(op, Box::new(settled(left)), Box::new(right))) == operators(
            settled(left),
        ) + seq![op] + operators(right));
    }
    let joined = operators(settled(after.pieces.last()));
    assert(joined =~= operators(settled(left)) + seq![op] + operators(right));
    if n > 2 {
        let before = piece_operators(st.pieces.take(n - 2), st.ops.drop_last().drop_last());
        let middle = st.ops.drop_last().last();
        assert(piece_operators(st.pieces.drop_last(), st.ops.drop_last()) == before + seq![middle]
            + operators(settled(left)));
        assert(piece_operators(after.pieces, after.ops) == before + seq![middle] + joined);
        assert(piece_operators(after.pieces, after.ops) =~= piece_operators(st.pieces, st.ops));
    } else {
        assert(after.pieces.len() == 1);
        assert(st.pieces.drop_last().len() == 1);
        assert(st.pieces.drop_last()[0] == left);
        assert(after.pieces[0] == after.pieces.last());
        assert(piece_operators(after.pieces, after.ops) == joined);
        assert(piece_operators(st.pieces.drop_last(), st.ops.drop_last()) == operators(
            settled(left),
        ));
        assert(piece_operators(after.pieces, after.ops) =~= piece_operators(st.pieces, st.ops));
    }
}

proof fn shifted_operators(st: Stack, op: SyntaxOperator, leaf: nat)
    requires
        st.pieces.len() == st.ops.len() + 1,
    ensures
        shifted(st, op, leaf) matches Ok(after) ==> {
            &&& piece_operators(after.pieces, after.ops) == piece_operators(
                st.pieces,
                st.ops,
            ).push(op)
            &&& after.pieces.len() == after.ops.len() + 1
        },
    decreases st.ops.len(),
{
    let pushed = st.pieces.push(Piece::Whole(Tree::Leaf(leaf)));
    assert(pushed.drop_last() =~= st.pieces);
    assert(st.ops.push(op).drop_last() =~= st.ops);
    assert(piece_operators(pushed, st.ops.push(op)) =~= piece_operators(st.pieces, st.ops).push(
        op,
    ));
    if st.ops.len() > 0 {
        reduced_operators(st);
        shifted_operators(reduced(st), op, leaf);
    }
}

proof fn stacked_operators(ops: Seq<SyntaxOperator>)
    ensures
        stacked(ops) matches Ok(st) ==> {
            &&& piece_operators(st.pieces, st.ops) == ops
            &&& st.pieces.len() == st.ops.len() + 1
        },
    decreases ops.len(),
{
    if ops.len() == 0 {
        let pieces = seq![Piece::Whole(Tree::Leaf(0))];
        assert(piece_operators(pieces, Seq::empty()) =~= ops);
    } else {
        stacked_operators(ops.drop_last());
        if let Ok(st) = stacked(ops.drop_last()) {
            shifted_operators(st, ops.last(), ops.len());
            assert(ops.drop_last().push(ops.last()) =~= ops);
        }
    }
}

proof fn finished_operators(st: Stack)
    requires
        st.pieces.len() == st.ops.len() + 1,
    ensures
        operators(finished(st)) == piece_operators(st.pieces, st.ops),
    decreases st.ops.len(),
{
    if st.ops.len() > 0 {
        reduced_operators(st);
        finished_operators(reduced(st));
    }
}

/// Grouping keeps every operator once, in source order.
pub proof fn grouping_keeps_operators(ops: Seq<SyntaxOperator>)
    ensures
        resolved(ops) matches Ok(tree) ==> operators(tree) == ops,
{
    stacked_operators(ops);
    if let Ok(st) = stacked(ops) {
        finished_operators(st);
    }
}

/// Two operators without a relation are never grouped implicitly.
pub proof fn unrelated_operators_are_rejected(left: SyntaxOperator, right: SyntaxOperator)
    requires
        relation(left, right) == OperatorRelation::Unrelated,
    ensures
        resolved(seq![left, right]) == Err::<Tree, Seq<char>>(unrelated_message(left, right)),
{
    reveal_with_fuel(stacked, 3);
    reveal_with_fuel(shifted, 2);
    let ops = seq![left, right];
    assert(ops.drop_last() =~= seq![left]);
    assert(seq![left].drop_last() =~= Seq::empty());
}

/// An operand chain whose expressions may gain comparisons.
pub enum PartialExpr {
    Expr(SyntaxExpr),
    ComparisonChain { first: Box<SyntaxExpr>, rest: Vec<(SyntaxOperator, SyntaxExpr)> },
}

/// A partial expression agrees with a group.
pub open spec fn partial_matches(
    partial: PartialExpr,
    piece: Piece,
    operands: Seq<Term>,
) -> bool {
    match partial {
        PartialExpr::Expr(expr) => piece matches Piece::Whole(tree) && term::expr_term(expr)
            == tree_term(tree, operands),
        PartialExpr::ComparisonChain { first, rest } => {
            piece matches Piece::Open(tree, links) && term::expr_term(*first) == tree_term(
                tree,
                operands,
            ) && term::links_terms(rest@) == link_terms(links, operands) && rest.len()
                == links.len()
        },
    }
}

pub open spec fn stack_matches(
    exprs: Seq<PartialExpr>,
    ops: Seq<SyntaxOperator>,
    st: Stack,
    operands: Seq<Term>,
) -> bool {
    &&& exprs.len() == st.pieces.len()
    &&& ops == st.ops
    &&& st.pieces.len() == st.ops.len() + 1
    &&& forall|i: int|
        0 <= i < exprs.len() ==> partial_matches(#[trigger] exprs[i], st.pieces[i], operands)
}

impl PartialExpr {
    pub fn into_expr(self, Ghost(piece): Ghost<Piece>, Ghost(operands): Ghost<Seq<Term>>) -> (expr:
        SyntaxExpr)
        requires
            partial_matches(self, piece, operands),
        ensures
            term::expr_term(expr) == tree_term(settled(piece), operands),
    {
        match self {
            PartialExpr::Expr(expr) => expr,
            PartialExpr::ComparisonChain { first, rest } => {
                let ghost tree = piece->Open_0;
                let ghost links = piece->Open_1;
                let ghost all = rest@;
                if rest.len() == 1 {
                    let mut rest = rest;
                    proof {
                        assert(all.drop_last() =~= Seq::empty());
                        assert(links.drop_last() =~= Seq::empty());
                        assert(term::links_terms(all.drop_last()) =~= Seq::<Term>::empty());
                        assert(link_terms(links.drop_last(), operands) =~= Seq::<Term>::empty());
                        let a = term::links_terms(all);
                        let b = link_terms(links, operands);
                        term::links_terms_push(all.drop_last(), all[0]);
                        assert(all.drop_last().push(all[0]) =~= all);
                        term::link_def(all[0]);
                        assert(a[0] == term::link_term(all[0]));
                        assert(b[0] == term::node(
                            Tag::Link,
                            seq![
                                Term::Operator(links[0].0),
                                tree_term(links[0].1, operands),
                            ],
                        ));
                        assert(a[0]->Node_1[0] == Term::Operator(all[0].0));
                        assert(b[0]->Node_1[0] == Term::Operator(links[0].0));
                        assert(a[0]->Node_1[1] == term::expr_term(all[0].1));
                        assert(b[0]->Node_1[1] == tree_term(links[0].1, operands));
                    }
                    let (operator, right) = rest.remove(0);
                    syntax_binary_expr(operator, *first, right)
                } else {
                    formed(SyntaxExpr::ComparisonChain { first, rest })
                }
            },
        }
    }
}

/// An expression that applies an operator to two operands.
pub fn syntax_binary_expr(operator: SyntaxOperator, left: SyntaxExpr, right: SyntaxExpr) -> (expr:
    SyntaxExpr)
    ensures
        term::expr_term(expr) == binary_term(
            operator,
            term::expr_term(left),
            term::expr_term(right),
        ),
{
    match operator {
        SyntaxOperator::Builtin(Builtin::Append) => formed(SyntaxExpr::Append(
            Box::new(left),
            Box::new(right),
        )),
        SyntaxOperator::Builtin(Builtin::Add) => formed(SyntaxExpr::Add(Box::new(left), Box::new(right))),
        SyntaxOperator::Builtin(Builtin::Subtract) => formed(SyntaxExpr::Subtract(
            Box::new(left),
            Box::new(right),
        )),
        SyntaxOperator::Builtin(Builtin::Multiply) => formed(SyntaxExpr::Multiply(
            Box::new(left),
            Box::new(right),
        )),
        SyntaxOperator::Builtin(Builtin::Divide) => formed(SyntaxExpr::Divide(
            Box::new(left),
            Box::new(right),
        )),
        _ => formed(SyntaxExpr::OperatorApply { operator, left: Box::new(left), right: Box::new(right) }),
    }
}

/// Applies the last operator of a chain.
pub fn reduce_top_operator(
    exprs: &mut Vec<PartialExpr>,
    ops: &mut Vec<SyntaxOperator>,
    Ghost(st): Ghost<Stack>,
    Ghost(operands): Ghost<Seq<Term>>,
)
    requires
        stack_matches(old(exprs)@, old(ops)@, st, operands),
        old(ops).len() > 0,
    ensures
        stack_matches(final(exprs)@, final(ops)@, reduced(st), operands),
{
    let ghost before = exprs@;
    let ghost n = st.pieces.len() as int;
    proof {
        assert(partial_matches(before[n - 1], st.pieces[n - 1], operands));
        assert(partial_matches(before[n - 2], st.pieces[n - 2], operands));
    }
    let ghost joined = reduced(st).pieces.last();
    let ghost right_tree = settled(st.pieces[n - 1]);
    if let Some(last) = exprs.pop() {
        let right = last.into_expr(Ghost(st.pieces[n - 1]), Ghost(operands));
        if let Some(left) = exprs.pop() {
            if let Some(op) = ops.pop() {
                if is_comparison_operator(op) {
                    match left {
                        PartialExpr::Expr(first) => {
                            let mut rest: Vec<(SyntaxOperator, SyntaxExpr)> = Vec::new();
                            proof {
                                term::links_terms_push(rest@, (op, right));
                                let links = seq![(op, right_tree)];
                                assert(links.drop_last() =~= Seq::empty());
                                assert(link_terms(links.drop_last(), operands) =~= Seq::<
                                    Term,
                                >::empty());
                                assert(rest@ =~= Seq::empty());
                                term::link_def((op, right));
                                assert(link_terms(links, operands) =~= term::links_terms(
                                    rest@.push((op, right)),
                                ));
                            }
                            rest.push((op, right));
                            exprs.push(
                                PartialExpr::ComparisonChain { first: Box::new(first), rest },
                            );
                        },
                        PartialExpr::ComparisonChain { first, rest } => {
                            let mut rest = rest;
                            proof {
                                term::links_terms_push(rest@, (op, right));
                                let had = st.pieces[n - 2]->Open_1;
                                let links = had.push((op, right_tree));
                                assert(links.drop_last() =~= had);
                                term::link_def((op, right));
                                assert(link_terms(links, operands) =~= term::links_terms(
                                    rest@.push((op, right)),
                                ));
                            }
                            rest.push((op, right));
                            exprs.push(PartialExpr::ComparisonChain { first, rest });
                        },
                    }
                } else {
                    let left = left.into_expr(Ghost(st.pieces[n - 2]), Ghost(operands));
                    exprs.push(PartialExpr::Expr(syntax_binary_expr(op, left, right)));
                }
                proof {
                    assert(partial_matches(exprs@.last(), joined, operands));
                    assert forall|i: int| 0 <= i < exprs@.len() implies partial_matches(
                        #[trigger] exprs@[i],
                        reduced(st).pieces[i],
                        operands,
                    ) by {
                        if i < n - 2 {
                            assert(exprs@[i] == before[i]);
                            assert(partial_matches(before[i], st.pieces[i], operands));
                        }
                    }
                }
            }
        }
    }
}

pub fn operator_precedence(operator: SyntaxOperator) -> (p: u8)
    ensures
        p == precedence(operator),
{
    match operator {
        SyntaxOperator::BoolOr => 0,
        SyntaxOperator::BoolAnd => 1,
        SyntaxOperator::EffectBind | SyntaxOperator::EffectThen => 2,
        SyntaxOperator::PipeForward
        | SyntaxOperator::PipeBackward
        | SyntaxOperator::ApplicativeForward
        | SyntaxOperator::ApplicativeBackward => 3,
        SyntaxOperator::ComposeForward
        | SyntaxOperator::ComposeBackward
        | SyntaxOperator::KleisliCompose => 4,
        SyntaxOperator::Builtin(builtin) => match builtin {
            Builtin::Greater
            | Builtin::GreaterEqual
            | Builtin::Equal
            | Builtin::NotEqual
            | Builtin::LessEqual
            | Builtin::Less => 5,
            Builtin::Append => 6,
            Builtin::Add | Builtin::Subtract => 7,
            Builtin::Multiply | Builtin::Divide => 8,
            _ => 9,
        },
    }
}

fn associativity(operator: SyntaxOperator) -> (a: Option<Associativity>)
    ensures
        a == own_associativity(operator),
{
    match operator {
        SyntaxOperator::BoolOr
        | SyntaxOperator::BoolAnd
        | SyntaxOperator::EffectBind
        | SyntaxOperator::EffectThen
        | SyntaxOperator::PipeForward
        | SyntaxOperator::ApplicativeBackward
        | SyntaxOperator::ComposeForward => Some(Associativity::Left),
        SyntaxOperator::KleisliCompose
        | SyntaxOperator::PipeBackward
        | SyntaxOperator::ApplicativeForward
        | SyntaxOperator::ComposeBackward => Some(Associativity::Right),
        SyntaxOperator::Builtin(builtin) => match builtin {
            Builtin::Append | Builtin::Add | Builtin::Multiply => Some(Associativity::Left),
            Builtin::Subtract | Builtin::Divide => Some(Associativity::Neither),
            _ => None,
        },
    }
}

fn is_arithmetic(operator: SyntaxOperator) -> (b: bool)
    ensures
        b == arithmetic(operator),
{
    operator == SyntaxOperator::Builtin(Builtin::Add) || operator == SyntaxOperator::Builtin(
        Builtin::Subtract,
    ) || operator == SyntaxOperator::Builtin(Builtin::Multiply) || operator
        == SyntaxOperator::Builtin(Builtin::Divide)
}

fn is_bind(operator: SyntaxOperator) -> (b: bool)
    ensures
        b == binds(operator),
{
    operator == SyntaxOperator::EffectBind || operator == SyntaxOperator::EffectThen
}

pub fn infix_operator_relation(left: SyntaxOperator, right: SyntaxOperator) -> (r: OperatorRelation)
    ensures
        r == relation(left, right),
{
    if left == right {
        if let Some(own) = associativity(left) {
            return OperatorRelation::Same(own);
        }
    }
    if is_bind(left) && is_bind(right) {
        return OperatorRelation::Same(Associativity::Left);
    }
    if is_comparison_operator(left) && is_comparison_operator(right) {
        return OperatorRelation::Same(Associativity::Neither);
    }
    if is_arithmetic(left) && is_arithmetic(right) {
        return OperatorRelation::Unrelated;
    }
    if left == SyntaxOperator::BoolOr && right == SyntaxOperator::BoolAnd {
        return OperatorRelation::Unrelated;
    }
    if left == SyntaxOperator::BoolAnd && right == SyntaxOperator::BoolOr {
        return OperatorRelation::Unrelated;
    }
    let a = operator_precedence(left);
    let b = operator_precedence(right);
    if a > b {
        OperatorRelation::Stronger
    } else if a < b {
        OperatorRelation::Weaker
    } else {
        OperatorRelation::Unrelated
    }
}

/// The operators of the links of a chain.
pub open spec fn link_ops(links: Seq<(SyntaxOperator, SyntaxExpr)>) -> Seq<SyntaxOperator> {
    links.map_values(|link: (SyntaxOperator, SyntaxExpr)| link.0)
}

/// The operands of a chain.
pub open spec fn operand_terms(
    first: SyntaxExpr,
    links: Seq<(SyntaxOperator, SyntaxExpr)>,
) -> Seq<Term> {
    seq![term::expr_term(first)] + links.map_values(
        |link: (SyntaxOperator, SyntaxExpr)| term::expr_term(link.1),
    )
}

/// Groups a chain of operands by the relations of its operators.
pub fn resolve_infix_chain(first: SyntaxExpr, rest: Vec<(SyntaxOperator, SyntaxExpr)>) -> (result:
    Result<SyntaxExpr, String>)
    ensures
        match result {
            Ok(expr) => resolved(link_ops(rest@)) matches Ok(tree) && term::expr_term(expr)
                == tree_term(tree, operand_terms(first, rest@)),
            Err(message) => resolved(link_ops(rest@)) == Err::<Tree, Seq<char>>(message@),
        },
{
    let ghost all = rest@;
    let ghost kinds = link_ops(all);
    let ghost operands = operand_terms(first, all);
    let mut exprs: Vec<PartialExpr> = Vec::new();
    exprs.push(PartialExpr::Expr(first));
    let mut ops: Vec<SyntaxOperator> = Vec::new();
    let count = rest.len();
    let mut remaining = rest;
    let mut k: usize = 0;
    let ghost mut st = Stack {
        pieces: seq![Piece::Whole(Tree::Leaf(0))],
        ops: Seq::<SyntaxOperator>::empty(),
    };
    proof {
        assert(kinds.take(0) =~= Seq::empty());
        assert(tree_term(Tree::Leaf(0), operands) == operands[0]);
        assert(ops@ =~= st.ops);
        assert(all.skip(0) =~= all);
    }
    while remaining.len() > 0
        invariant
            k + remaining.len() == all.len(),
            count == all.len(),
            remaining@ == all.skip(k as int),
            all == rest@,
            kinds == link_ops(all),
            operands == operand_terms(first, all),
            stacked(kinds.take(k as int)) == Ok::<Stack, Seq<char>>(st),
            stack_matches(exprs@, ops@, st, operands),
        decreases remaining.len(),
    {
        let (next_op, next_expr) = remaining.remove(0);
        proof {
            assert(all[k as int] == (next_op, next_expr));
            assert(remaining@ =~= all.skip(k + 1));
            assert(kinds.take(k + 1).drop_last() =~= kinds.take(k as int));
            assert(kinds.take(k + 1).last() == next_op);
        }
        let ghost start = st;
        let ghost leaf = (k + 1) as nat;
        while ops.len() > 0
            invariant_except_break
                stack_matches(exprs@, ops@, st, operands),
                shifted(st, next_op, leaf) == shifted(start, next_op, leaf),
            invariant
                k < kinds.len(),
                leaf == k + 1,
                all == rest@,
                kinds == link_ops(all),
                kinds.take(k + 1).drop_last() == kinds.take(k as int),
                kinds.take(k + 1).last() == next_op,
                stacked(kinds.take(k as int)) == Ok::<Stack, Seq<char>>(start),
            ensures
                stack_matches(exprs@, ops@, st, operands),
                shifted(start, next_op, leaf) == Ok::<Stack, Seq<char>>(
                    Stack {
                        pieces: st.pieces.push(Piece::Whole(Tree::Leaf(leaf))),
                        ops: st.ops.push(next_op),
                    },
                ),
            decreases ops.len(),
        {
            let previous_op = ops[ops.len() - 1];
            assert(st.ops.last() == previous_op);
            match infix_operator_relation(previous_op, next_op) {
                OperatorRelation::Stronger | OperatorRelation::Same(Associativity::Left) => {
                    reduce_top_operator(&mut exprs, &mut ops, Ghost(st), Ghost(operands));
                    proof {
                        st = reduced(st);
                    }
                },
                OperatorRelation::Weaker | OperatorRelation::Same(Associativity::Right) => {
                    break ;
                },
                OperatorRelation::Same(Associativity::Neither) => {
                    if is_comparison_operator(previous_op) && is_comparison_operator(next_op) {
                        reduce_top_operator(&mut exprs, &mut ops, Ghost(st), Ghost(operands));
                        proof {
                            st = reduced(st);
                        }
                    } else {
                        let mut message = "operator `".to_owned();
                        message.append(infix_operator_symbol(next_op));
                        message.append("` is non-associative; parenthesize this chain");
                        proof {
                            failed_prefix(kinds, k as int, message@);
                        }
                        return Err(message);
                    }
                },
                OperatorRelation::Unrelated => {
                    let mut message = "operators `".to_owned();
                    message.append(infix_operator_symbol(previous_op));
                    message.append("` and `");
                    message.append(infix_operator_symbol(next_op));
                    message.append(
                        "` have no precedence relationship; parenthesize to disambiguate",
                    );
                    proof {
                        failed_prefix(kinds, k as int, message@);
                    }
                    return Err(message);
                },
            }
        }
        let ghost before = exprs@;
        ops.push(next_op);
        exprs.push(PartialExpr::Expr(next_expr));
        proof {
            let next = Stack {
                pieces: st.pieces.push(Piece::Whole(Tree::Leaf(leaf))),
                ops: st.ops.push(next_op),
            };
            assert(tree_term(Tree::Leaf(leaf), operands) == operands[leaf as int]);
            assert(operands[leaf as int] == term::expr_term(next_expr));
            assert forall|i: int| 0 <= i < exprs@.len() implies partial_matches(
                #[trigger] exprs@[i],
                next.pieces[i],
                operands,
            ) by {
                if i < before.len() {
                    assert(exprs@[i] == before[i]);
                    assert(partial_matches(before[i], st.pieces[i], operands));
                }
            }
            st = next;
            assert(ops@ =~= st.ops);
        }
        k = k + 1;
    }
    assert(kinds.take(k as int) =~= kinds);
    let ghost whole = st;
    while ops.len() > 0
        invariant
            stack_matches(exprs@, ops@, st, operands),
            finished(st) == finished(whole),
        decreases ops.len(),
    {
        reduce_top_operator(&mut exprs, &mut ops, Ghost(st), Ghost(operands));
        proof {
            st = reduced(st);
        }
    }
    assert(partial_matches(exprs@[0], st.pieces[0], operands));
    let only = exprs.remove(0);
    Ok(only.into_expr(Ghost(st.pieces[0]), Ghost(operands)))
}

/// A chain whose beginning cannot be grouped cannot be grouped.
proof fn failed_prefix(ops: Seq<SyntaxOperator>, k: int, message: Seq<char>)
    requires
        0 <= k < ops.len(),
        stacked(ops.take(k + 1)) == Err::<Stack, Seq<char>>(message),
    ensures
        resolved(ops) == Err::<Tree, Seq<char>>(message),
    decreases ops.len(),
{
    if k + 1 == ops.len() {
        assert(ops.take(k + 1) =~= ops);
    } else {
        assert(ops.drop_last().take(k + 1) =~= ops.take(k + 1));
        failed_prefix(ops.drop_last(), k, message);
    }
}

/// How an operator is written.
pub open spec fn spelling(operator: SyntaxOperator) -> Seq<char> {
    match operator {
        SyntaxOperator::BoolAnd => "and"@,
        SyntaxOperator::BoolOr => "or"@,
        SyntaxOperator::PipeForward => "|>"@,
        SyntaxOperator::PipeBackward => "<|"@,
        SyntaxOperator::ApplicativeForward => "!>"@,
        SyntaxOperator::ApplicativeBackward => "<!"@,
        SyntaxOperator::ComposeForward => ">>"@,
        SyntaxOperator::ComposeBackward => "<<"@,
        SyntaxOperator::EffectBind => ">>="@,
        SyntaxOperator::KleisliCompose => ">=>"@,
        SyntaxOperator::EffectThen => "=>>"@,
        SyntaxOperator::Builtin(builtin) => builtin_spelling(builtin),
    }
}

pub open spec fn builtin_spelling(builtin: Builtin) -> Seq<char> {
    match builtin {
        Builtin::Append => "++"@,
        Builtin::Add => "+"@,
        Builtin::Subtract => "-"@,
        Builtin::Multiply => "*"@,
        Builtin::Divide => "/"@,
        Builtin::Greater => ">"@,
        Builtin::GreaterEqual => ">="@,
        Builtin::Equal => "=="@,
        Builtin::NotEqual => "<>"@,
        Builtin::LessEqual => "=<"@,
        Builtin::Less => "<"@,
        Builtin::Fixpoint => "fixpoint"@,
        Builtin::Anno => "anno"@,
        Builtin::Sequence => "seq"@,
        Builtin::Spark => "spark"@,
        Builtin::InteractionNet => "interaction_net"@,
        Builtin::NetArity => "net_arity"@,
        Builtin::MergeDuplicate => "merge_duplicate"@,
        Builtin::Floor => "floor"@,
        Builtin::Mod => "mod"@,
        Builtin::Slice => "slice"@,
        Builtin::ListMap => "map"@,
        Builtin::ListConcat => "list.concat"@,
        Builtin::ListLen => "list.len"@,
        Builtin::ListSplit => "list.split"@,
        Builtin::ListSplitEnd => "list.split_end"@,
        Builtin::ListAt => "list.at"@,
        Builtin::ListHead => "list.head"@,
        Builtin::ListTail => "list.tail"@,
        Builtin::TextLines => "text.lines"@,
        Builtin::ListEffect => "list.pure"@,
        Builtin::ListEffectReturn => "list.pure.r"@,
        Builtin::ListEffectSeq => "list.pure.seq"@,
        Builtin::ListEffectAlt => "list.pure.alt"@,
        Builtin::ListEffectCut => "list.pure.cut"@,
        Builtin::ListEffectFix => "list.pure.fix"@,
        Builtin::DictSingleton => ":"@,
        Builtin::DictUnion => "{,}"@,
        Builtin::DictUpdate => "dict_update"@,
        Builtin::ObjectSpec => "object_spec"@,
        Builtin::ObjectFromDict => "object_from_dict"@,
        Builtin::ObjectLocalName => "object_local_name"@,
        Builtin::ObjectAbstractFromParts => "object_abstract_from_parts"@,
        Builtin::ObjectInstanceFromParts => "object_instance_from_parts"@,
        Builtin::ObjectInstance => "object_instance"@,
        Builtin::EffectApply => "effect_apply"@,
        Builtin::EffectCall => "effect_call"@,
        Builtin::EffectMap => "eff.map"@,
        Builtin::EffectMapRun => "effect_map_run"@,
        Builtin::EffectMapContinue => "effect_map_continue"@,
        Builtin::ObjectDefaultDefs => "object_default_defs"@,
        Builtin::ObjectDictDefs => "object_dict_defs"@,
        Builtin::ObjectWithDefs => "object_with_defs"@,
        Builtin::ObjectComposedDefs => "object_composed_defs"@,
        Builtin::ObjectOverrideDefs => "object_override_defs"@,
        Builtin::IfResult => "if_result"@,
        Builtin::MatchResult => "match_result"@,
        Builtin::AssertUnit => "assert_unit"@,
    }
}

pub fn infix_operator_symbol(operator: SyntaxOperator) -> (text: &'static str)
    ensures
        text@ == spelling(operator),
{
    match operator {
        SyntaxOperator::BoolAnd => "and",
        SyntaxOperator::BoolOr => "or",
        SyntaxOperator::PipeForward => "|>",
        SyntaxOperator::PipeBackward => "<|",
        SyntaxOperator::ApplicativeForward => "!>",
        SyntaxOperator::ApplicativeBackward => "<!",
        SyntaxOperator::ComposeForward => ">>",
        SyntaxOperator::ComposeBackward => "<<",
        SyntaxOperator::EffectBind => ">>=",
        SyntaxOperator::KleisliCompose => ">=>",
        SyntaxOperator::EffectThen => "=>>",
        SyntaxOperator::Builtin(Builtin::Append) => "++",
        SyntaxOperator::Builtin(Builtin::Add) => "+",
        SyntaxOperator::Builtin(Builtin::Subtract) => "-",
        SyntaxOperator::Builtin(Builtin::Multiply) => "*",
        SyntaxOperator::Builtin(Builtin::Divide) => "/",
        SyntaxOperator::Builtin(Builtin::Greater) => ">",
        SyntaxOperator::Builtin(Builtin::GreaterEqual) => ">=",
        SyntaxOperator::Builtin(Builtin::Equal) => "==",
        SyntaxOperator::Builtin(Builtin::NotEqual) => "<>",
        SyntaxOperator::Builtin(Builtin::LessEqual) => "=<",
        SyntaxOperator::Builtin(Builtin::Less) => "<",
        SyntaxOperator::Builtin(Builtin::Fixpoint) => "fixpoint",
        SyntaxOperator::Builtin(Builtin::Anno) => "anno",
        SyntaxOperator::Builtin(Builtin::Sequence) => "seq",
        SyntaxOperator::Builtin(Builtin::Spark) => "spark",
        SyntaxOperator::Builtin(Builtin::InteractionNet) => "interaction_net",
        SyntaxOperator::Builtin(Builtin::NetArity) => "net_arity",
        SyntaxOperator::Builtin(Builtin::MergeDuplicate) => "merge_duplicate",
        SyntaxOperator::Builtin(Builtin::Floor) => "floor",
        SyntaxOperator::Builtin(Builtin::Mod) => "mod",
        SyntaxOperator::Builtin(Builtin::Slice) => "slice",
        SyntaxOperator::Builtin(Builtin::ListMap) => "map",
        SyntaxOperator::Builtin(Builtin::ListConcat) => "list.concat",
        SyntaxOperator::Builtin(Builtin::ListLen) => "list.len",
        SyntaxOperator::Builtin(Builtin::ListSplit) => "list.split",
        SyntaxOperator::Builtin(Builtin::ListSplitEnd) => "list.split_end",
        SyntaxOperator::Builtin(Builtin::ListAt) => "list.at",
        SyntaxOperator::Builtin(Builtin::ListHead) => "list.head",
        SyntaxOperator::Builtin(Builtin::ListTail) => "list.tail",
        SyntaxOperator::Builtin(Builtin::TextLines) => "text.lines",
        SyntaxOperator::Builtin(Builtin::ListEffect) => "list.pure",
        SyntaxOperator::Builtin(Builtin::ListEffectReturn) => "list.pure.r",
        SyntaxOperator::Builtin(Builtin::ListEffectSeq) => "list.pure.seq",
        SyntaxOperator::Builtin(Builtin::ListEffectAlt) => "list.pure.alt",
        SyntaxOperator::Builtin(Builtin::ListEffectCut) => "list.pure.cut",
        SyntaxOperator::Builtin(Builtin::ListEffectFix) => "list.pure.fix",
        SyntaxOperator::Builtin(Builtin::DictSingleton) => ":",
        SyntaxOperator::Builtin(Builtin::DictUnion) => "{,}",
        SyntaxOperator::Builtin(Builtin::DictUpdate) => "dict_update",
        SyntaxOperator::Builtin(Builtin::ObjectSpec) => "object_spec",
        SyntaxOperator::Builtin(Builtin::ObjectFromDict) => "object_from_dict",
        SyntaxOperator::Builtin(Builtin::ObjectLocalName) => "object_local_name",
        SyntaxOperator::Builtin(Builtin::ObjectAbstractFromParts) => "object_abstract_from_parts",
        SyntaxOperator::Builtin(Builtin::ObjectInstanceFromParts) => "object_instance_from_parts",
        SyntaxOperator::Builtin(Builtin::ObjectInstance) => "object_instance",
        SyntaxOperator::Builtin(Builtin::EffectApply) => "effect_apply",
        SyntaxOperator::Builtin(Builtin::EffectCall) => "effect_call",
        SyntaxOperator::Builtin(Builtin::EffectMap) => "eff.map",
        SyntaxOperator::Builtin(Builtin::EffectMapRun) => "effect_map_run",
        SyntaxOperator::Builtin(Builtin::EffectMapContinue) => "effect_map_continue",
        SyntaxOperator::Builtin(Builtin::ObjectDefaultDefs) => "object_default_defs",
        SyntaxOperator::Builtin(Builtin::ObjectDictDefs) => "object_dict_defs",
        SyntaxOperator::Builtin(Builtin::ObjectWithDefs) => "object_with_defs",
        SyntaxOperator::Builtin(Builtin::ObjectComposedDefs) => "object_composed_defs",
        SyntaxOperator::Builtin(Builtin::ObjectOverrideDefs) => "object_override_defs",
        SyntaxOperator::Builtin(Builtin::IfResult) => "if_result",
        SyntaxOperator::Builtin(Builtin::MatchResult) => "match_result",
        SyntaxOperator::Builtin(Builtin::AssertUnit) => "assert_unit",
    }
}

} // verus!
