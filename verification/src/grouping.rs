//! How chains of infix operators group, in terms of what their operators do.
//!
//! From the loosest to the tightest: `or` and `and`; effect sequencing; pipes
//! and applicatives; compositions; comparisons; `++`; arithmetic.

use vstd::prelude::*;
use crate::ast::SyntaxOperator;
use crate::infix;
use crate::infix::{Associativity, OperatorRelation, Piece, Stack, Tree};
use crate::values::Builtin;

verus! {

pub open spec fn logical(op: SyntaxOperator) -> bool {
    op == SyntaxOperator::BoolOr || op == SyntaxOperator::BoolAnd
}

pub open spec fn sequencing(op: SyntaxOperator) -> bool {
    op == SyntaxOperator::EffectBind || op == SyntaxOperator::EffectThen
}

pub open spec fn passing(op: SyntaxOperator) -> bool {
    ||| op == SyntaxOperator::PipeForward
    ||| op == SyntaxOperator::PipeBackward
    ||| op == SyntaxOperator::ApplicativeForward
    ||| op == SyntaxOperator::ApplicativeBackward
}

pub open spec fn composing(op: SyntaxOperator) -> bool {
    ||| op == SyntaxOperator::ComposeForward
    ||| op == SyntaxOperator::ComposeBackward
    ||| op == SyntaxOperator::KleisliCompose
}

pub open spec fn comparing(op: SyntaxOperator) -> bool {
    ||| op == SyntaxOperator::Builtin(Builtin::Less)
    ||| op == SyntaxOperator::Builtin(Builtin::LessEqual)
    ||| op == SyntaxOperator::Builtin(Builtin::Equal)
    ||| op == SyntaxOperator::Builtin(Builtin::NotEqual)
    ||| op == SyntaxOperator::Builtin(Builtin::GreaterEqual)
    ||| op == SyntaxOperator::Builtin(Builtin::Greater)
}

pub open spec fn appending(op: SyntaxOperator) -> bool {
    op == SyntaxOperator::Builtin(Builtin::Append)
}

pub open spec fn calculating(op: SyntaxOperator) -> bool {
    ||| op == SyntaxOperator::Builtin(Builtin::Add)
    ||| op == SyntaxOperator::Builtin(Builtin::Subtract)
    ||| op == SyntaxOperator::Builtin(Builtin::Multiply)
    ||| op == SyntaxOperator::Builtin(Builtin::Divide)
}

/// The first operator takes the second as a part of its operand, on either
/// side.
pub open spec fn looser(a: SyntaxOperator, b: SyntaxOperator) -> bool {
    ||| logical(a) && !logical(b)
    ||| sequencing(a) && !logical(b) && !sequencing(b)
    ||| passing(a) && (composing(b) || b is Builtin)
    ||| composing(a) && b is Builtin
    ||| comparing(a) && b is Builtin && !comparing(b)
    ||| appending(a) && b is Builtin && !comparing(b) && !appending(b)
    ||| calculating(a) && b is Builtin && !comparing(b) && !appending(b) && !calculating(b)
}

/// Operators that group from the left, each with itself, and the two that
/// sequence effects with each other.
pub open spec fn from_left(a: SyntaxOperator, b: SyntaxOperator) -> bool {
    ||| sequencing(a) && sequencing(b)
    ||| a == b && {
        ||| logical(a)
        ||| a == SyntaxOperator::PipeForward
        ||| a == SyntaxOperator::ApplicativeBackward
        ||| a == SyntaxOperator::ComposeForward
        ||| a == SyntaxOperator::Builtin(Builtin::Append)
        ||| a == SyntaxOperator::Builtin(Builtin::Add)
        ||| a == SyntaxOperator::Builtin(Builtin::Multiply)
    }
}

/// Operators that group from the right, each with itself.
pub open spec fn from_right(a: SyntaxOperator, b: SyntaxOperator) -> bool {
    a == b && {
        ||| a == SyntaxOperator::PipeBackward
        ||| a == SyntaxOperator::ApplicativeForward
        ||| a == SyntaxOperator::ComposeBackward
        ||| a == SyntaxOperator::KleisliCompose
    }
}

/// Operators that may stand side by side in a chain.
pub open spec fn compatible(a: SyntaxOperator, b: SyntaxOperator) -> bool {
    ||| looser(a, b)
    ||| looser(b, a)
    ||| from_left(a, b)
    ||| from_right(a, b)
    ||| comparing(a) && comparing(b)
}

/// The operator that a group applies last.
pub open spec fn root(tree: Tree) -> Option<SyntaxOperator> {
    match tree {
        Tree::Leaf(_) => None,
        Tree::Binary(op, _, _) => Some(op),
        Tree::Chain(_, links) => Some(links[0].0),
    }
}

/// A group may be the left operand of an operator.
pub open spec fn fits_left(tree: Tree, op: SyntaxOperator) -> bool {
    root(tree) matches Some(inner) ==> looser(op, inner) || from_left(inner, op)
}

/// A group may be the right operand of an operator.
pub open spec fn fits_right(tree: Tree, op: SyntaxOperator) -> bool {
    root(tree) matches Some(inner) ==> looser(op, inner) || from_right(op, inner)
}

/// Every operator of a group has operands that bind more tightly than it does,
/// or that group with it from their side. Comparisons in a row form a chain.
pub open spec fn well_grouped(tree: Tree) -> bool
    decreases tree,
{
    match tree {
        Tree::Leaf(_) => true,
        Tree::Binary(op, left, right) => {
            &&& fits_left(*left, op)
            &&& fits_right(*right, op)
            &&& well_grouped(*left)
            &&& well_grouped(*right)
        },
        Tree::Chain(first, links) => {
            &&& links.len() > 1
            &&& fits_left(*first, links[0].0)
            &&& well_grouped(*first)
            &&& links_grouped(links)
        },
    }
}

pub open spec fn links_grouped(links: Seq<(SyntaxOperator, Tree)>) -> bool
    decreases links,
{
    forall|i: int|
        0 <= i < links.len() ==> comparing((#[trigger] links[i]).0) && fits_right(
            links[i].1,
            links[i].0,
        ) && well_grouped(links[i].1)
}

/// What the relation of two neighbours says of them.
proof fn relations(a: SyntaxOperator, b: SyntaxOperator)
    ensures
        infix::relation(a, b) == OperatorRelation::Stronger <==> looser(b, a),
        infix::relation(a, b) == OperatorRelation::Weaker <==> looser(a, b),
        infix::relation(a, b) == OperatorRelation::Same(Associativity::Left) <==> from_left(a, b),
        infix::relation(a, b) == OperatorRelation::Same(Associativity::Right) <==> from_right(a, b),
        comparing(a) && comparing(b) ==> infix::relation(a, b) == OperatorRelation::Same(
            Associativity::Neither,
        ),
        crate::ast::comparison(a) == comparing(a),
        comparing(a) ==> !(from_left(a, b) || from_right(a, b)),
{
}

/// A piece of a stack is well grouped, and what it applies last is known.
spec fn piece_fits(piece: Piece) -> bool {
    match piece {
        Piece::Whole(tree) => well_grouped(tree) && (root(tree) matches Some(op)
            ==> !comparing(op)),
        Piece::Open(first, links) => {
            &&& links.len() > 0
            &&& fits_left(first, links[0].0)
            &&& well_grouped(first)
            &&& links_grouped(links)
        },
    }
}

spec fn piece_root(piece: Piece) -> Option<SyntaxOperator> {
    match piece {
        Piece::Whole(tree) => root(tree),
        Piece::Open(_, links) => Some(links[0].0),
    }
}

proof fn settled_fits(piece: Piece)
    requires
        piece_fits(piece),
    ensures
        well_grouped(infix::settled(piece)),
        root(infix::settled(piece)) == piece_root(piece),
{
    if let Piece::Open(first, links) = piece {
        relations(links[0].0, links[0].0);
        assert(comparing(links[0].0));
        if links.len() == 1 {
            let tree = Tree::Binary(links[0].0, Box::new(first), Box::new(links[0].1));
            assert(fits_left(first, links[0].0));
            assert(fits_right(links[0].1, links[0].0));
            assert(well_grouped(tree));
        }
    }
}

/// An operator that waits on the stack lets what follows it be its operand.
spec fn waits(op: SyntaxOperator, inner: SyntaxOperator) -> bool {
    looser(op, inner) || from_right(op, inner)
}

/// What was applied before an operator came may be its left operand.
spec fn yields(inner: SyntaxOperator, op: SyntaxOperator) -> bool {
    looser(op, inner) || from_left(inner, op) || (comparing(inner) && comparing(op))
}

#[verifier::opaque]
spec fn stack_fits(st: Stack) -> bool {
    &&& st.pieces.len() == st.ops.len() + 1
    &&& forall|i: int| 0 <= i < st.pieces.len() ==> piece_fits(#[trigger] st.pieces[i])
    &&& forall|i: int|
        0 < i < st.pieces.len() ==> (piece_root(#[trigger] st.pieces[i]) matches Some(inner)
            ==> waits(st.ops[i - 1], inner))
    &&& forall|i: int|
        0 <= i < st.ops.len() ==> (piece_root(#[trigger] st.pieces[i]) matches Some(inner)
            ==> yields(inner, st.ops[i]))
    &&& forall|i: int|
        0 <= i < st.ops.len() - 1 ==> waits(#[trigger] st.ops[i], st.ops[i + 1])
}

proof fn reduced_fits(st: Stack)
    requires
        stack_fits(st),
        st.ops.len() > 0,
    ensures
        stack_fits(infix::reduced(st)),
        piece_root(infix::reduced(st).pieces.last()) matches Some(op) && (op == st.ops.last() || (
        comparing(op) && comparing(st.ops.last()))),
{
    reveal(stack_fits);
    let n = st.pieces.len() as int;
    let right = st.pieces[n - 1];
    let left = st.pieces[n - 2];
    let op = st.ops.last();
    let after = infix::reduced(st);
    settled_fits(right);
    settled_fits(left);
    relations(op, op);
    let r = infix::settled(right);
    assert(op == st.ops[n - 2]);
    assert(fits_right(r, op)) by {
        assert(piece_root(st.pieces[n - 1]) == root(r));
    }
    assert(piece_root(st.pieces[n - 2]) matches Some(inner) ==> yields(inner, op));
    let joined = after.pieces.last();
    if comparing(op) {
        match left {
            Piece::Whole(tree) => {
                let links = seq![(op, r)];
                assert(joined == Piece::Open(tree, links));
                assert(fits_left(tree, op)) by {
                    if let Some(inner) = root(tree) {
                        relations(inner, op);
                    }
                }
                assert(links_grouped(links));
            },
            Piece::Open(first, rest) => {
                let links = rest.push((op, r));
                assert(joined == Piece::Open(first, links));
                assert(links[0] == rest[0]);
                assert forall|i: int| 0 <= i < links.len() implies comparing(
                    (#[trigger] links[i]).0,
                ) && fits_right(links[i].1, links[i].0) && well_grouped(links[i].1) by {
                    if i < rest.len() {
                        assert(links[i] == rest[i]);
                    }
                }
                assert(comparing(rest[0].0));
            },
        }
    } else {
        let l = infix::settled(left);
        let tree = Tree::Binary(op, Box::new(l), Box::new(r));
        assert(joined == Piece::Whole(tree));
        assert(fits_left(l, op)) by {
            if let Some(inner) = root(l) {
                assert(yields(inner, op));
            }
        }
        assert(well_grouped(tree));
    }
    assert(piece_fits(joined));
    let top = piece_root(joined)->0;
    assert(top == op || (comparing(top) && comparing(op)));
    assert forall|i: int| 0 <= i < after.pieces.len() implies piece_fits(
        #[trigger] after.pieces[i],
    ) by {
        if i < n - 2 {
            assert(after.pieces[i] == st.pieces[i]);
        }
    }
    assert forall|i: int| 0 < i < after.pieces.len() implies (piece_root(
        #[trigger] after.pieces[i],
    ) matches Some(inner) ==> waits(after.ops[i - 1], inner)) by {
        if i < n - 2 {
            assert(after.pieces[i] == st.pieces[i]);
            assert(after.ops[i - 1] == st.ops[i - 1]);
        } else {
            assert(after.ops[i - 1] == st.ops[n - 3]);
            assert(waits(st.ops[n - 3], st.ops[n - 3 + 1]));
            if top != op {
                relations(st.ops[n - 3], op);
                assert(looser(st.ops[n - 3], top));
            }
        }
    }
    assert forall|i: int| 0 <= i < after.ops.len() implies (piece_root(
        #[trigger] after.pieces[i],
    ) matches Some(inner) ==> yields(inner, after.ops[i])) by {
        assert(after.pieces[i] == st.pieces[i]);
        assert(after.ops[i] == st.ops[i]);
    }
    assert forall|i: int| 0 <= i < after.ops.len() - 1 implies waits(
        #[trigger] after.ops[i],
        after.ops[i + 1],
    ) by {
        assert(after.ops[i] == st.ops[i]);
        assert(after.ops[i + 1] == st.ops[i + 1]);
    }
}

proof fn shifted_fits(st: Stack, op: SyntaxOperator, leaf: nat)
    requires
        stack_fits(st),
        piece_root(st.pieces.last()) matches Some(inner) ==> yields(inner, op),
    ensures
        infix::shifted(st, op, leaf) matches Ok(after) ==> stack_fits(after)
            && after.pieces.last() == Piece::Whole(Tree::Leaf(leaf)),
    decreases st.ops.len(),
{
    reveal(stack_fits);
    let pushed = Stack {
        pieces: st.pieces.push(Piece::Whole(Tree::Leaf(leaf))),
        ops: st.ops.push(op),
    };
    let n = st.pieces.len() as int;
    if st.ops.len() == 0 || waits(st.ops.last(), op) {
        assert forall|i: int| 0 <= i < pushed.pieces.len() implies piece_fits(
            #[trigger] pushed.pieces[i],
        ) by {
            if i < n {
                assert(pushed.pieces[i] == st.pieces[i]);
            }
        }
        assert forall|i: int| 0 < i < pushed.pieces.len() implies (piece_root(
            #[trigger] pushed.pieces[i],
        ) matches Some(inner) ==> waits(pushed.ops[i - 1], inner)) by {
            if i < n {
                assert(pushed.pieces[i] == st.pieces[i]);
                assert(pushed.ops[i - 1] == st.ops[i - 1]);
            }
        }
        assert forall|i: int| 0 <= i < pushed.ops.len() implies (piece_root(
            #[trigger] pushed.pieces[i],
        ) matches Some(inner) ==> yields(inner, pushed.ops[i])) by {
            assert(pushed.pieces[i] == st.pieces[i]);
            if i < n - 1 {
                assert(pushed.ops[i] == st.ops[i]);
            } else {
                assert(st.pieces.last() == st.pieces[n - 1]);
            }
        }
        assert forall|i: int| 0 <= i < pushed.ops.len() - 1 implies waits(
            #[trigger] pushed.ops[i],
            pushed.ops[i + 1],
        ) by {
            assert(pushed.ops[i] == st.ops[i]);
            if i < st.ops.len() - 1 {
                assert(pushed.ops[i + 1] == st.ops[i + 1]);
            } else {
                assert(st.ops.last() == st.ops[i]);
            }
        }
        assert(stack_fits(pushed));
    }
    if st.ops.len() > 0 {
        let top = st.ops.last();
        relations(top, op);
        relations(op, top);
        if yields(top, op) {
            reduced_fits(st);
            let joined = piece_root(infix::reduced(st).pieces.last())->0;
            if joined != top {
                relations(joined, op);
                assert(yields(joined, op));
            }
            shifted_fits(infix::reduced(st), op, leaf);
        }
    }
}

proof fn stacked_fits(ops: Seq<SyntaxOperator>)
    ensures
        infix::stacked(ops) matches Ok(st) ==> stack_fits(st) && piece_root(st.pieces.last())
            is None,
    decreases ops.len(),
{
    if ops.len() == 0 {
        reveal(stack_fits);
        let st = Stack { pieces: seq![Piece::Whole(Tree::Leaf(0))], ops: Seq::empty() };
        assert(well_grouped(Tree::Leaf(0)));
        assert(stack_fits(st));
    } else {
        stacked_fits(ops.drop_last());
        if let Ok(st) = infix::stacked(ops.drop_last()) {
            shifted_fits(st, ops.last(), ops.len());
        }
    }
}

proof fn finished_fits(st: Stack)
    requires
        stack_fits(st),
    ensures
        well_grouped(infix::finished(st)),
    decreases st.ops.len(),
{
    assert(st.pieces.len() == st.ops.len() + 1) by {
        reveal(stack_fits);
    }
    if st.ops.len() == 0 {
        assert(piece_fits(st.pieces[0])) by {
            reveal(stack_fits);
        }
        settled_fits(st.pieces[0]);
    } else {
        reduced_fits(st);
        finished_fits(infix::reduced(st));
    }
}

/// A chain of any length groups by how tightly its operators bind: each takes
/// operands that bind more tightly, or that group with it from their side.
pub proof fn chains_are_well_grouped(ops: Seq<SyntaxOperator>)
    ensures
        infix::resolved(ops) matches Ok(tree) ==> well_grouped(tree),
{
    stacked_fits(ops);
    if let Ok(st) = infix::stacked(ops) {
        finished_fits(st);
    }
}

/// Of two operators, the looser one is applied last, whichever comes first.
pub proof fn looser_operators_are_applied_last(a: SyntaxOperator, b: SyntaxOperator)
    requires
        looser(a, b),
    ensures
        infix::resolved(seq![a, b]) == Ok::<Tree, Seq<char>>(
            Tree::Binary(
                a,
                Box::new(Tree::Leaf(0)),
                Box::new(Tree::Binary(b, Box::new(Tree::Leaf(1)), Box::new(Tree::Leaf(2)))),
            ),
        ),
        infix::resolved(seq![b, a]) == Ok::<Tree, Seq<char>>(
            Tree::Binary(
                a,
                Box::new(Tree::Binary(b, Box::new(Tree::Leaf(0)), Box::new(Tree::Leaf(1)))),
                Box::new(Tree::Leaf(2)),
            ),
        ),
{
    pair_is_resolved(a, b);
    pair_is_resolved(b, a);
    let x = seq![a, b];
    let y = seq![b, a];
    chains_are_well_grouped(x);
    chains_are_well_grouped(y);
    infix::grouping_keeps_operands(x);
    infix::grouping_keeps_operators(x);
    infix::grouping_keeps_operands(y);
    infix::grouping_keeps_operators(y);
    relations(a, b);
    relations(b, a);
    pair_shape(infix::resolved(x)->Ok_0, a, b);
    pair_shape(infix::resolved(y)->Ok_0, b, a);
}

/// A group over three operands in order is one of two, or a row of comparisons.
proof fn pair_shape(tree: Tree, a: SyntaxOperator, b: SyntaxOperator)
    requires
        well_grouped(tree),
        infix::operators(tree) == seq![a, b],
        infix::leaves(tree) == infix::positions(3),
        !(comparing(a) && comparing(b)),
    ensures
        tree == Tree::Binary(
            a,
            Box::new(Tree::Leaf(0)),
            Box::new(Tree::Binary(b, Box::new(Tree::Leaf(1)), Box::new(Tree::Leaf(2)))),
        ) && (looser(a, b) || from_right(a, b)) || tree == Tree::Binary(
            b,
            Box::new(Tree::Binary(a, Box::new(Tree::Leaf(0)), Box::new(Tree::Leaf(1)))),
            Box::new(Tree::Leaf(2)),
        ) && (looser(b, a) || from_left(a, b)),
{
    counts(tree);
    assert(seq![a, b].len() == 2);
    match tree {
        Tree::Leaf(_) => {},
        Tree::Binary(op, left, right) => {
            counts(*left);
            counts(*right);
            let l = infix::operators(*left);
            let r = infix::operators(*right);
            let all = infix::operators(tree);
            assert(all == l + seq![op] + r);
            let x = infix::leaves(*left);
            let y = infix::leaves(*right);
            let places = infix::leaves(tree);
            assert(places == x + y);
            assert(places.len() == 3 && places[0] == 0 && places[1] == 1 && places[2] == 2);
            if l.len() == 0 {
                assert(all[0] == op);
                assert(r.len() == 1);
                assert(all[1] == r[0]);
                no_operator(*left);
                one_operator(*right);
                assert(x[0] == places[0]);
                assert(y[0] == places[1] && y[1] == places[2]);
            } else {
                assert(l.len() == 1);
                assert(r.len() == 0);
                assert(all[0] == l[0]);
                assert(all[1] == op);
                one_operator(*left);
                no_operator(*right);
                assert(x[0] == places[0] && x[1] == places[1]);
                assert(y[0] == places[2]);
            }
        },
        Tree::Chain(first, links) => {
            chain_counts(links);
            counts(*first);
            assert(links.len() == 2);
            let l = infix::operators(*first);
            assert(l.len() == 0);
            assert(infix::operators(tree) == l + infix::link_operators(links));
            let front = links.drop_last();
            chain_counts(front);
            assert(front.len() == 1);
            assert(front.drop_last() =~= Seq::empty());
            counts(links[0].1);
            counts(links[1].1);
            assert(front.last() == links[0]);
            assert(links.last() == links[1]);
            assert(infix::link_operators(front) =~= seq![links[0].0] + infix::operators(
                links[0].1,
            ));
            assert(infix::link_operators(links) == infix::link_operators(front)
                + seq![links[1].0] + infix::operators(links[1].1));
            let all = infix::operators(tree);
            assert(infix::operators(links[0].1).len() == 0);
            assert(all[0] == links[0].0);
            assert(all[1] == links[1].0);
            assert(links_grouped(links));
            assert(comparing(links[0].0) && comparing(links[1].0));
        },
    }
}

proof fn no_operator(tree: Tree)
    requires
        well_grouped(tree),
        infix::operators(tree).len() == 0,
    ensures
        tree == Tree::Leaf(infix::leaves(tree)[0]),
{
    match tree {
        Tree::Leaf(_) => {},
        Tree::Binary(op, left, right) => {
            let all = infix::operators(*left) + seq![op] + infix::operators(*right);
            assert(all.len() >= 1);
        },
        Tree::Chain(first, links) => {
            chain_counts(links);
        },
    }
}

proof fn one_operator(tree: Tree)
    requires
        well_grouped(tree),
        infix::operators(tree).len() == 1,
    ensures
        tree == Tree::Binary(
            infix::operators(tree)[0],
            Box::new(Tree::Leaf(infix::leaves(tree)[0])),
            Box::new(Tree::Leaf(infix::leaves(tree)[1])),
        ),
{
    match tree {
        Tree::Leaf(_) => {},
        Tree::Binary(op, left, right) => {
            let l = infix::operators(*left);
            let r = infix::operators(*right);
            assert(infix::operators(tree) == l + seq![op] + r);
            assert(l.len() == 0 && r.len() == 0);
            no_operator(*left);
            no_operator(*right);
            assert(infix::leaves(tree) == infix::leaves(*left) + infix::leaves(*right));
            assert(infix::operators(tree)[0] == op);
        },
        Tree::Chain(first, links) => {
            chain_counts(links);
        },
    }
}

/// A group has one operand more than it has operators.
proof fn counts(tree: Tree)
    ensures
        infix::leaves(tree).len() == infix::operators(tree).len() + 1,
    decreases tree,
{
    match tree {
        Tree::Leaf(_) => {},
        Tree::Binary(_, left, right) => {
            counts(*left);
            counts(*right);
        },
        Tree::Chain(first, links) => {
            counts(*first);
            chain_counts(links);
        },
    }
}

proof fn chain_counts(links: Seq<(SyntaxOperator, Tree)>)
    ensures
        infix::link_leaves(links).len() == infix::link_operators(links).len(),
        infix::link_operators(links).len() >= links.len(),
    decreases links,
{
    if links.len() > 0 {
        chain_counts(links.drop_last());
        counts(links.last().1);
    }
}

/// Whether a chain of two operators is accepted.
pub proof fn pair_is_resolved(a: SyntaxOperator, b: SyntaxOperator)
    ensures
        infix::resolved(seq![a, b]) is Ok <==> compatible(a, b),
{
    relations(a, b);
    relations(b, a);
    let ops = seq![a, b];
    assert(ops.drop_last() =~= seq![a]);
    assert(seq![a].drop_last() =~= Seq::empty());
    reveal_with_fuel(infix::stacked, 3);
    reveal_with_fuel(infix::shifted, 3);
}

/// Two operators of one kind group from the side that their kind gives, and
/// comparisons form a row.
pub proof fn peers_group_from_their_side(a: SyntaxOperator, b: SyntaxOperator)
    ensures
        from_left(a, b) ==> infix::resolved(seq![a, b]) == Ok::<Tree, Seq<char>>(
            Tree::Binary(
                b,
                Box::new(Tree::Binary(a, Box::new(Tree::Leaf(0)), Box::new(Tree::Leaf(1)))),
                Box::new(Tree::Leaf(2)),
            ),
        ),
        from_right(a, b) ==> infix::resolved(seq![a, b]) == Ok::<Tree, Seq<char>>(
            Tree::Binary(
                a,
                Box::new(Tree::Leaf(0)),
                Box::new(Tree::Binary(b, Box::new(Tree::Leaf(1)), Box::new(Tree::Leaf(2)))),
            ),
        ),
        comparing(a) && comparing(b) ==> infix::resolved(seq![a, b]) == Ok::<Tree, Seq<char>>(
            Tree::Chain(
                Box::new(Tree::Leaf(0)),
                seq![(a, Tree::Leaf(1)), (b, Tree::Leaf(2))],
            ),
        ),
{
    relations(a, b);
    relations(b, a);
    if from_left(a, b) || from_right(a, b) {
        pair_is_resolved(a, b);
        let x = seq![a, b];
        chains_are_well_grouped(x);
        infix::grouping_keeps_operands(x);
        infix::grouping_keeps_operators(x);
        pair_shape(infix::resolved(x)->Ok_0, a, b);
    }
    if comparing(a) && comparing(b) {
        let ops = seq![a, b];
        assert(ops.drop_last() =~= seq![a]);
        assert(seq![a].drop_last() =~= Seq::empty());
        reveal_with_fuel(infix::stacked, 3);
        reveal_with_fuel(infix::shifted, 3);
        reveal_with_fuel(infix::finished, 3);
        let tree = infix::resolved(ops)->Ok_0;
        let links = seq![(a, Tree::Leaf(1)), (b, Tree::Leaf(2))];
        assert(tree is Chain);
        assert(*tree->Chain_0 == Tree::Leaf(0));
        assert(tree->Chain_1 =~= links);
    }
}

/// A looser operator between two tighter ones is applied last: so `a == b and
/// c == d` is a conjunction of two comparisons.
pub proof fn looser_operators_separate(p: SyntaxOperator, m: SyntaxOperator, q: SyntaxOperator)
    requires
        looser(m, p),
        looser(m, q),
    ensures
        infix::resolved(seq![p, m, q]) == Ok::<Tree, Seq<char>>(
            Tree::Binary(
                m,
                Box::new(Tree::Binary(p, Box::new(Tree::Leaf(0)), Box::new(Tree::Leaf(1)))),
                Box::new(Tree::Binary(q, Box::new(Tree::Leaf(2)), Box::new(Tree::Leaf(3)))),
            ),
        ),
{
    relations(p, m);
    relations(m, p);
    relations(m, q);
    relations(q, m);
    let ops = seq![p, m, q];
    assert(ops.drop_last() =~= seq![p, m]);
    assert(seq![p, m].drop_last() =~= seq![p]);
    assert(seq![p].drop_last() =~= Seq::empty());
    reveal_with_fuel(infix::stacked, 4);
    reveal_with_fuel(infix::shifted, 3);
    reveal_with_fuel(infix::finished, 4);
    relations(q, q);
    relations(p, p);
}

/// Every operator of a list is compatible with every later one.
pub open spec fn all_compatible(ops: Seq<SyntaxOperator>) -> bool {
    forall|i: int, j: int|
        0 <= i < j < ops.len() ==> compatible(#[trigger] ops[i], #[trigger] ops[j])
}

proof fn shifted_keeps(st: Stack, op: SyntaxOperator, leaf: nat, ops: Seq<SyntaxOperator>)
    requires
        st.pieces.len() == st.ops.len() + 1,
        forall|i: int| 0 <= i < st.ops.len() ==> ops.contains(#[trigger] st.ops[i]),
        forall|i: int| 0 <= i < ops.len() ==> compatible(#[trigger] ops[i], op),
    ensures
        infix::shifted(st, op, leaf) is Ok,
        ({
            let after = infix::shifted(st, op, leaf)->Ok_0;
            &&& after.pieces.len() == after.ops.len() + 1
            &&& forall|i: int|
                0 <= i < after.ops.len() ==> ops.push(op).contains(#[trigger] after.ops[i])
        }),
    decreases st.ops.len(),
{
    let more = ops.push(op);
    assert forall|x: SyntaxOperator| #[trigger] ops.contains(x) implies more.contains(x) by {
        let i = choose|i: int| 0 <= i < ops.len() && ops[i] == x;
        assert(more[i] == x);
    }
    assert(more[ops.len() as int] == op);
    if st.ops.len() > 0 {
        let top = st.ops.last();
        assert(ops.contains(st.ops[st.ops.len() - 1]));
        let i = choose|i: int| 0 <= i < ops.len() && ops[i] == top;
        assert(compatible(ops[i], op));
        relations(top, op);
        relations(op, top);
        let less = infix::reduced(st);
        assert forall|k: int| 0 <= k < less.ops.len() implies ops.contains(
            #[trigger] less.ops[k],
        ) by {
            assert(less.ops[k] == st.ops[k]);
        }
        if infix::relation(top, op) != OperatorRelation::Weaker && infix::relation(top, op)
            != OperatorRelation::Same(Associativity::Right) {
            shifted_keeps(less, op, leaf, ops);
        } else {
            let after = infix::shifted(st, op, leaf)->Ok_0;
            assert forall|k: int| 0 <= k < after.ops.len() implies more.contains(
                #[trigger] after.ops[k],
            ) by {
                if k < st.ops.len() {
                    assert(after.ops[k] == st.ops[k]);
                }
            }
        }
    }
}

proof fn stacked_keeps(ops: Seq<SyntaxOperator>)
    requires
        all_compatible(ops),
    ensures
        infix::stacked(ops) matches Ok(st) && st.pieces.len() == st.ops.len() + 1 && forall|i: int|
            0 <= i < st.ops.len() ==> ops.contains(#[trigger] st.ops[i]),
    decreases ops.len(),
{
    if ops.len() > 0 {
        let front = ops.drop_last();
        assert forall|i: int, j: int| 0 <= i < j < front.len() implies compatible(
            #[trigger] front[i],
            #[trigger] front[j],
        ) by {
            assert(compatible(ops[i], ops[j]));
        }
        stacked_keeps(front);
        assert forall|i: int| 0 <= i < front.len() implies compatible(
            #[trigger] front[i],
            ops.last(),
        ) by {
            assert(compatible(ops[i], ops[ops.len() - 1]));
        }
        shifted_keeps(infix::stacked(front)->Ok_0, ops.last(), ops.len(), front);
        assert(front.push(ops.last()) =~= ops);
    }
}

/// A chain whose operators may all stand side by side is accepted.
pub proof fn compatible_chains_are_accepted(ops: Seq<SyntaxOperator>)
    requires
        all_compatible(ops),
    ensures
        infix::resolved(ops) is Ok,
{
    stacked_keeps(ops);
}

} // verus!
