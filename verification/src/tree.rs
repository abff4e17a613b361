//! The mathematical model of an S-expression and of its printed form.

use vstd::prelude::*;

verus! {

/// An S-expression as a mathematical value: strings are character sequences.
pub enum Tree {
    List(Seq<Tree>),
    Atom(Seq<char>),
    Raw(Seq<char>),
}

/// Atoms and raw fragments are leaves; lists are not.
pub open spec fn is_leaf(t: Tree) -> bool {
    !(t is List)
}

/// The printed text of a leaf.
pub open spec fn leaf_text(t: Tree) -> Seq<char> {
    match t {
        Tree::Atom(s) => s,
        Tree::Raw(s) => s,
        Tree::List(_) => Seq::empty(),
    }
}

/// The texts of the leaf children, in order.
pub open spec fn leaves_of(cs: Seq<Tree>) -> Seq<Seq<char>>
    decreases cs.len(),
{
    if cs.len() == 0 {
        Seq::empty()
    } else if is_leaf(cs.last()) {
        leaves_of(cs.drop_last()).push(leaf_text(cs.last()))
    } else {
        leaves_of(cs.drop_last())
    }
}

/// Texts separated by single spaces.
pub open spec fn spaced(ss: Seq<Seq<char>>) -> Seq<char>
    decreases ss.len(),
{
    if ss.len() == 0 {
        Seq::empty()
    } else if ss.len() == 1 {
        ss[0]
    } else {
        spaced(ss.drop_last()) + seq![' '] + ss.last()
    }
}

/// `n` spaces.
pub open spec fn spaces(n: nat) -> Seq<char> {
    Seq::new(n, |i: int| ' ')
}

/// The non-leaf children, each on its own line indented by `ind` spaces.
pub open spec fn rest_text(cs: Seq<Tree>, ind: nat) -> Seq<char>
    decreases cs,
{
    if cs.len() == 0 {
        Seq::empty()
    } else {
        rest_text(cs.drop_last(), ind) + (if is_leaf(cs.last()) {
            Seq::empty()
        } else {
            seq!['\n'] + spaces(ind) + render(cs.last(), ind)
        })
    }
}

/// The printed form of a tree at indentation `ind`: leaves are printed as
/// stored; a list prints its leaf children on the opening line, separated by
/// spaces, followed by each nested list on a new line indented two more spaces.
pub open spec fn render(t: Tree, ind: nat) -> Seq<char>
    decreases t,
{
    match t {
        Tree::Atom(s) => s,
        Tree::Raw(s) => s,
        Tree::List(cs) => seq!['('] + spaced(leaves_of(cs)) + rest_text(cs, ind + 2) + seq![')'],
    }
}

/// Nesting depth of lists.
pub open spec fn depth(t: Tree) -> nat
    decreases t,
{
    match t {
        Tree::List(cs) => 1 + depth_all(cs),
        _ => 0,
    }
}

pub open spec fn depth_all(cs: Seq<Tree>) -> nat
    decreases cs,
{
    if cs.len() == 0 {
        0
    } else {
        let a = depth_all(cs.drop_last());
        let b = depth(cs.last());
        if a >= b {
            a
        } else {
            b
        }
    }
}

pub proof fn lemma_depth_child(cs: Seq<Tree>, i: int)
    requires
        0 <= i < cs.len(),
    ensures
        depth(cs[i]) <= depth_all(cs),
    decreases cs.len(),
{
    if i < cs.len() - 1 {
        lemma_depth_child(cs.drop_last(), i);
    }
}

pub proof fn lemma_spaced_push(ss: Seq<Seq<char>>, x: Seq<char>)
    ensures
        spaced(ss.push(x)) == if ss.len() == 0 {
            x
        } else {
            spaced(ss) + seq![' '] + x
        },
{
    assert(ss.push(x).drop_last() =~= ss);
    if ss.len() == 0 {
        assert(ss.push(x)[0] == x);
    }
}

pub proof fn lemma_leaves_push(cs: Seq<Tree>, c: Tree)
    ensures
        leaves_of(cs.push(c)) == if is_leaf(c) {
            leaves_of(cs).push(leaf_text(c))
        } else {
            leaves_of(cs)
        },
{
    assert(cs.push(c).drop_last() =~= cs);
}

pub proof fn lemma_rest_push(cs: Seq<Tree>, c: Tree, ind: nat)
    ensures
        rest_text(cs.push(c), ind) == rest_text(cs, ind) + (if is_leaf(c) {
            Seq::empty()
        } else {
            seq!['\n'] + spaces(ind) + render(c, ind)
        }),
{
    assert(cs.push(c).drop_last() =~= cs);
}

} // verus!
