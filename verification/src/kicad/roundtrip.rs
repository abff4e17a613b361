//! The round trips between the writer and the reader: printing a
//! well-formed tree and reading the text back gives the same tree, and a
//! quoted string reads back as the string.

use vstd::prelude::*;

use crate::kicad::sexpr::{
    as_string_spec, cons_tok, escape, escape_char, is_delim, lex, lex_str, parse_expr_spec, parse_items_spec,
    parse_spec, prepend_toks, quoted, run_len, unescape, unquote, utf8_len, utf8_total, ParseError, Tok,
    lemma_utf8_one, lemma_utf8_total_concat,
};
use crate::text::is_ws;
use crate::tree::{is_leaf, leaf_text, leaves_of, render, rest_text, spaced, spaces, Tree};

verus! {

/// An unquoted atom that reads back as itself: non-empty, with no
/// whitespace, parenthesis, quote or `#`.
pub open spec fn is_plain_atom(a: Seq<char>) -> bool {
    a.len() > 0 && forall|i: int| 0 <= i < a.len() ==> !is_delim(#[trigger] a[i])
}

/// An atom written by `Sexpr::str`.
pub open spec fn is_quoted_atom(a: Seq<char>) -> bool {
    exists|s: Seq<char>| quoted(s) == a
}

/// Leaf children come before nested lists (the order in which lists are
/// printed).
pub open spec fn leaves_first(cs: Seq<Tree>) -> bool {
    forall|i: int, j: int| 0 <= i < j < cs.len() && !is_leaf(#[trigger] cs[i]) ==> !is_leaf(#[trigger] cs[j])
}

/// Trees that the writer prints in a form the reader gives back unchanged:
/// no raw fragments, every atom plain or quoted, and in every list the
/// leaves before the nested lists.
pub open spec fn well_formed(t: Tree) -> bool
    decreases t,
{
    match t {
        Tree::Atom(a) => is_plain_atom(a) || is_quoted_atom(a),
        Tree::Raw(_) => false,
        Tree::List(cs) => leaves_first(cs) && well_formed_all(cs),
    }
}

pub open spec fn well_formed_all(cs: Seq<Tree>) -> bool
    decreases cs,
{
    if cs.len() == 0 {
        true
    } else {
        well_formed_all(cs.drop_last()) && well_formed(cs.last())
    }
}

/// The tokens a well-formed tree is read as.
pub open spec fn tree_toks(t: Tree) -> Seq<Tok>
    decreases t,
{
    match t {
        Tree::Atom(a) => if is_plain_atom(a) {
            seq![Tok::Atom(a)]
        } else {
            seq![Tok::Str(choose|s: Seq<char>| quoted(s) == a)]
        },
        Tree::Raw(a) => seq![Tok::Atom(a)],
        Tree::List(cs) => seq![Tok::LParen] + toks_all(cs) + seq![Tok::RParen],
    }
}

pub open spec fn toks_all(cs: Seq<Tree>) -> Seq<Tok>
    decreases cs,
{
    if cs.len() == 0 {
        Seq::empty()
    } else {
        toks_all(cs.drop_last()) + tree_toks(cs.last())
    }
}

/// The children of a list printed one after the other, each preceded by
/// its separator.
pub open spec fn seq_text(cs: Seq<Tree>, ind: nat) -> Seq<char>
    decreases cs.len(),
{
    if cs.len() == 0 {
        Seq::empty()
    } else {
        seq_text(cs.drop_last(), ind) + piece(cs.last(), leaves_of(cs.drop_last()).len() > 0, ind)
    }
}

pub open spec fn piece(x: Tree, after_leaf: bool, ind: nat) -> Seq<char> {
    if is_leaf(x) {
        (if after_leaf {
            seq![' ']
        } else {
            Seq::empty()
        }) + leaf_text(x)
    } else {
        seq!['\n'] + spaces(ind) + render(x, ind)
    }
}

/// Text that starts where a token ends.
pub open spec fn delim_start(y: Seq<char>) -> bool {
    y.len() == 0 || is_ws(y[0]) || y[0] == '(' || y[0] == ')'
}

// ---------------------------------------------------------------------------
// Lexing
// ---------------------------------------------------------------------------

proof fn lemma_prepend_assoc(a: Seq<Tok>, b: Seq<Tok>, r: Result<Seq<Tok>, ParseError>)
    ensures
        prepend_toks(a, prepend_toks(b, r)) == prepend_toks(a + b, r),
{
    if let Ok(ts) = r {
        assert(a + (b + ts) =~= (a + b) + ts);
    }
}

proof fn lemma_lex_char(c: char, y: Seq<char>, b: nat)
    ensures
        c == '(' ==> lex(seq![c] + y, b) == prepend_toks(seq![Tok::LParen], lex(y, b + 1)),
        c == ')' ==> lex(seq![c] + y, b) == prepend_toks(seq![Tok::RParen], lex(y, b + 1)),
        is_ws(c) ==> lex(seq![c] + y, b) == lex(y, b + utf8_len(c)),
{
    let cs = seq![c] + y;
    assert(cs[0] == c);
    assert(cs.skip(1) =~= y);
}

proof fn lemma_lex_spaces(n: nat, y: Seq<char>, b: nat)
    ensures
        lex(spaces(n) + y, b) == lex(y, b + n),
        utf8_total(spaces(n)) == n,
    decreases n,
{
    if n == 0 {
        assert(spaces(0) + y =~= y);
        assert(spaces(0) =~= Seq::<char>::empty());
    } else {
        lemma_lex_spaces((n - 1) as nat, y, b + 1);
        assert(spaces(n) + y =~= seq![' '] + (spaces((n - 1) as nat) + y));
        lemma_lex_char(' ', spaces((n - 1) as nat) + y, b);
        assert(spaces(n).drop_last() =~= spaces((n - 1) as nat));
    }
}

proof fn lemma_run_len_plain(p: Seq<char>, y: Seq<char>)
    requires
        forall|i: int| 0 <= i < p.len() ==> !is_delim(#[trigger] p[i]),
        delim_start(y),
    ensures
        run_len(p + y) == p.len(),
    decreases p.len(),
{
    if p.len() == 0 {
        assert(p + y =~= y);
    } else {
        assert((p + y).skip(1) =~= p.skip(1) + y);
        assert(forall|i: int| 0 <= i < p.skip(1).len() ==> #[trigger] p.skip(1)[i] == p[i + 1]);
        lemma_run_len_plain(p.skip(1), y);
        assert((p + y)[0] == p[0]);
    }
}

proof fn lemma_lex_plain(a: Seq<char>, y: Seq<char>, b: nat)
    requires
        is_plain_atom(a),
        delim_start(y),
    ensures
        lex(a + y, b) == prepend_toks(seq![Tok::Atom(a)], lex(y, b + utf8_total(a))),
{
    let cs = a + y;
    assert(cs[0] == a[0]);
    assert(!is_delim(a[0]));
    assert(cs.skip(1) =~= a.skip(1) + y);
    assert(forall|i: int| 0 <= i < a.skip(1).len() ==> #[trigger] a.skip(1)[i] == a[i + 1]);
    lemma_run_len_plain(a.skip(1), y);
    assert(cs.take(a.len() as int) =~= a);
    assert(cs.skip(a.len() as int) =~= y);
}

proof fn lemma_escape_concat(s: Seq<char>, t: Seq<char>)
    ensures
        escape(s + t) == escape(s) + escape(t),
    decreases t.len(),
{
    if t.len() == 0 {
        assert(s + t =~= s);
        assert(escape(s) + escape(t) =~= escape(s));
    } else {
        lemma_escape_concat(s, t.drop_last());
        assert((s + t).drop_last() =~= s + t.drop_last());
        assert(escape(s) + escape(t) =~= escape(s) + escape(t.drop_last()) + escape_char(t.last()));
    }
}

proof fn lemma_escape_front(s: Seq<char>)
    requires
        s.len() > 0,
    ensures
        escape(s) == escape_char(s[0]) + escape(s.skip(1)),
{
    assert(s =~= seq![s[0]] + s.skip(1));
    lemma_escape_concat(seq![s[0]], s.skip(1));
    assert(seq![s[0]].drop_last() =~= Seq::<char>::empty());
    assert(escape(Seq::<char>::empty()) =~= Seq::<char>::empty());
    assert(escape(seq![s[0]]) =~= escape_char(s[0]));
}

proof fn lemma_lex_str_escaped(s: Seq<char>, y: Seq<char>, b: nat)
    ensures
        lex_str(escape(s) + seq!['"'] + y, b) == Ok::<(Seq<char>, nat), ParseError>((s, escape(s).len() + 1)),
    decreases s.len(),
{
    let cs = escape(s) + seq!['"'] + y;
    if s.len() == 0 {
        assert(escape(s) =~= Seq::<char>::empty());
        assert(cs[0] == '"');
        assert(s =~= Seq::<char>::empty());
    } else {
        let c = s[0];
        lemma_escape_front(s);
        let e = escape_char(c);
        let rest = escape(s.skip(1)) + seq!['"'] + y;
        assert(cs =~= e + rest);
        if c == '\\' || c == '"' || c == '\n' || c == '\t' || c == '\r' {
            assert(e.len() == 2);
            assert(cs[0] == e[0]);
            assert(e[0] == '\\');
            assert(cs[1] == e[1]);
            assert(unescape(e[1]) == Some(c));
            assert(cs.skip(2) =~= rest);
            lemma_lex_str_escaped(s.skip(1), y, b + 1 + utf8_len(cs[1]));
            assert(seq![c] + s.skip(1) =~= s);
            assert(lex_str(cs, b) == Ok::<(Seq<char>, nat), ParseError>((seq![c] + s.skip(1), escape(s.skip(1)).len() + 1 + 2)));
        } else {
            assert(e =~= seq![c]);
            assert(cs[0] == c);
            assert(cs.skip(1) =~= rest);
            lemma_lex_str_escaped(s.skip(1), y, b + utf8_len(c));
            assert(seq![c] + s.skip(1) =~= s);
        }
    }
}

proof fn lemma_lex_quoted(s: Seq<char>, y: Seq<char>, b: nat)
    ensures
        lex(quoted(s) + y, b) == prepend_toks(seq![Tok::Str(s)], lex(y, b + utf8_total(quoted(s)))),
{
    let cs = quoted(s) + y;
    assert(cs[0] == '"');
    assert(cs.skip(1) =~= escape(s) + seq!['"'] + y);
    lemma_lex_str_escaped(s, y, b + 1);
    let n = escape(s).len() + 1;
    assert(cs.skip(1 + n as int) =~= y);
    assert(cs.take(1 + n as int) =~= quoted(s));
}

proof fn lemma_all_leaves_rest(cs: Seq<Tree>, ind: nat)
    requires
        forall|i: int| 0 <= i < cs.len() ==> is_leaf(#[trigger] cs[i]),
    ensures
        rest_text(cs, ind) == Seq::<char>::empty(),
    decreases cs.len(),
{
    if cs.len() > 0 {
        lemma_all_leaves_rest(cs.drop_last(), ind);
        assert(is_leaf(cs[cs.len() - 1]));
        assert(rest_text(cs.drop_last(), ind) + Seq::<char>::empty() =~= Seq::<char>::empty());
    }
}

proof fn lemma_leaves_of_last(cs: Seq<Tree>)
    requires
        cs.len() > 0,
        is_leaf(cs.last()),
    ensures
        leaves_of(cs).len() > 0,
{
}

/// Printing the children in order gives the same text as printing the
/// leaves first and the lists after them, when the leaves come first.
proof fn lemma_seq_text(cs: Seq<Tree>, ind: nat)
    requires
        leaves_first(cs),
    ensures
        spaced(leaves_of(cs)) + rest_text(cs, ind) == seq_text(cs, ind),
    decreases cs.len(),
{
    if cs.len() == 0 {
        assert(spaced(leaves_of(cs)) + rest_text(cs, ind) =~= Seq::<char>::empty());
    } else {
        let init = cs.drop_last();
        let x = cs.last();
        assert(leaves_first(init)) by {
            assert forall|i: int, j: int| 0 <= i < j < init.len() && !is_leaf(#[trigger] init[i]) implies !is_leaf(#[trigger] init[j]) by {
                assert(init[i] == cs[i]);
                assert(init[j] == cs[j]);
            }
        }
        lemma_seq_text(init, ind);
        if is_leaf(x) {
            assert forall|i: int| 0 <= i < init.len() implies is_leaf(#[trigger] init[i]) by {
                assert(init[i] == cs[i]);
                if !is_leaf(cs[i]) {
                    assert(!is_leaf(cs[cs.len() - 1]));
                }
            }
            lemma_all_leaves_rest(init, ind);
            assert forall|i: int| 0 <= i < cs.len() implies is_leaf(#[trigger] cs[i]) by {
                if i < init.len() {
                    assert(init[i] == cs[i]);
                }
            }
            lemma_all_leaves_rest(cs, ind);
            let ls = leaves_of(init);
            assert(leaves_of(cs) == ls.push(leaf_text(x)));
            if ls.len() == 0 {
                assert(ls.push(leaf_text(x)).drop_last() =~= ls);
                assert(spaced(ls.push(leaf_text(x))) == ls.push(leaf_text(x))[0]);
                assert(spaced(ls) =~= Seq::<char>::empty());
                assert(seq_text(cs, ind) =~= seq_text(init, ind) + leaf_text(x));
                assert(spaced(leaves_of(cs)) + rest_text(cs, ind) =~= seq_text(cs, ind));
            } else {
                assert(ls.push(leaf_text(x)).drop_last() =~= ls);
                assert(spaced(leaves_of(cs)) + rest_text(cs, ind) =~= seq_text(cs, ind));
            }
        } else {
            assert(spaced(leaves_of(cs)) + rest_text(cs, ind) =~= seq_text(cs, ind));
        }
    }
}

proof fn lemma_utf8_total_three(a: Seq<char>, b: Seq<char>, c: Seq<char>)
    ensures
        utf8_total(a + b + c) == utf8_total(a) + utf8_total(b) + utf8_total(c),
{
    lemma_utf8_total_concat(a + b, c);
    lemma_utf8_total_concat(a, b);
}

/// Lexing the printed form of a well-formed tree gives its tokens.
pub proof fn lemma_lex_render(t: Tree, ind: nat, y: Seq<char>, b: nat)
    requires
        well_formed(t),
        t is List || delim_start(y),
    ensures
        lex(render(t, ind) + y, b) == prepend_toks(tree_toks(t), lex(y, b + utf8_total(render(t, ind)))),
    decreases t, 0nat,
{
    match t {
        Tree::Atom(a) => {
            lemma_lex_atom(a, y, b);
        },
        Tree::Raw(_) => {},
        Tree::List(cs) => {
            lemma_lex_list(cs, ind, y, b);
        },
    }
}

/// Lexing the children printed in order gives their tokens in order.
pub proof fn lemma_lex_seq(cs: Seq<Tree>, ind: nat, y: Seq<char>, b: nat)
    requires
        well_formed_all(cs),
        cs.len() > 0 && is_leaf(cs.last()) ==> delim_start(y),
    ensures
        lex(seq_text(cs, ind) + y, b) == prepend_toks(toks_all(cs), lex(y, b + utf8_total(seq_text(cs, ind)))),
    decreases cs, 2nat,
{
    if cs.len() == 0 {
        assert(seq_text(cs, ind) + y =~= y);
        assert(seq_text(cs, ind) =~= Seq::<char>::empty());
        if let Ok(ts) = lex(y, b) {
            assert(toks_all(cs) + ts =~= ts);
        }
    } else {
        let init = cs.drop_last();
        let x = cs.last();
        let after = leaves_of(init).len() > 0;
        let p = piece(x, after, ind);
        let st0 = seq_text(init, ind);
        assert(seq_text(cs, ind) + y =~= st0 + (p + y));
        // the piece starts with a separator unless it is the very first
        if init.len() > 0 && is_leaf(init.last()) {
            lemma_leaves_of_last(init);
            assert((p + y)[0] == p[0]);
            if is_leaf(x) {
                assert(p[0] == ' ');
            } else {
                assert(p[0] == '\n');
            }
        }
        lemma_lex_seq(init, ind, p + y, b);
        let b1 = b + utf8_total(st0);
        lemma_lex_piece(x, after, ind, y, b1);
        lemma_utf8_total_concat(st0, p);
        lemma_prepend_assoc(toks_all(init), tree_toks(x), lex(y, b1 + utf8_total(p)));
    }
}

/// Lexing one printed child, with its separator, gives its tokens.
proof fn lemma_lex_piece(x: Tree, after: bool, ind: nat, y: Seq<char>, b1: nat)
    requires
        well_formed(x),
        is_leaf(x) ==> delim_start(y),
    ensures
        lex(piece(x, after, ind) + y, b1) == prepend_toks(tree_toks(x), lex(y, b1 + utf8_total(piece(x, after, ind)))),
    decreases x, 1nat,
{
    let p = piece(x, after, ind);
    if is_leaf(x) {
        let sep: Seq<char> = if after { seq![' '] } else { Seq::empty() };
        assert(p + y =~= sep + (leaf_text(x) + y));
        if after {
            lemma_lex_char(' ', leaf_text(x) + y, b1);
            assert(sep.drop_last() =~= Seq::<char>::empty());
        } else {
            assert(sep + (leaf_text(x) + y) =~= leaf_text(x) + y);
        }
        assert(render(x, ind) == leaf_text(x));
        lemma_lex_render(x, ind, y, b1 + utf8_total(sep));
        assert(p =~= sep + leaf_text(x));
        lemma_utf8_total_concat(sep, leaf_text(x));
        lemma_utf8_one(' ');
        if !after {
            assert(utf8_total(sep) == 0);
        }
    } else {
        assert(p + y =~= seq!['\n'] + (spaces(ind) + (render(x, ind) + y)));
        lemma_lex_char('\n', spaces(ind) + (render(x, ind) + y), b1);
        lemma_lex_spaces(ind, render(x, ind) + y, b1 + 1);
        lemma_lex_render(x, ind, y, b1 + 1 + ind);
        lemma_utf8_total_three(seq!['\n'], spaces(ind), render(x, ind));
        assert(p =~= seq!['\n'] + spaces(ind) + render(x, ind));
        lemma_utf8_one('\n');
    }
}

proof fn lemma_lex_atom(a: Seq<char>, y: Seq<char>, b: nat)
    requires
        is_plain_atom(a) || is_quoted_atom(a),
        delim_start(y),
    ensures
        lex(a + y, b) == prepend_toks(tree_toks(Tree::Atom(a)), lex(y, b + utf8_total(a))),
{
    if is_plain_atom(a) {
        lemma_lex_plain(a, y, b);
    } else {
        let s = choose|s: Seq<char>| quoted(s) == a;
        assert(quoted(s) == a);
        assert(tree_toks(Tree::Atom(a)) == seq![Tok::Str(s)]);
        lemma_lex_quoted(s, y, b);
    }
}

proof fn lemma_lex_list(cs: Seq<Tree>, ind: nat, y: Seq<char>, b: nat)
    requires
        leaves_first(cs),
        well_formed_all(cs),
    ensures
        lex(render(Tree::List(cs), ind) + y, b) == prepend_toks(tree_toks(Tree::List(cs)), lex(y, b + utf8_total(render(Tree::List(cs), ind)))),
    decreases cs, 3nat,
{
    let t = Tree::List(cs);
    let st = seq_text(cs, ind + 2);
    lemma_seq_text(cs, ind + 2);
    assert(render(t, ind) =~= seq!['('] + st + seq![')']);
    assert(render(t, ind) + y =~= seq!['('] + (st + (seq![')'] + y)));
    lemma_lex_char('(', st + (seq![')'] + y), b);
    lemma_lex_seq(cs, ind + 2, seq![')'] + y, b + 1);
    lemma_lex_char(')', y, b + 1 + utf8_total(st));
    lemma_prepend_assoc(toks_all(cs), seq![Tok::RParen], lex(y, b + 1 + utf8_total(st) + 1));
    lemma_prepend_assoc(seq![Tok::LParen], toks_all(cs) + seq![Tok::RParen], lex(y, b + 1 + utf8_total(st) + 1));
    assert(seq![Tok::LParen] + (toks_all(cs) + seq![Tok::RParen]) =~= tree_toks(t));
    lemma_utf8_total_three(seq!['('], st, seq![')']);
    lemma_utf8_one('(');
    lemma_utf8_one(')');
}

// ---------------------------------------------------------------------------
// Parsing
// ---------------------------------------------------------------------------

proof fn lemma_wf_child(cs: Seq<Tree>, i: int)
    requires
        well_formed_all(cs),
        0 <= i < cs.len(),
    ensures
        well_formed(cs[i]),
    decreases cs.len(),
{
    if i < cs.len() - 1 {
        lemma_wf_child(cs.drop_last(), i);
    }
}

proof fn lemma_wf_all_intro(cs: Seq<Tree>)
    requires
        forall|i: int| 0 <= i < cs.len() ==> well_formed(#[trigger] cs[i]),
    ensures
        well_formed_all(cs),
    decreases cs.len(),
{
    if cs.len() > 0 {
        assert forall|i: int| 0 <= i < cs.drop_last().len() implies well_formed(#[trigger] cs.drop_last()[i]) by {
            assert(cs.drop_last()[i] == cs[i]);
        }
        lemma_wf_all_intro(cs.drop_last());
    }
}

proof fn lemma_toks_all_concat(a: Seq<Tree>, b: Seq<Tree>)
    ensures
        toks_all(a + b) == toks_all(a) + toks_all(b),
    decreases b.len(),
{
    if b.len() == 0 {
        assert(a + b =~= a);
        assert(toks_all(a) + toks_all(b) =~= toks_all(a));
    } else {
        lemma_toks_all_concat(a, b.drop_last());
        assert((a + b).drop_last() =~= a + b.drop_last());
        assert(toks_all(a) + toks_all(b) =~= toks_all(a) + toks_all(b.drop_last()) + tree_toks(b.last()));
    }
}

proof fn lemma_toks_all_front(cs: Seq<Tree>, k: int)
    requires
        0 <= k < cs.len(),
    ensures
        toks_all(cs.skip(k)) == tree_toks(cs[k]) + toks_all(cs.skip(k + 1)),
{
    assert(cs.skip(k) =~= seq![cs[k]] + cs.skip(k + 1));
    lemma_toks_all_concat(seq![cs[k]], cs.skip(k + 1));
    assert(seq![cs[k]].drop_last() =~= Seq::<Tree>::empty());
    assert(toks_all(Seq::<Tree>::empty()) =~= Seq::<Tok>::empty());
    assert(seq![cs[k]].last() == cs[k]);
    assert(toks_all(seq![cs[k]]) =~= Seq::<Tok>::empty() + tree_toks(cs[k]));
    assert(toks_all(seq![cs[k]]) =~= tree_toks(cs[k]));
}

proof fn lemma_tree_toks_head(t: Tree)
    ensures
        tree_toks(t).len() >= 1,
        !(tree_toks(t)[0] is RParen),
{
}

/// Parsing the tokens of a well-formed tree gives the tree back.
proof fn lemma_parse_tree(t: Tree, ts: Seq<Tok>, pos: int)
    requires
        0 <= pos,
        well_formed(t),
        pos + tree_toks(t).len() <= ts.len(),
        ts.subrange(pos, pos + tree_toks(t).len()) == tree_toks(t),
    ensures
        parse_expr_spec(ts, pos as nat) == Ok::<(Tree, nat), ParseError>((t, (pos + tree_toks(t).len()) as nat)),
    decreases t, 0nat,
{
    let tt = tree_toks(t);
    assert(ts[pos] == tt[0]);
    match t {
        Tree::Atom(a) => {
            if !is_plain_atom(a) {
                let s = choose|s: Seq<char>| quoted(s) == a;
                assert(quoted(s) == a);
            }
        },
        Tree::Raw(_) => {},
        Tree::List(cs) => {
            let inner = toks_all(cs);
            assert(cs.skip(0) =~= cs);
            assert(cs.take(0) =~= Seq::<Tree>::empty());
            assert(ts.subrange(pos + 1, pos + 1 + inner.len() + 1) =~= inner + seq![Tok::RParen]) by {
                assert(tt =~= seq![Tok::LParen] + inner + seq![Tok::RParen]);
                assert forall|i: int| 0 <= i < inner.len() + 1 implies #[trigger] ts.subrange(pos + 1, pos + 1 + inner.len() + 1)[i] == (inner + seq![Tok::RParen])[i] by {
                    assert(ts.subrange(pos + 1, pos + 1 + inner.len() + 1)[i] == ts[pos + 1 + i]);
                    assert(ts[pos + 1 + i] == ts.subrange(pos, pos + tt.len())[1 + i]);
                }
            }
            lemma_parse_items(cs, 0, ts, pos + 1);
        },
    }
}

proof fn lemma_parse_items(cs: Seq<Tree>, k: int, ts: Seq<Tok>, p: int)
    requires
        0 <= p,
        0 <= k,
        well_formed_all(cs),
        k <= cs.len(),
        p + toks_all(cs.skip(k)).len() + 1 <= ts.len(),
        ts.subrange(p, p + toks_all(cs.skip(k)).len() + 1) == toks_all(cs.skip(k)) + seq![Tok::RParen],
    ensures
        parse_items_spec(ts, p as nat, cs.take(k)) == Ok::<(Tree, nat), ParseError>((Tree::List(cs), (p + toks_all(cs.skip(k)).len() + 1) as nat)),
    decreases cs, cs.len() - k,
{
    let rest = toks_all(cs.skip(k));
    if k == cs.len() {
        assert(cs.skip(k) =~= Seq::<Tree>::empty());
        assert(rest.len() == 0);
        assert(ts[p] == ts.subrange(p, p + 1)[0]);
        assert(cs.take(k) =~= cs);
    } else {
        lemma_toks_all_front(cs, k);
        let x = cs[k];
        let tx = tree_toks(x);
        let r2 = toks_all(cs.skip(k + 1));
        lemma_wf_child(cs, k);
        lemma_tree_toks_head(x);
        assert(ts[p] == ts.subrange(p, p + rest.len() + 1)[0]);
        assert(ts.subrange(p, p + rest.len() + 1)[0] == tx[0]);
        assert(ts.subrange(p, p + tx.len()) =~= tx) by {
            assert forall|i: int| 0 <= i < tx.len() implies #[trigger] ts.subrange(p, p + tx.len())[i] == tx[i] by {
                assert(ts.subrange(p, p + rest.len() + 1)[i] == ts[p + i]);
                assert((rest + seq![Tok::RParen])[i] == tx[i]);
            }
        }
        lemma_parse_tree(x, ts, p);
        assert(ts.subrange(p + tx.len(), p + tx.len() + r2.len() + 1) =~= r2 + seq![Tok::RParen]) by {
            assert forall|i: int| 0 <= i < r2.len() + 1 implies #[trigger] ts.subrange(p + tx.len(), p + tx.len() + r2.len() + 1)[i] == (r2 + seq![Tok::RParen])[i] by {
                assert(ts.subrange(p, p + rest.len() + 1)[tx.len() + i] == ts[p + tx.len() + i]);
                assert((rest + seq![Tok::RParen])[tx.len() + i] == (r2 + seq![Tok::RParen])[i]);
            }
        }
        assert(cs.take(k).push(x) =~= cs.take(k + 1));
        lemma_parse_items(cs, k + 1, ts, p + tx.len());
    }
}

/// Round trip: printing a well-formed tree and parsing the text gives the
/// same tree back.
pub proof fn law_parse_render(t: Tree)
    requires
        well_formed(t),
    ensures
        parse_spec(render(t, 0)) == Ok::<Tree, ParseError>(t),
{
    let text = render(t, 0);
    lemma_lex_render(t, 0, Seq::empty(), 0);
    assert(text + Seq::<char>::empty() =~= text);
    assert(lex(Seq::<char>::empty(), utf8_total(text)) == Ok::<Seq<Tok>, ParseError>(Seq::empty()));
    let tt = tree_toks(t);
    assert(tt + Seq::<Tok>::empty() =~= tt);
    assert(tt.subrange(0, tt.len() as int) =~= tt);
    lemma_parse_tree(t, tt, 0);
}


/// Reading back the escaped text of a string gives the string.
proof fn lemma_unquote_escape(s: Seq<char>)
    ensures
        unquote(escape(s)) == s,
    decreases s.len(),
{
    if s.len() == 0 {
        assert(escape(s) =~= Seq::<char>::empty());
        assert(s =~= Seq::<char>::empty());
    } else {
        let c = s[0];
        let rest = s.skip(1);
        lemma_unquote_escape(rest);
        lemma_escape_front(s);
        let e = escape(s);
        let er = escape(rest);
        if c == '\\' || c == '"' || c == '\n' || c == '\t' || c == '\r' {
            assert(e == escape_char(c) + er);
            assert(e[0] == '\\');
            assert(unescape(e[1]) == Some(c));
            assert(e.skip(2) =~= er);
        } else {
            assert(escape_char(c) == seq![c]);
            assert(e == seq![c] + er);
            assert(e[0] == c);
            assert(e.skip(1) =~= er);
        }
        assert(seq![c] + rest =~= s);
    }
}

/// Quoting a string (as `Sexpr::str` does) and reading the atom back (as
/// `Sexpr::as_string` does) gives the string.
pub proof fn law_quoted_reads_back(s: Seq<char>)
    ensures
        as_string_spec(Tree::Atom(quoted(s))) == s,
{
    let q = quoted(s);
    assert(q.len() >= 2);
    assert(q[0] == '"');
    assert(q.last() == '"');
    assert(q.subrange(1, q.len() - 1) =~= escape(s));
    lemma_unquote_escape(s);
}

} // verus!
