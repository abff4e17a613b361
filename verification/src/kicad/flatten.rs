//! Flattening a symbol that extends another into a self-contained one: the
//! `extends` node dropped, the parent's units and graphics copied in under
//! the child's name, and the conversions of each unit merged into one.

use vstd::prelude::*;

use crate::kicad::sexpr::{copy_sexpr, lemma_view_all, lemma_view_all_push, quoted, view_all, Sexpr};
use crate::kicad::sym_lib::{
    defs_view, find_symbol, first_named, first_named_from, headed, is_headed, strip_library, symbol_name, SymbolDef, SymbolDefView,
};
use crate::text::{
    all_digits, chars_of, decimal, digits_value, has_prefix, is_ascii_digit_spec, last_index_of, lemma_digits_value_mono,
    lemma_last_index_of, push_char, push_str, rfind_char, starts_with, str_eq, string_of_range, u64_to_string,
};
use crate::tree::Tree;

verus! {

broadcast use vstd::string::group_string_axioms;

/// Whether two nodes are the same tree.
pub fn same_sexpr(a: &Sexpr, b: &Sexpr) -> (r: bool)
    ensures
        r == (a@ == b@),
    decreases a@,
{
    match (a, b) {
        (Sexpr::List(xs), Sexpr::List(ys)) => {
            proof {
                lemma_view_all(xs@);
                lemma_view_all(ys@);
            }
            if xs.len() != ys.len() {
                return false;
            }
            let mut i: usize = 0;
            while i < xs.len()
                invariant
                    i <= xs@.len(),
                    xs@.len() == ys@.len(),
                    *a == Sexpr::List(*xs),
                    *b == Sexpr::List(*ys),
                    view_all(xs@).len() == xs@.len(),
                    view_all(ys@).len() == ys@.len(),
                    forall|k: int| 0 <= k < xs@.len() ==> #[trigger] view_all(xs@)[k] == xs@[k]@,
                    forall|k: int| 0 <= k < ys@.len() ==> #[trigger] view_all(ys@)[k] == ys@[k]@,
                    forall|k: int| 0 <= k < i ==> xs@[k]@ == ys@[k]@,
                decreases xs@.len() - i,
            {
                proof {
                    let ts = view_all(xs@);
                    assert(a@ == Tree::List(ts));
                    assert(decreases_to!(a@ => a@->List_0));
                    assert(decreases_to!(ts => ts[i as int]));
                }
                if !same_sexpr(&xs[i], &ys[i]) {
                    assert(view_all(xs@)[i as int] != view_all(ys@)[i as int]);
                    return false;
                }
                i = i + 1;
            }
            assert(view_all(xs@) =~= view_all(ys@));
            true
        },
        (Sexpr::Atom(x), Sexpr::Atom(y)) => str_eq(x.as_str(), y.as_str()),
        (Sexpr::Raw(x), Sexpr::Raw(y)) => str_eq(x.as_str(), y.as_str()),
        _ => false,
    }
}

/// Whether one of `v` is the same tree as `x`.
fn holds_node(v: &Vec<Sexpr>, x: &Sexpr) -> (r: bool)
    ensures
        r == view_all(v@).contains(x@),
{
    proof {
        lemma_view_all(v@);
    }
    let mut k: usize = 0;
    while k < v.len()
        invariant
            k <= v@.len(),
            view_all(v@).len() == v@.len(),
            forall|m: int| 0 <= m < v@.len() ==> #[trigger] view_all(v@)[m] == v@[m]@,
            forall|m: int| 0 <= m < k ==> view_all(v@)[m] != x@,
        decreases v@.len() - k,
    {
        if same_sexpr(&v[k], x) {
            assert(view_all(v@)[k as int] == x@);
            return true;
        }
        k = k + 1;
    }
    false
}

/// `s` without its leading `"` characters.
pub open spec fn trim_start_quotes(s: Seq<char>) -> Seq<char>
    decreases s.len(),
{
    if s.len() > 0 && s[0] == '"' {
        trim_start_quotes(s.skip(1))
    } else {
        s
    }
}

/// `s` without its trailing `"` characters.
pub open spec fn trim_end_quotes(s: Seq<char>) -> Seq<char>
    decreases s.len(),
{
    if s.len() > 0 && s.last() == '"' {
        trim_end_quotes(s.drop_last())
    } else {
        s
    }
}

/// `s` without the `"` characters at either end (`str::trim_matches`).
pub open spec fn trim_quotes(s: Seq<char>) -> Seq<char> {
    trim_end_quotes(trim_start_quotes(s))
}

proof fn lemma_trim_start(s: Seq<char>, lo: int)
    requires
        0 <= lo <= s.len(),
        forall|k: int| 0 <= k < lo ==> s[k] == '"',
        lo == s.len() || s[lo] != '"',
    ensures
        trim_start_quotes(s) == s.skip(lo),
    decreases lo,
{
    if lo > 0 {
        lemma_trim_start(s.skip(1), lo - 1);
        assert(s.skip(1).skip(lo - 1) =~= s.skip(lo));
    } else {
        assert(s.skip(0) =~= s);
    }
}

proof fn lemma_trim_end(s: Seq<char>, hi: int)
    requires
        0 <= hi <= s.len(),
        forall|k: int| hi <= k < s.len() ==> s[k] == '"',
        hi == 0 || s[hi - 1] != '"',
    ensures
        trim_end_quotes(s) == s.take(hi),
    decreases s.len() - hi,
{
    if hi < s.len() {
        lemma_trim_end(s.drop_last(), hi);
        assert(s.drop_last().take(hi) =~= s.take(hi));
    } else {
        assert(s.take(hi) =~= s);
    }
}

/// `s` without the `"` characters at either end (see [`trim_quotes`]).
pub fn trim_quote_chars(s: &str) -> (r: Vec<char>)
    ensures
        r@ == trim_quotes(s@),
{
    let cs = chars_of(s);
    let mut lo: usize = 0;
    while lo < cs.len() && cs[lo] == '"'
        invariant
            lo <= cs@.len(),
            forall|k: int| 0 <= k < lo ==> cs@[k] == '"',
        decreases cs@.len() - lo,
    {
        lo = lo + 1;
    }
    proof {
        lemma_trim_start(cs@, lo as int);
    }
    let t = crate::text::chars_range(&cs, lo, cs.len());
    let mut hi: usize = t.len();
    while hi > 0 && t[hi - 1] == '"'
        invariant
            hi <= t@.len(),
            forall|k: int| hi <= k < t@.len() ==> t@[k] == '"',
        decreases hi,
    {
        hi = hi - 1;
    }
    proof {
        lemma_trim_end(t@, hi as int);
        assert(t@ =~= cs@.skip(lo as int));
    }
    crate::text::chars_range(&t, 0, hi)
}


/// Whether `t` is an `(extends …)` node.
pub open spec fn is_extends_node(t: Tree) -> bool {
    t matches Tree::List(ps) && ps.len() >= 2 && ps[0] == Tree::Atom("extends"@)
}

/// `cs` without its `(extends …)` nodes.
pub open spec fn without_extends(cs: Seq<Tree>) -> Seq<Tree>
    decreases cs.len(),
{
    if cs.len() == 0 {
        Seq::empty()
    } else if is_extends_node(cs.last()) {
        without_extends(cs.drop_last())
    } else {
        without_extends(cs.drop_last()).push(cs.last())
    }
}

/// Whether `t` is a unit sub-symbol, a graphic or a pin of a symbol: a list
/// of two or more headed by `symbol`, `polyline`, `rectangle`, `circle`,
/// `arc` or `pin`.
pub open spec fn is_unit_or_graphic(t: Tree) -> bool {
    t matches Tree::List(ps) && ps.len() >= 2 && (headed(t, "symbol"@) || headed(t, "polyline"@) || headed(
        t,
        "rectangle"@,
    ) || headed(t, "circle"@) || headed(t, "arc"@) || headed(t, "pin"@))
}

/// The name of a unit sub-symbol `(symbol "<name>" …)`, its quotes trimmed.
pub open spec fn unit_name(t: Tree) -> Option<Seq<char>> {
    match t {
        Tree::List(ps) => if ps.len() >= 2 && headed(t, "symbol"@) {
            match ps[1] {
                Tree::Atom(n) => Some(trim_quotes(n)),
                _ => None,
            }
        } else {
            None
        },
        _ => None,
    }
}

/// `t` with a unit name that begins with `from` renamed to begin with `to`.
pub open spec fn renamed(t: Tree, from: Seq<char>, to: Seq<char>) -> Tree {
    match unit_name(t) {
        Some(n) => if has_prefix(n, from) {
            Tree::List(t->List_0.update(1, Tree::Atom(quoted(to + n.skip(from.len() as int)))))
        } else {
            t
        },
        None => t,
    }
}

/// `acc` with the units, graphics and pins among `pcs` added in order,
/// renamed from `from` to `to`, each unless `acc` already holds it.
pub open spec fn add_parent_nodes(acc: Seq<Tree>, pcs: Seq<Tree>, from: Seq<char>, to: Seq<char>) -> Seq<Tree>
    decreases pcs.len(),
{
    if pcs.len() == 0 {
        acc
    } else {
        let a = add_parent_nodes(acc, pcs.drop_last(), from, to);
        let p = pcs.last();
        if is_unit_or_graphic(p) && !a.contains(renamed(p, from, to)) {
            a.push(renamed(p, from, to))
        } else {
            a
        }
    }
}

/// The unit name of `node` (see [`unit_name`]).
fn read_unit_name(node: &Sexpr) -> (r: Option<Vec<char>>)
    ensures
        match unit_name(node@) {
            Some(n) => r matches Some(v) && v@ == n,
            None => r is None,
        },
{
    if !is_headed(node, "symbol") {
        return None;
    }
    match node {
        Sexpr::List(ps) => {
            proof {
                lemma_view_all(ps@);
            }
            if ps.len() < 2 {
                return None;
            }
            match &ps[1] {
                Sexpr::Atom(n) => Some(trim_quote_chars(n.as_str())),
                _ => None,
            }
        },
        _ => None,
    }
}

/// `node` renamed from `from` to `to` (see [`renamed`]).
fn rename_unit(node: &Sexpr, from: &Vec<char>, to: &Vec<char>) -> (r: Sexpr)
    ensures
        r@ == renamed(node@, from@, to@),
{
    let n = match read_unit_name(node) {
        Some(n) => n,
        None => {
            return copy_sexpr(node);
        },
    };
    if !starts_with(&n, from) {
        return copy_sexpr(node);
    }
    match node {
        Sexpr::List(ps) => {
            proof {
                lemma_view_all(ps@);
            }
            let ghost ts = view_all(ps@);
            let mut name = crate::text::string_of(to.as_slice());
            let rest = string_of_range(&n, from.len(), n.len());
            push_str(&mut name, rest.as_str());
            let mut out: Vec<Sexpr> = Vec::new();
            out.push(copy_sexpr(&ps[0]));
            out.push(Sexpr::str(name.as_str()));
            let mut k: usize = 2;
            while k < ps.len()
                invariant
                    2 <= k <= ps@.len(),
                    ts == view_all(ps@),
                    ts.len() == ps@.len(),
                    forall|m: int| 0 <= m < ps@.len() ==> #[trigger] ts[m] == ps@[m]@,
                    out@.len() == k,
                    out@[0]@ == ts[0],
                    out@[1]@ == Tree::Atom(quoted(to@ + n@.skip(from@.len() as int))),
                    forall|m: int| 2 <= m < k ==> #[trigger] out@[m]@ == ts[m],
                decreases ps@.len() - k,
            {
                out.push(copy_sexpr(&ps[k]));
                k = k + 1;
            }
            proof {
                lemma_view_all(out@);
                let new_ts = ts.update(1, Tree::Atom(quoted(to@ + n@.skip(from@.len() as int))));
                assert forall|m: int| 0 <= m < ts.len() implies view_all(out@)[m] == new_ts[m] by {
                    assert(view_all(out@)[m] == out@[m]@);
                    if m >= 2 {
                        assert(out@[m]@ == ts[m]);
                    }
                }
                assert(view_all(out@) =~= new_ts);
            }
            Sexpr::List(out)
        },
        _ => copy_sexpr(node),
    }
}

/// Whether `node` is a unit, a graphic or a pin (see [`is_unit_or_graphic`]).
fn unit_or_graphic(node: &Sexpr) -> (b: bool)
    ensures
        b == is_unit_or_graphic(node@),
{
    match node {
        Sexpr::List(ps) => {
            proof {
                lemma_view_all(ps@);
            }
            ps.len() >= 2 && (is_headed(node, "symbol") || is_headed(node, "polyline") || is_headed(
                node,
                "rectangle",
            ) || is_headed(node, "circle") || is_headed(node, "arc") || is_headed(node, "pin"))
        },
        _ => false,
    }
}


/// What `str::parse::<i64>` returns: an optional `+` or `-`, then one or
/// more ASCII digits whose value, signed, fits in `i64`.
pub open spec fn parse_i64_spec(cs: Seq<char>) -> Option<int> {
    let neg = cs.len() > 0 && cs[0] == '-';
    let ds = if cs.len() > 0 && (cs[0] == '-' || cs[0] == '+') {
        cs.skip(1)
    } else {
        cs
    };
    if ds.len() > 0 && all_digits(ds) && digits_value(ds) <= (if neg {
        0x8000_0000_0000_0000nat
    } else {
        0x7fff_ffff_ffff_ffffnat
    }) {
        Some(if neg {
            -(digits_value(ds) as int)
        } else {
            digits_value(ds) as int
        })
    } else {
        None
    }
}

/// Parses a decimal `i64` with the rules of `str::parse::<i64>`.
pub fn parse_i64(cs: &[char]) -> (r: Option<i64>)
    ensures
        match parse_i64_spec(cs@) {
            Some(v) => r == Some(v as i64),
            None => r is None,
        },
{
    let neg = cs.len() > 0 && cs[0] == '-';
    let start: usize = if cs.len() > 0 && (cs[0] == '-' || cs[0] == '+') { 1 } else { 0 };
    let limit: u64 = if neg { 0x8000_0000_0000_0000 } else { 0x7fff_ffff_ffff_ffff };
    let ghost ds = if cs@.len() > 0 && (cs@[0] == '-' || cs@[0] == '+') { cs@.skip(1) } else { cs@ };
    assert(ds =~= cs@.skip(start as int));
    if start >= cs.len() {
        return None;
    }
    let mut v: u64 = 0;
    let mut i = start;
    while i < cs.len()
        invariant
            start <= i <= cs@.len(),
            start <= 1,
            ds =~= cs@.skip(start as int),
            ds == (if cs@.len() > 0 && (cs@[0] == '-' || cs@[0] == '+') { cs@.skip(1) } else { cs@ }),
            neg == (cs@.len() > 0 && cs@[0] == '-'),
            limit == (if neg { 0x8000_0000_0000_0000u64 } else { 0x7fff_ffff_ffff_ffffu64 }),
            all_digits(ds.take(i - start)),
            v == digits_value(ds.take(i - start)),
            v <= limit,
        decreases cs@.len() - i,
    {
        let c = cs[i];
        let ghost k = (i - start) as int;
        if !('0' <= c && c <= '9') {
            assert(!is_ascii_digit_spec(ds[k]));
            return None;
        }
        let d = ((c as u32) - 48) as u64;
        assert(ds.take(k + 1).drop_last() =~= ds.take(k));
        assert(ds.take(k + 1).last() == c);
        if v > (limit - d) / 10 {
            proof {
                assert(v * 10 + d > limit) by (nonlinear_arith)
                    requires
                        v > (limit - d) / 10,
                        d < 10,
                        d <= limit,
                ;
                assert(digits_value(ds.take(k + 1)) == v * 10 + d);
                if all_digits(ds) {
                    lemma_digits_value_mono(ds, k + 1);
                }
            }
            return None;
        }
        assert(v * 10 + d <= limit) by (nonlinear_arith)
            requires
                v <= (limit - d) / 10,
                d < 10,
                d <= limit,
        ;
        v = v * 10 + d;
        i = i + 1;
        assert forall|m: int| 0 <= m < ds.take(i - start).len() implies #[trigger] is_ascii_digit_spec(
            ds.take(i - start)[m],
        ) by {
            if m < k {
                assert(ds.take(i - start)[m] == ds.take(k)[m]);
            }
        }
    }
    assert(ds.take(i - start) =~= ds);
    if neg {
        if v == 0x8000_0000_0000_0000 {
            Some(i64::MIN)
        } else {
            let w = v as i64;
            Some(-w)
        }
    } else {
        Some(v as i64)
    }
}

/// The text `i64::to_string` gives for `v`.
pub open spec fn i64_text(v: int) -> Seq<char> {
    if v < 0 {
        seq!['-'] + decimal((-v) as nat)
    } else {
        decimal(v as nat)
    }
}

/// `i64::to_string`.
pub fn i64_to_string(v: i64) -> (s: String)
    ensures
        s@ == i64_text(v as int),
{
    if v < 0 {
        let m: u64 = if v == i64::MIN { 0x8000_0000_0000_0000 } else { (-v) as u64 };
        let mut s = String::new();
        push_char(&mut s, '-');
        let t = u64_to_string(m);
        push_str(&mut s, t.as_str());
        s
    } else {
        u64_to_string(v as u64)
    }
}

/// The numbers `<unit>_<conversion>` at the end of `rest` (as
/// `rsplitn(3, '_')` splits it), the unit above zero.
pub open spec fn unit_numbers(rest: Seq<char>) -> Option<(int, int)> {
    match last_index_of(rest, '_') {
        Some(k) => {
            let before = rest.take(k as int);
            let u = match last_index_of(before, '_') {
                Some(m) => before.skip(m + 1 as int),
                None => before,
            };
            match (parse_i64_spec(u), parse_i64_spec(rest.skip(k + 1 as int))) {
                (Some(a), Some(b)) => if a > 0 {
                    Some((a, b))
                } else {
                    None
                },
                _ => None,
            }
        },
        None => None,
    }
}

/// The unit and conversion of a sub-symbol named `<prefix><…>_<unit>_<conversion>`.
pub open spec fn unit_key(t: Tree, prefix: Seq<char>) -> Option<(int, int)> {
    match unit_name(t) {
        Some(n) => if has_prefix(n, prefix) {
            unit_numbers(n.skip(prefix.len() as int))
        } else {
            None
        },
        None => None,
    }
}

/// The unit and conversion of `node` (see [`unit_key`]).
fn read_unit_key(node: &Sexpr, prefix: &Vec<char>) -> (r: Option<(i64, i64)>)
    ensures
        match unit_key(node@, prefix@) {
            Some((a, b)) => r == Some((a as i64, b as i64)),
            None => r is None,
        },
{
    let n = match read_unit_name(node) {
        Some(n) => n,
        None => {
            return None;
        },
    };
    if !starts_with(&n, prefix) {
        return None;
    }
    let rest = crate::text::chars_range(&n, prefix.len(), n.len());
    assert(rest@ =~= n@.skip(prefix@.len() as int));
    proof {
        lemma_last_index_of(rest@, '_');
    }
    let k = match rfind_char(&rest, '_') {
        Some(k) => k,
        None => {
            return None;
        },
    };
    let before = crate::text::chars_range(&rest, 0, k);
    assert(before@ =~= rest@.take(k as int));
    proof {
        lemma_last_index_of(before@, '_');
    }
    let u = match rfind_char(&before, '_') {
        Some(m) => crate::text::chars_range(&before, m + 1, before.len()),
        None => crate::text::chars_range(&before, 0, before.len()),
    };
    assert(u@ =~= match last_index_of(before@, '_') {
        Some(m) => before@.skip(m + 1 as int),
        None => before@,
    });
    let c = crate::text::chars_range(&rest, k + 1, rest.len());
    assert(c@ =~= rest@.skip(k + 1));
    match (parse_i64(&u), parse_i64(&c)) {
        (Some(a), Some(b)) => if a > 0 {
            Some((a, b))
        } else {
            None
        },
        _ => None,
    }
}


/// The nodes of `cs` that are not conversions of a unit, in order.
pub open spec fn ungrouped(cs: Seq<Tree>, prefix: Seq<char>) -> Seq<Tree>
    decreases cs.len(),
{
    if cs.len() == 0 {
        Seq::empty()
    } else if unit_key(cs.last(), prefix) is None {
        ungrouped(cs.drop_last(), prefix).push(cs.last())
    } else {
        ungrouped(cs.drop_last(), prefix)
    }
}

/// The units that conversions among `cs` belong to, in order of first
/// appearance.
pub open spec fn units_in(cs: Seq<Tree>, prefix: Seq<char>) -> Seq<int>
    decreases cs.len(),
{
    if cs.len() == 0 {
        Seq::empty()
    } else {
        let r = units_in(cs.drop_last(), prefix);
        match unit_key(cs.last(), prefix) {
            Some(k) => if r.contains(k.0) {
                r
            } else {
                r.push(k.0)
            },
            None => r,
        }
    }
}

/// The conversions of unit `u` among `cs`, in order: each one's number
/// and the nodes it holds after its name.
pub open spec fn conversions(cs: Seq<Tree>, prefix: Seq<char>, u: int) -> Seq<(int, Seq<Tree>)>
    decreases cs.len(),
{
    if cs.len() == 0 {
        Seq::empty()
    } else {
        let r = conversions(cs.drop_last(), prefix, u);
        match unit_key(cs.last(), prefix) {
            Some(k) => if k.0 == u {
                r.push((k.1, cs.last()->List_0.skip(2)))
            } else {
                r
            },
            None => r,
        }
    }
}

/// The index of the first of `s` whose number is above `key`.
pub open spec fn first_greater(s: Seq<(int, Seq<Tree>)>, key: int) -> int
    decreases s.len(),
{
    if s.len() == 0 {
        0
    } else if s[0].0 > key {
        0
    } else {
        1 + first_greater(s.skip(1), key)
    }
}

/// `s` sorted by number, stably (equal numbers keep their order).
pub open spec fn sort_by_conv(s: Seq<(int, Seq<Tree>)>) -> Seq<(int, Seq<Tree>)>
    decreases s.len(),
{
    if s.len() == 0 {
        Seq::empty()
    } else {
        let t = sort_by_conv(s.drop_last());
        t.insert(first_greater(t, s.last().0), s.last())
    }
}

/// `acc` with each of `items` added in order unless already held.
pub open spec fn dedup_into(acc: Seq<Tree>, items: Seq<Tree>) -> Seq<Tree>
    decreases items.len(),
{
    if items.len() == 0 {
        acc
    } else {
        let a = dedup_into(acc, items.drop_last());
        if a.contains(items.last()) {
            a
        } else {
            a.push(items.last())
        }
    }
}

/// The nodes of the conversions `convs`, in order, each once.
pub open spec fn merged_items(convs: Seq<(int, Seq<Tree>)>) -> Seq<Tree>
    decreases convs.len(),
{
    if convs.len() == 0 {
        Seq::empty()
    } else {
        dedup_into(merged_items(convs.drop_last()), convs.last().1)
    }
}

/// The sub-symbol that unit `u`, with conversions `convs`, becomes: one
/// conversion stays as it was (renamed from its numbers); several merge
/// into conversion 1, their nodes in order of conversion, each once.
pub open spec fn unit_node(prefix: Seq<char>, u: int, convs: Seq<(int, Seq<Tree>)>) -> Tree {
    if convs.len() == 1 {
        Tree::List(
            seq![Tree::Atom("symbol"@), Tree::Atom(quoted(prefix + i64_text(u) + seq!['_'] + i64_text(convs[0].0)))]
                + convs[0].1,
        )
    } else {
        Tree::List(
            seq![Tree::Atom("symbol"@), Tree::Atom(quoted(prefix + i64_text(u) + "_1"@))] + merged_items(
                sort_by_conv(convs),
            ),
        )
    }
}

/// The nodes of a flattened symbol with the conversions of each unit
/// merged: the other nodes in order, then one sub-symbol per unit in order
/// of first appearance.
pub open spec fn merge_spec(cs: Seq<Tree>, prefix: Seq<char>) -> Seq<Tree> {
    ungrouped(cs, prefix) + units_in(cs, prefix).map_values(|u: int| unit_node(prefix, u, conversions(cs, prefix, u)))
}

/// Whether `units` holds `u`.
fn has_unit(units: &Vec<i64>, u: i64) -> (b: bool)
    ensures
        b == units@.map_values(|x: i64| x as int).contains(u as int),
{
    let ghost us = units@.map_values(|x: i64| x as int);
    let mut k: usize = 0;
    while k < units.len()
        invariant
            k <= units@.len(),
            us == units@.map_values(|x: i64| x as int),
            forall|m: int| 0 <= m < k ==> units@[m] != u,
        decreases units@.len() - k,
    {
        if units[k] == u {
            assert(us[k as int] == u as int);
            return true;
        }
        k = k + 1;
    }
    assert forall|m: int| 0 <= m < us.len() implies us[m] != u as int by {
        assert(us[m] == units@[m] as int);
    }
    false
}


/// The conversions `es` (number and index of the node among `ts`) as
/// mathematical values.
pub open spec fn conv_view(es: Seq<(i64, usize)>, ts: Seq<Tree>) -> Seq<(int, Seq<Tree>)> {
    es.map_values(|e: (i64, usize)| (e.0 as int, ts[e.1 as int]->List_0.skip(2)))
}

proof fn lemma_unit_key_list(t: Tree, prefix: Seq<char>)
    requires
        unit_key(t, prefix) is Some,
    ensures
        t is List,
        t->List_0.len() >= 2,
{
}

/// The conversions of unit `u` among `cs` (see [`conversions`]).
fn conversions_of(cs: &Vec<Sexpr>, prefix: &Vec<char>, u: i64) -> (r: Vec<(i64, usize)>)
    ensures
        conv_view(r@, view_all(cs@)) == conversions(view_all(cs@), prefix@, u as int),
        convs_valid(r@, view_all(cs@)),
{
    proof {
        lemma_view_all(cs@);
    }
    let ghost ts = view_all(cs@);
    let mut out: Vec<(i64, usize)> = Vec::new();
    let mut m: usize = 0;
    assert(conv_view(out@, ts) =~= conversions(ts.take(0), prefix@, u as int));
    while m < cs.len()
        invariant
            m <= cs@.len(),
            ts == view_all(cs@),
            ts.len() == cs@.len(),
            forall|k: int| 0 <= k < cs@.len() ==> #[trigger] ts[k] == cs@[k]@,
            conv_view(out@, ts) == conversions(ts.take(m as int), prefix@, u as int),
            forall|k: int|
                0 <= k < out@.len() ==> #[trigger] out@[k].1 < m && ts[out@[k].1 as int] is List
                    && ts[out@[k].1 as int]->List_0.len() >= 2,
        decreases cs@.len() - m,
    {
        let ghost before = out@;
        assert(ts.take(m + 1).drop_last() =~= ts.take(m as int));
        assert(ts.take(m + 1).last() == cs@[m as int]@);
        match read_unit_key(&cs[m], prefix) {
            Some((a, c)) => {
                if a == u {
                    proof {
                        lemma_unit_key_list(ts[m as int], prefix@);
                    }
                    out.push((c, m));
                    assert(conv_view(out@, ts) =~= conv_view(before, ts).push((c as int, ts[m as int]->List_0.skip(2))));
                }
            },
            None => {},
        }
        m = m + 1;
    }
    assert(ts.take(m as int) =~= ts);
    out
}


proof fn lemma_first_greater(s: Seq<(int, Seq<Tree>)>, key: int, k: int)
    requires
        0 <= k <= s.len(),
        forall|m: int| 0 <= m < k ==> #[trigger] s[m].0 <= key,
        k == s.len() || s[k].0 > key,
    ensures
        first_greater(s, key) == k,
    decreases k,
{
    if k > 0 {
        assert forall|m: int| 0 <= m < k - 1 implies #[trigger] s.skip(1)[m].0 <= key by {
            assert(s.skip(1)[m] == s[m + 1]);
        }
        lemma_first_greater(s.skip(1), key, k - 1);
    }
}

/// Whether each of `es` names a list of `ts` with a name.
pub open spec fn convs_valid(es: Seq<(i64, usize)>, ts: Seq<Tree>) -> bool {
    forall|k: int|
        0 <= k < es.len() ==> #[trigger] es[k].1 < ts.len() && ts[es[k].1 as int] is List
            && ts[es[k].1 as int]->List_0.len() >= 2
}

/// `convs` sorted by number, stably (see [`sort_by_conv`]).
fn sort_convs(convs: &Vec<(i64, usize)>, Ghost(ts): Ghost<Seq<Tree>>) -> (r: Vec<(i64, usize)>)
    requires
        convs_valid(convs@, ts),
    ensures
        conv_view(r@, ts) == sort_by_conv(conv_view(convs@, ts)),
        convs_valid(r@, ts),
{
    let ghost cv = conv_view(convs@, ts);
    let mut sorted: Vec<(i64, usize)> = Vec::new();
    let mut t: usize = 0;
    assert(conv_view(sorted@, ts) =~= sort_by_conv(cv.take(0)));
    while t < convs.len()
        invariant
            t <= convs@.len(),
            cv == conv_view(convs@, ts),
            convs_valid(convs@, ts),
            convs_valid(sorted@, ts),
            conv_view(sorted@, ts) == sort_by_conv(cv.take(t as int)),
        decreases convs@.len() - t,
    {
        let x = convs[t];
        let mut pos: usize = 0;
        while pos < sorted.len() && sorted[pos].0 <= x.0
            invariant
                pos <= sorted@.len(),
                forall|m: int| 0 <= m < pos ==> #[trigger] sorted@[m].0 <= x.0,
            decreases sorted@.len() - pos,
        {
            pos = pos + 1;
        }
        let ghost tt = conv_view(sorted@, ts);
        proof {
            assert forall|m: int| 0 <= m < pos implies #[trigger] tt[m].0 <= x.0 by {
                assert(tt[m].0 == sorted@[m].0 as int);
            }
            if pos < sorted@.len() {
                assert(tt[pos as int].0 == sorted@[pos as int].0 as int);
            }
            lemma_first_greater(tt, x.0 as int, pos as int);
            assert(cv.take(t + 1).drop_last() =~= cv.take(t as int));
            assert(cv.take(t + 1).last() == cv[t as int]);
            assert(cv[t as int] == (x.0 as int, ts[x.1 as int]->List_0.skip(2)));
        }
        let ghost old_sorted = sorted@;
        sorted.insert(pos, x);
        proof {
            assert(conv_view(sorted@, ts) =~= tt.insert(pos as int, cv[t as int]));
            assert forall|k: int| 0 <= k < sorted@.len() implies #[trigger] sorted@[k].1 < ts.len() && ts[sorted@[k].1 as int] is List
                && ts[sorted@[k].1 as int]->List_0.len() >= 2 by {
                if k < pos {
                    assert(sorted@[k] == old_sorted[k]);
                } else if k == pos {
                    assert(sorted@[k] == convs@[t as int]);
                } else {
                    assert(sorted@[k] == old_sorted[k - 1]);
                }
            }
        }
        t = t + 1;
    }
    assert(cv.take(t as int) =~= cv);
    sorted
}


/// The nodes of the conversions `convs` of `cs`, in order, each once (see
/// [`merged_items`]).
fn merge_items(cs: &Vec<Sexpr>, convs: &Vec<(i64, usize)>) -> (r: Vec<Sexpr>)
    requires
        convs_valid(convs@, view_all(cs@)),
    ensures
        view_all(r@) == merged_items(conv_view(convs@, view_all(cs@))),
{
    proof {
        lemma_view_all(cs@);
    }
    let ghost ts = view_all(cs@);
    let ghost cv = conv_view(convs@, ts);
    let mut out: Vec<Sexpr> = Vec::new();
    let mut t: usize = 0;
    assert(view_all(out@) =~= merged_items(cv.take(0)));
    while t < convs.len()
        invariant
            t <= convs@.len(),
            ts == view_all(cs@),
            ts.len() == cs@.len(),
            forall|k: int| 0 <= k < cs@.len() ==> #[trigger] ts[k] == cs@[k]@,
            cv == conv_view(convs@, ts),
            convs_valid(convs@, ts),
            view_all(out@) == merged_items(cv.take(t as int)),
        decreases convs@.len() - t,
    {
        let idx = convs[t].1;
        assert(idx < cs@.len());
        let ghost acc0 = view_all(out@);
        assert(cv.take(t + 1).drop_last() =~= cv.take(t as int));
        assert(cv.take(t + 1).last() == cv[t as int]);
        match &cs[idx] {
            Sexpr::List(ps) => {
                proof {
                    lemma_view_all(ps@);
                }
                let ghost items = view_all(ps@).skip(2);
                assert(cv[t as int].1 == items);
                let mut k: usize = 2;
                assert(items.take(0) =~= Seq::<Tree>::empty());
                while k < ps.len()
                    invariant
                        2 <= k <= ps@.len(),
                        view_all(ps@).len() == ps@.len(),
                        forall|m: int| 0 <= m < ps@.len() ==> #[trigger] view_all(ps@)[m] == ps@[m]@,
                        items == view_all(ps@).skip(2),
                        view_all(out@) == dedup_into(acc0, items.take(k - 2)),
                    decreases ps@.len() - k,
                {
                    assert(items.take(k - 1).drop_last() =~= items.take(k - 2));
                    assert(items.take(k - 1).last() == ps@[k as int]@);
                    if !holds_node(&out, &ps[k]) {
                        let c = copy_sexpr(&ps[k]);
                        proof {
                            lemma_view_all_push(out@, c);
                        }
                        out.push(c);
                    }
                    k = k + 1;
                }
                assert(items.take(k - 2) =~= items);
            },
            _ => {
                assert(false);
            },
        }
        t = t + 1;
    }
    assert(cv.take(t as int) =~= cv);
    out
}


/// The sub-symbol that unit `u` of `cs`, with conversions `convs`, becomes
/// (see [`unit_node`]).
fn unit_sub_symbol(cs: &Vec<Sexpr>, prefix: &Vec<char>, u: i64, convs: &Vec<(i64, usize)>) -> (r: Sexpr)
    requires
        convs_valid(convs@, view_all(cs@)),
        convs@.len() >= 1,
    ensures
        r@ == unit_node(prefix@, u as int, conv_view(convs@, view_all(cs@))),
{
    proof {
        lemma_view_all(cs@);
    }
    let ghost ts = view_all(cs@);
    let ghost cv = conv_view(convs@, ts);
    let mut name = crate::text::string_of(prefix.as_slice());
    let ut = i64_to_string(u);
    push_str(&mut name, ut.as_str());
    let mut parts: Vec<Sexpr> = Vec::new();
    parts.push(Sexpr::atom("symbol"));
    if convs.len() == 1 {
        let (c, idx) = convs[0];
        let ghost n0 = name@;
        push_char(&mut name, '_');
        assert(name@ =~= n0 + seq!['_']);
        let ct = i64_to_string(c);
        push_str(&mut name, ct.as_str());
        assert(name@ =~= prefix@ + i64_text(u as int) + seq!['_'] + i64_text(c as int));
        parts.push(Sexpr::str(name.as_str()));
        let ghost head = view_all(parts@);
        proof {
            lemma_view_all(parts@);
            assert(head =~= seq![Tree::Atom("symbol"@), Tree::Atom(quoted(prefix@ + i64_text(u as int) + seq!['_'] + i64_text(c as int)))]);
        }
        match &cs[idx] {
            Sexpr::List(ps) => {
                proof {
                    lemma_view_all(ps@);
                }
                let ghost items = view_all(ps@).skip(2);
                assert(cv[0].1 == items);
                let mut k: usize = 2;
                assert(head + items.take(0) =~= head);
                while k < ps.len()
                    invariant
                        2 <= k <= ps@.len(),
                        view_all(ps@).len() == ps@.len(),
                        forall|m: int| 0 <= m < ps@.len() ==> #[trigger] view_all(ps@)[m] == ps@[m]@,
                        items == view_all(ps@).skip(2),
                        view_all(parts@) == head + items.take(k - 2),
                    decreases ps@.len() - k,
                {
                    let c2 = copy_sexpr(&ps[k]);
                    proof {
                        lemma_view_all_push(parts@, c2);
                        assert(head + items.take(k - 1) =~= (head + items.take(k - 2)).push(ps@[k as int]@));
                    }
                    parts.push(c2);
                    k = k + 1;
                }
                assert(items.take(k - 2) =~= items);
            },
            _ => {
                assert(false);
            },
        }
        Sexpr::List(parts)
    } else {
        let sorted = sort_convs(convs, Ghost(ts));
        let items = merge_items(cs, &sorted);
        let ghost n0 = name@;
        push_str(&mut name, "_1");
        proof {
            reveal_strlit("_1");
        }
        assert(name@ =~= prefix@ + i64_text(u as int) + "_1"@);
        parts.push(Sexpr::str(name.as_str()));
        let ghost head = view_all(parts@);
        proof {
            lemma_view_all(parts@);
            assert(head =~= seq![Tree::Atom("symbol"@), Tree::Atom(quoted(prefix@ + i64_text(u as int) + "_1"@))]);
        }
        let mut k: usize = 0;
        let ghost iv = view_all(items@);
        proof {
            lemma_view_all(items@);
        }
        assert(head + iv.take(0) =~= head);
        while k < items.len()
            invariant
                k <= items@.len(),
                iv == view_all(items@),
                iv.len() == items@.len(),
                forall|m: int| 0 <= m < items@.len() ==> #[trigger] iv[m] == items@[m]@,
                view_all(parts@) == head + iv.take(k as int),
            decreases items@.len() - k,
        {
            let c2 = copy_sexpr(&items[k]);
            proof {
                lemma_view_all_push(parts@, c2);
                assert(head + iv.take(k + 1) =~= (head + iv.take(k as int)).push(items@[k as int]@));
            }
            parts.push(c2);
            k = k + 1;
        }
        assert(iv.take(k as int) =~= iv);
        Sexpr::List(parts)
    }
}


proof fn lemma_units_have_conversions(cs: Seq<Tree>, prefix: Seq<char>, u: int)
    requires
        units_in(cs, prefix).contains(u),
    ensures
        conversions(cs, prefix, u).len() >= 1,
    decreases cs.len(),
{
    let r = units_in(cs.drop_last(), prefix);
    if r.contains(u) {
        lemma_units_have_conversions(cs.drop_last(), prefix, u);
    }
}

/// `cs` with the conversions of each unit merged (see [`merge_spec`]).
pub fn merge_conversions(cs: &Vec<Sexpr>, prefix: &Vec<char>) -> (r: Vec<Sexpr>)
    ensures
        view_all(r@) == merge_spec(view_all(cs@), prefix@),
{
    proof {
        lemma_view_all(cs@);
    }
    let ghost ts = view_all(cs@);
    let mut out: Vec<Sexpr> = Vec::new();
    let mut units: Vec<i64> = Vec::new();
    let mut i: usize = 0;
    assert(view_all(out@) =~= ungrouped(ts.take(0), prefix@));
    assert(units@.map_values(|x: i64| x as int) =~= units_in(ts.take(0), prefix@));
    while i < cs.len()
        invariant
            i <= cs@.len(),
            ts == view_all(cs@),
            ts.len() == cs@.len(),
            forall|k: int| 0 <= k < cs@.len() ==> #[trigger] ts[k] == cs@[k]@,
            view_all(out@) == ungrouped(ts.take(i as int), prefix@),
            units@.map_values(|x: i64| x as int) == units_in(ts.take(i as int), prefix@),
        decreases cs@.len() - i,
    {
        assert(ts.take(i + 1).drop_last() =~= ts.take(i as int));
        assert(ts.take(i + 1).last() == cs@[i as int]@);
        let ghost u0 = units@;
        match read_unit_key(&cs[i], prefix) {
            None => {
                let c = copy_sexpr(&cs[i]);
                proof {
                    lemma_view_all_push(out@, c);
                }
                out.push(c);
            },
            Some((u, _c)) => {
                if !has_unit(&units, u) {
                    units.push(u);
                    assert(units@.map_values(|x: i64| x as int) =~= u0.map_values(|x: i64| x as int).push(u as int));
                }
            },
        }
        i = i + 1;
    }
    assert(ts.take(i as int) =~= ts);
    let ghost base = view_all(out@);
    let ghost us = units@.map_values(|x: i64| x as int);
    let mut q: usize = 0;
    assert(base + us.take(0).map_values(|u: int| unit_node(prefix@, u, conversions(ts, prefix@, u))) =~= base);
    while q < units.len()
        invariant
            q <= units@.len(),
            ts == view_all(cs@),
            us == units@.map_values(|x: i64| x as int),
            us == units_in(ts, prefix@),
            view_all(out@) == base + us.take(q as int).map_values(
                |u: int| unit_node(prefix@, u, conversions(ts, prefix@, u)),
            ),
        decreases units@.len() - q,
    {
        let u = units[q];
        assert(us[q as int] == u as int);
        proof {
            lemma_units_have_conversions(ts, prefix@, u as int);
        }
        let convs = conversions_of(cs, prefix, u);
        let node = unit_sub_symbol(cs, prefix, u, &convs);
        proof {
            lemma_view_all_push(out@, node);
            assert(us.take(q + 1).map_values(|u: int| unit_node(prefix@, u, conversions(ts, prefix@, u))) =~= us.take(
                q as int,
            ).map_values(|u: int| unit_node(prefix@, u, conversions(ts, prefix@, u))).push(node@));
        }
        out.push(node);
        q = q + 1;
    }
    assert(us.take(q as int) =~= us);
    out
}


/// The self-contained form of `sym` (see [`flatten_extends`]): a symbol
/// that extends a parent of `syms` loses its `extends` node, gains the
/// parent's units, graphics and pins under its own name (each unless it
/// holds it already), and has the conversions of each unit merged; any
/// other symbol stays as it is.
pub open spec fn flatten_spec(sym: SymbolDefView, syms: Seq<SymbolDefView>) -> Tree {
    match (sym.raw, sym.extends) {
        (Tree::List(cs), Some(e)) => match first_named(syms, symbol_name(e)) {
            Some(k) => {
                let to = sym.lib_id + seq!['_'];
                let from = symbol_name(e) + seq!['_'];
                let kept = without_extends(cs);
                let added = match syms[k].raw {
                    Tree::List(pcs) => add_parent_nodes(kept, pcs.skip(2), from, to),
                    _ => kept,
                };
                Tree::List(merge_spec(added, to))
            },
            None => sym.raw,
        },
        _ => sym.raw,
    }
}

/// Whether every symbol's node that is a list has a name.
pub open spec fn symbols_named(syms: Seq<SymbolDefView>) -> bool {
    forall|k: int| 0 <= k < syms.len() && (#[trigger] syms[k]).raw is List ==> syms[k].raw->List_0.len() >= 2
}

proof fn lemma_first_named(syms: Seq<SymbolDefView>, name: Seq<char>, from: int)
    requires
        0 <= from,
    ensures
        first_named_from(syms, name, from) matches Some(k) ==> from <= k < syms.len(),
    decreases syms.len() - from,
{
    if from < syms.len() && syms[from].lib_id != name {
        lemma_first_named(syms, name, from + 1);
    }
}

/// Whether `node` is an `(extends …)` node.
fn extends_node(node: &Sexpr) -> (b: bool)
    ensures
        b == is_extends_node(node@),
{
    match node {
        Sexpr::List(ps) => {
            proof {
                lemma_view_all(ps@);
            }
            ps.len() >= 2 && is_headed(node, "extends")
        },
        _ => false,
    }
}

/// `s` followed by `_`.
fn with_underscore(s: &str) -> (r: Vec<char>)
    ensures
        r@ == s@ + seq!['_'],
{
    let mut v = chars_of(s);
    v.push('_');
    v
}

/// Flatten a symbol that uses `(extends "ParentName")` into a
/// self-contained symbol (see [`flatten_spec`]): the `extends` node is
/// removed and the parent's sub-symbols (renamed from `ParentName_*` to
/// `ChildName_*`), graphics and pins are copied in, then the conversions of
/// each unit are merged so that one unit shows all its pins.
pub fn flatten_extends(sym: &SymbolDef, symbols: &Vec<SymbolDef>) -> (r: Sexpr)
    requires
        symbols_named(defs_view(symbols@)),
    ensures
        r@ == flatten_spec(sym@, defs_view(symbols@)),
{
    let cs = match &sym.raw {
        Sexpr::List(cs) => cs,
        _ => {
            return copy_sexpr(&sym.raw);
        },
    };
    let e = match &sym.extends {
        Some(e) => e,
        None => {
            return copy_sexpr(&sym.raw);
        },
    };
    let parent = match find_symbol(symbols, e.as_str()) {
        Some(p) => p,
        None => {
            return copy_sexpr(&sym.raw);
        },
    };
    let ghost k = first_named(defs_view(symbols@), symbol_name(e@))->0;
    proof {
        lemma_first_named(defs_view(symbols@), symbol_name(e@), 0);
        assert(defs_view(symbols@).len() == symbols@.len());
        assert(defs_view(symbols@)[k] == symbols@[k]@);
    }
    let parent_name = strip_library(e.as_str());
    let to = with_underscore(sym.lib_id.as_str());
    let from = with_underscore(parent_name.as_str());
    proof {
        lemma_view_all(cs@);
    }
    let ghost ts = view_all(cs@);
    let mut kept: Vec<Sexpr> = Vec::new();
    let mut i: usize = 0;
    assert(view_all(kept@) =~= without_extends(ts.take(0)));
    while i < cs.len()
        invariant
            i <= cs@.len(),
            ts == view_all(cs@),
            ts.len() == cs@.len(),
            forall|m: int| 0 <= m < cs@.len() ==> #[trigger] ts[m] == cs@[m]@,
            view_all(kept@) == without_extends(ts.take(i as int)),
        decreases cs@.len() - i,
    {
        assert(ts.take(i + 1).drop_last() =~= ts.take(i as int));
        assert(ts.take(i + 1).last() == cs@[i as int]@);
        if !extends_node(&cs[i]) {
            let c = copy_sexpr(&cs[i]);
            proof {
                lemma_view_all_push(kept@, c);
            }
            kept.push(c);
        }
        i = i + 1;
    }
    assert(ts.take(i as int) =~= ts);
    let ghost kept_v = view_all(kept@);
    match &parent.raw {
        Sexpr::List(pcs) => {
            proof {
                lemma_view_all(pcs@);
                assert(parent.raw@ == defs_view(symbols@)[k].raw);
            }
            let ghost pts = view_all(pcs@);
            let ghost rest = pts.skip(2);
            let mut m: usize = 2;
            assert(add_parent_nodes(kept_v, rest.take(0), from@, to@) == kept_v);
            while m < pcs.len()
                invariant
                    2 <= m <= pcs@.len(),
                    pts == view_all(pcs@),
                    pts.len() == pcs@.len(),
                    forall|x: int| 0 <= x < pcs@.len() ==> #[trigger] pts[x] == pcs@[x]@,
                    rest == pts.skip(2),
                    view_all(kept@) == add_parent_nodes(kept_v, rest.take(m - 2), from@, to@),
                decreases pcs@.len() - m,
            {
                assert(rest.take(m - 1).drop_last() =~= rest.take(m - 2));
                assert(rest.take(m - 1).last() == pcs@[m as int]@);
                if unit_or_graphic(&pcs[m]) {
                    let rn = rename_unit(&pcs[m], &from, &to);
                    if !holds_node(&kept, &rn) {
                        proof {
                            lemma_view_all_push(kept@, rn);
                        }
                        kept.push(rn);
                    }
                }
                m = m + 1;
            }
            assert(rest.take(m - 2) =~= rest);
        },
        _ => {},
    }
    Sexpr::List(merge_conversions(&kept, &to))
}


proof fn lemma_dedup_into_holds(acc: Seq<Tree>, items: Seq<Tree>)
    ensures
        forall|x: Tree| acc.contains(x) ==> #[trigger] dedup_into(acc, items).contains(x),
        forall|k: int| 0 <= k < items.len() ==> dedup_into(acc, items).contains(#[trigger] items[k]),
    decreases items.len(),
{
    if items.len() > 0 {
        lemma_dedup_into_holds(acc, items.drop_last());
        let a = dedup_into(acc, items.drop_last());
        assert forall|k: int| 0 <= k < items.len() implies dedup_into(acc, items).contains(#[trigger] items[k]) by {
            if k < items.len() - 1 {
                assert(items.drop_last()[k] == items[k]);
                assert(a.contains(items[k]));
                if !a.contains(items.last()) {
                    let j = choose|j: int| 0 <= j < a.len() && a[j] == items[k];
                    assert(a.push(items.last())[j] == items[k]);
                }
            } else if !a.contains(items.last()) {
                assert(a.push(items.last())[a.len() as int] == items.last());
            }
        }
        assert forall|x: Tree| acc.contains(x) implies #[trigger] dedup_into(acc, items).contains(x) by {
            assert(a.contains(x));
            if !a.contains(items.last()) {
                let j = choose|j: int| 0 <= j < a.len() && a[j] == x;
                assert(a.push(items.last())[j] == x);
            }
        }
    }
}

proof fn lemma_merged_items_hold(convs: Seq<(int, Seq<Tree>)>, j: int, x: Tree)
    requires
        0 <= j < convs.len(),
        convs[j].1.contains(x),
    ensures
        merged_items(convs).contains(x),
    decreases convs.len(),
{
    let last = convs.len() - 1;
    lemma_dedup_into_holds(merged_items(convs.drop_last()), convs.last().1);
    if j < last {
        assert(convs.drop_last()[j] == convs[j]);
        lemma_merged_items_hold(convs.drop_last(), j, x);
    } else {
        let k = choose|k: int| 0 <= k < convs[j].1.len() && convs[j].1[k] == x;
        assert(convs.last().1[k] == x);
    }
}

proof fn lemma_sort_holds(s: Seq<(int, Seq<Tree>)>, j: int)
    requires
        0 <= j < s.len(),
    ensures
        sort_by_conv(s).contains(s[j]),
        sort_by_conv(s).len() == s.len(),
    decreases s.len(),
{
    let t = sort_by_conv(s.drop_last());
    lemma_sort_len(s.drop_last());
    lemma_first_greater_bound(t, s.last().0);
    let pos = first_greater(t, s.last().0);
    if j < s.len() - 1 {
        assert(s.drop_last()[j] == s[j]);
        lemma_sort_holds(s.drop_last(), j);
        let k = choose|k: int| 0 <= k < t.len() && t[k] == s[j];
        if k < pos {
            assert(t.insert(pos, s.last())[k] == s[j]);
        } else {
            assert(t.insert(pos, s.last())[k + 1] == s[j]);
        }
    } else {
        assert(t.insert(pos, s.last())[pos] == s[j]);
    }
}

proof fn lemma_sort_len(s: Seq<(int, Seq<Tree>)>)
    ensures
        sort_by_conv(s).len() == s.len(),
    decreases s.len(),
{
    if s.len() > 0 {
        lemma_sort_len(s.drop_last());
        lemma_first_greater_bound(sort_by_conv(s.drop_last()), s.last().0);
    }
}

proof fn lemma_first_greater_bound(s: Seq<(int, Seq<Tree>)>, key: int)
    ensures
        0 <= first_greater(s, key) <= s.len(),
    decreases s.len(),
{
    if s.len() > 0 && s[0].0 <= key {
        lemma_first_greater_bound(s.skip(1), key);
    }
}

/// Merging the conversions of a unit keeps every node of every conversion:
/// the unit's sub-symbol holds each of them.
pub proof fn law_merge_keeps_unit_nodes(cs: Seq<Tree>, prefix: Seq<char>, u: int, j: int, x: Tree)
    requires
        0 <= j < conversions(cs, prefix, u).len(),
        conversions(cs, prefix, u)[j].1.contains(x),
    ensures
        unit_node(prefix, u, conversions(cs, prefix, u))->List_0.contains(x),
{
    let convs = conversions(cs, prefix, u);
    let head = seq![Tree::Atom("symbol"@), Tree::Atom(quoted(prefix + i64_text(u) + seq!['_'] + i64_text(convs[0].0)))];
    if convs.len() == 1 {
        let k = choose|k: int| 0 <= k < convs[0].1.len() && convs[0].1[k] == x;
        assert((head + convs[0].1)[2 + k] == x);
    } else {
        let sorted = sort_by_conv(convs);
        lemma_sort_holds(convs, j);
        let m = choose|m: int| 0 <= m < sorted.len() && sorted[m] == convs[j];
        lemma_merged_items_hold(sorted, m, x);
        let items = merged_items(sorted);
        let head1 = seq![Tree::Atom("symbol"@), Tree::Atom(quoted(prefix + i64_text(u) + "_1"@))];
        let k = choose|k: int| 0 <= k < items.len() && items[k] == x;
        assert((head1 + items)[2 + k] == x);
    }
}


/// Whether no node of `ts` is an `(extends …)` node.
pub open spec fn no_extends_node(ts: Seq<Tree>) -> bool {
    forall|k: int| 0 <= k < ts.len() ==> !is_extends_node(#[trigger] ts[k])
}

proof fn lemma_heads_differ()
    ensures
        "symbol"@ != "extends"@,
        "polyline"@ != "extends"@,
        "rectangle"@ != "extends"@,
        "circle"@ != "extends"@,
        "arc"@ != "extends"@,
        "pin"@ != "extends"@,
{
    reveal_strlit("symbol");
    reveal_strlit("polyline");
    reveal_strlit("rectangle");
    reveal_strlit("circle");
    reveal_strlit("arc");
    reveal_strlit("pin");
    reveal_strlit("extends");
    assert("symbol"@[0] != "extends"@[0]);
    assert("polyline"@[0] != "extends"@[0]);
    assert("rectangle"@[0] != "extends"@[0]);
    assert("circle"@[0] != "extends"@[0]);
    assert("arc"@[0] != "extends"@[0]);
    assert("pin"@[0] != "extends"@[0]);
}

proof fn lemma_without_extends(cs: Seq<Tree>)
    ensures
        no_extends_node(without_extends(cs)),
    decreases cs.len(),
{
    if cs.len() > 0 {
        lemma_without_extends(cs.drop_last());
    }
}

proof fn lemma_add_parent_no_extends(acc: Seq<Tree>, pcs: Seq<Tree>, from: Seq<char>, to: Seq<char>)
    requires
        no_extends_node(acc),
    ensures
        no_extends_node(add_parent_nodes(acc, pcs, from, to)),
    decreases pcs.len(),
{
    if pcs.len() > 0 {
        lemma_add_parent_no_extends(acc, pcs.drop_last(), from, to);
        let p = pcs.last();
        if is_unit_or_graphic(p) {
            lemma_heads_differ();
            let r = renamed(p, from, to);
            assert(r->List_0[0] == p->List_0[0]);
            assert(!is_extends_node(r));
        }
    }
}

proof fn lemma_ungrouped_from(cs: Seq<Tree>, prefix: Seq<char>)
    ensures
        forall|k: int| 0 <= k < ungrouped(cs, prefix).len() ==> cs.contains(#[trigger] ungrouped(cs, prefix)[k]),
    decreases cs.len(),
{
    if cs.len() > 0 {
        lemma_ungrouped_from(cs.drop_last(), prefix);
        let r = ungrouped(cs.drop_last(), prefix);
        assert forall|k: int| 0 <= k < ungrouped(cs, prefix).len() implies cs.contains(
            #[trigger] ungrouped(cs, prefix)[k],
        ) by {
            if k < r.len() {
                assert(ungrouped(cs, prefix)[k] == r[k]);
                let j = choose|j: int| 0 <= j < cs.drop_last().len() && cs.drop_last()[j] == r[k];
                assert(cs[j] == r[k]);
            } else {
                assert(ungrouped(cs, prefix)[k] == cs.last());
                assert(cs[cs.len() - 1] == cs.last());
            }
        }
    }
}

/// Flattening a symbol whose parent the library holds leaves no
/// `(extends …)` node in it.
pub proof fn law_flatten_drops_extends(sym: SymbolDefView, syms: Seq<SymbolDefView>)
    requires
        sym.raw is List,
        sym.extends is Some,
        first_named(syms, symbol_name(sym.extends->0)) is Some,
    ensures
        flatten_spec(sym, syms) is List,
        no_extends_node(flatten_spec(sym, syms)->List_0),
{
    let cs = sym.raw->List_0;
    let e = sym.extends->0;
    let k = first_named(syms, symbol_name(e))->0;
    let to = sym.lib_id + seq!['_'];
    let from = symbol_name(e) + seq!['_'];
    let kept = without_extends(cs);
    lemma_without_extends(cs);
    let added = match syms[k].raw {
        Tree::List(pcs) => add_parent_nodes(kept, pcs.skip(2), from, to),
        _ => kept,
    };
    if let Tree::List(pcs) = syms[k].raw {
        lemma_add_parent_no_extends(kept, pcs.skip(2), from, to);
    }
    lemma_ungrouped_from(added, to);
    lemma_heads_differ();
    let out = merge_spec(added, to);
    let ug = ungrouped(added, to);
    assert forall|m: int| 0 <= m < out.len() implies !is_extends_node(#[trigger] out[m]) by {
        if m < ug.len() {
            assert(out[m] == ug[m]);
            let j = choose|j: int| 0 <= j < added.len() && added[j] == ug[m];
            assert(!is_extends_node(added[j]));
        } else {
            let us = units_in(added, to);
            let u = us[m - ug.len()];
            assert(out[m] == unit_node(to, u, conversions(added, to, u)));
            assert(out[m]->List_0[0] == Tree::Atom("symbol"@));
        }
    }
}

} // verus!
