//! Shared helpers for the KiCad 6 emitters.

use vstd::prelude::*;

use crate::kicad::common::refdes_prefix_spec;
use crate::kicad6::design::Design;
use crate::text::{chars_of, lemma_lex_lt, lex_less, lex_lt, str_eq};

verus! {

broadcast use vstd::string::group_string_axioms;

/// Extract the leading alphabetic prefix of a refdes (e.g. `U1` → `U`).
/// Returns `?` when the refdes has no alphabetic prefix.
pub fn refdes_prefix(refdes: &str) -> (r: String)
    ensures
        r@ == refdes_prefix_spec(refdes@),
{
    crate::kicad::common::refdes_prefix(refdes)
}

/// Whether the design has a net named `name`.
pub open spec fn is_design_net(d: Design, name: Seq<char>) -> bool {
    exists|i: int| 0 <= i < d.nets@.len() && (#[trigger] d.nets@[i]).name@ == name
}

/// Whether `name` is the net of a connection but of none of the design's
/// nets.
pub open spec fn is_extra_net(d: Design, name: Seq<char>) -> bool {
    &&& exists|j: int| 0 <= j < d.connections@.len() && (#[trigger] d.connections@[j]).net@ == name
    &&& !is_design_net(d, name)
}

/// Whether `s` is strictly increasing.
pub open spec fn strictly_sorted(s: Seq<Seq<char>>) -> bool {
    forall|i: int, j: int| 0 <= i < j < s.len() ==> lex_lt(#[trigger] s[i], #[trigger] s[j])
}

/// The net code table of a design: its nets in order, then every net named
/// only by connections once, in sorted order; codes count from 1.
pub open spec fn net_codes_ok(d: Design, codes: Seq<(Seq<char>, nat)>) -> bool {
    let n = d.nets@.len() as int;
    let extras = codes.skip(n).map_values(|c: (Seq<char>, nat)| c.0);
    &&& n <= codes.len()
    &&& forall|i: int| 0 <= i < codes.len() ==> (#[trigger] codes[i]).1 == i + 1
    &&& forall|i: int| 0 <= i < n ==> (#[trigger] codes[i]).0 == d.nets@[i].name@
    &&& strictly_sorted(extras)
    &&& forall|i: int| 0 <= i < extras.len() ==> is_extra_net(d, #[trigger] extras[i])
    &&& forall|name: Seq<char>| #[trigger] is_extra_net(d, name) ==> extras.contains(name)
}

/// Two strictly increasing sequences with the same elements are equal.
proof fn lemma_sorted_unique(x: Seq<Seq<char>>, y: Seq<Seq<char>>)
    requires
        strictly_sorted(x),
        strictly_sorted(y),
        forall|s: Seq<char>| x.contains(s) <==> y.contains(s),
    ensures
        x == y,
    decreases x.len(),
{
    if x.len() == 0 {
        if y.len() > 0 {
            assert(y.contains(y[0]));
        }
        assert(x =~= y);
    } else {
        assert(x.contains(x[0]));
        assert(y.contains(y[0]));
        let i = choose|i: int| 0 <= i < x.len() && x[i] == y[0];
        let j = choose|j: int| 0 <= j < y.len() && y[j] == x[0];
        lemma_lex_lt(x[0], y[0], x[0]);
        if i > 0 {
            assert(lex_lt(x[0], x[i]));
        }
        if j > 0 {
            assert(lex_lt(y[0], y[j]));
        }
        assert(x[0] == y[0]);
        let xt = x.skip(1);
        let yt = y.skip(1);
        assert forall|s: Seq<char>| xt.contains(s) <==> yt.contains(s) by {
            if xt.contains(s) {
                let a = choose|a: int| 0 <= a < xt.len() && xt[a] == s;
                assert(x[a + 1] == s);
                assert(lex_lt(x[0], s));
                lemma_lex_lt(s, s, s);
                assert(y.contains(s));
                let b = choose|b: int| 0 <= b < y.len() && y[b] == s;
                assert(b != 0);
                assert(yt[b - 1] == s);
            }
            if yt.contains(s) {
                let b = choose|b: int| 0 <= b < yt.len() && yt[b] == s;
                assert(y[b + 1] == s);
                assert(lex_lt(y[0], s));
                lemma_lex_lt(s, s, s);
                assert(x.contains(s));
                let a = choose|a: int| 0 <= a < x.len() && x[a] == s;
                assert(a != 0);
                assert(xt[a - 1] == s);
            }
        }
        assert forall|a: int, b: int| 0 <= a < b < xt.len() implies lex_lt(#[trigger] xt[a], #[trigger] xt[b]) by {
            assert(xt[a] == x[a + 1] && xt[b] == x[b + 1]);
        }
        assert forall|a: int, b: int| 0 <= a < b < yt.len() implies lex_lt(#[trigger] yt[a], #[trigger] yt[b]) by {
            assert(yt[a] == y[a + 1] && yt[b] == y[b + 1]);
        }
        lemma_sorted_unique(xt, yt);
        assert(x =~= seq![x[0]] + xt);
        assert(y =~= seq![y[0]] + yt);
    }
}

/// The net code table of a design is determined by the design.
pub proof fn law_net_codes_unique(d: Design, a: Seq<(Seq<char>, nat)>, b: Seq<(Seq<char>, nat)>)
    requires
        net_codes_ok(d, a),
        net_codes_ok(d, b),
    ensures
        a == b,
{
    let n = d.nets@.len() as int;
    let ea = a.skip(n).map_values(|c: (Seq<char>, nat)| c.0);
    let eb = b.skip(n).map_values(|c: (Seq<char>, nat)| c.0);
    assert forall|s: Seq<char>| ea.contains(s) <==> eb.contains(s) by {
        if ea.contains(s) {
            let i = choose|i: int| 0 <= i < ea.len() && ea[i] == s;
            assert(is_extra_net(d, ea[i]));
        }
        if eb.contains(s) {
            let i = choose|i: int| 0 <= i < eb.len() && eb[i] == s;
            assert(is_extra_net(d, eb[i]));
        }
    }
    lemma_sorted_unique(ea, eb);
    assert(a.len() == b.len());
    assert forall|i: int| 0 <= i < a.len() implies a[i] == b[i] by {
        if i >= n {
            assert(ea[i - n] == a[i].0);
            assert(eb[i - n] == b[i].0);
        }
    }
    assert(a =~= b);
}

/// The net code table of a design (see [`net_codes_ok`]).
pub open spec fn net_codes_of(d: Design) -> Seq<(Seq<char>, nat)> {
    choose|c: Seq<(Seq<char>, nat)>| net_codes_ok(d, c)
}

/// Whether one of the strings is `x`.
pub open spec fn holds(v: Seq<String>, x: Seq<char>) -> bool {
    exists|i: int| 0 <= i < v.len() && (#[trigger] v[i])@ == x
}

/// The views of a vector of strings.
pub open spec fn string_views(v: Seq<String>) -> Seq<Seq<char>> {
    v.map_values(|s: String| s@)
}

/// Inserts `x` into the strictly increasing `v`, unless it is there.
fn insert_sorted(v: &mut Vec<String>, x: &str)
    requires
        strictly_sorted(string_views(old(v)@)),
    ensures
        strictly_sorted(string_views(final(v)@)),
        forall|s: Seq<char>| #[trigger] holds(final(v)@, s) <==> holds(old(v)@, s) || s == x@,
        final(v)@.len() <= old(v)@.len() + 1,
{
    let ghost v0 = v@;
    let xs = chars_of(x);
    let mut p: usize = 0;
    while p < v.len()
        invariant
            v@ == v0,
            xs@ == x@,
            p <= v@.len(),
            strictly_sorted(string_views(v0)),
            forall|i: int| 0 <= i < p ==> lex_lt(#[trigger] v0[i]@, x@),
        ensures
            v@ == v0,
            p <= v@.len(),
            forall|i: int| 0 <= i < p ==> lex_lt(#[trigger] v0[i]@, x@),
            p < v@.len() ==> !lex_lt(v0[p as int]@, x@),
        decreases v@.len() - p,
    {
        let cur = chars_of(v[p].as_str());
        if !lex_less(&cur, &xs) {
            break;
        }
        p = p + 1;
    }
    if p < v.len() && str_eq(v[p].as_str(), x) {
        assert(holds(v0, x@));
        return;
    }
    proof {
        if p < v0.len() {
            lemma_lex_lt(v0[p as int]@, x@, x@);
            assert(!lex_lt(v0[p as int]@, x@));
            assert(lex_lt(x@, v0[p as int]@));
        }
    }
    v.insert(p, x.to_string());
    proof {
        let sv = string_views(v@);
        assert forall|i: int, j: int| 0 <= i < j < sv.len() implies lex_lt(#[trigger] sv[i], #[trigger] sv[j]) by {
            assert(sv[i] == v@[i]@ && sv[j] == v@[j]@);
            if j < p {
                assert(v@[i] == v0[i] && v@[j] == v0[j]);
                assert(string_views(v0)[i] == v0[i]@);
                assert(string_views(v0)[j] == v0[j]@);
            } else if j == p {
                assert(v@[i] == v0[i]);
            } else if i < p {
                assert(v@[i] == v0[i] && v@[j] == v0[j - 1]);
                assert(lex_lt(v0[i]@, x@));
                assert(lex_lt(x@, v0[p as int]@));
                if j - 1 > p {
                    assert(string_views(v0)[p as int] == v0[p as int]@);
                    assert(string_views(v0)[j - 1] == v0[j - 1]@);
                    assert(lex_lt(v0[p as int]@, v0[j - 1]@));
                    lemma_lex_lt(x@, v0[p as int]@, v0[j - 1]@);
                }
                lemma_lex_lt(v0[i]@, x@, v0[j - 1]@);
            } else if i == p {
                assert(v@[j] == v0[j - 1]);
                if j - 1 > p {
                    assert(string_views(v0)[p as int] == v0[p as int]@);
                    assert(string_views(v0)[j - 1] == v0[j - 1]@);
                    lemma_lex_lt(x@, v0[p as int]@, v0[j - 1]@);
                }
            } else {
                assert(v@[i] == v0[i - 1] && v@[j] == v0[j - 1]);
                assert(string_views(v0)[i - 1] == v0[i - 1]@);
                assert(string_views(v0)[j - 1] == v0[j - 1]@);
            }
        }
        assert forall|s: Seq<char>| #[trigger] holds(v@, s) <==> holds(v0, s) || s == x@ by {
            if holds(v@, s) {
                let i = choose|i: int| 0 <= i < v@.len() && (#[trigger] v@[i])@ == s;
                if i < p {
                    assert(v@[i] == v0[i]);
                } else if i > p {
                    assert(v@[i] == v0[i - 1]);
                }
            }
            if holds(v0, s) {
                let i = choose|i: int| 0 <= i < v0.len() && (#[trigger] v0[i])@ == s;
                if i < p {
                    assert(v@[i] == v0[i]);
                } else {
                    assert(v@[i + 1] == v0[i]);
                }
            }
            if s == x@ {
                assert(v@[p as int]@ == x@);
            }
        }
    }
}

/// Build a deterministic 1-based net code table for a design: codes are
/// assigned in `design.nets` order, then any net name appearing only in
/// `design.connections` is appended in sorted order (see
/// [`net_codes_ok`]).
pub fn build_net_codes(design: &Design) -> (r: Vec<(String, usize)>)
    requires
        design.nets@.len() + design.connections@.len() < usize::MAX,
    ensures
        net_codes_ok(*design, r@.map_values(|c: (String, usize)| (c.0@, c.1 as nat))),
{
    let n = design.nets.len();
    let mut codes: Vec<(String, usize)> = Vec::new();
    let mut i: usize = 0;
    while i < n
        invariant
            n == design.nets@.len(),
            i <= n,
            codes@.len() == i,
            forall|k: int| 0 <= k < i ==> (#[trigger] codes@[k]).0@ == design.nets@[k].name@ && codes@[k].1 == k + 1,
        decreases n - i,
    {
        codes.push((design.nets[i].name.clone(), i + 1));
        i = i + 1;
    }
    let mut extra: Vec<String> = Vec::new();
    let mut k: usize = 0;
    while k < design.connections.len()
        invariant
            k <= design.connections@.len(),
            codes@.len() == n,
            forall|q: int| 0 <= q < n ==> (#[trigger] codes@[q]).0@ == design.nets@[q].name@,
            n == design.nets@.len(),
            strictly_sorted(string_views(extra@)),
            extra@.len() <= k,
            forall|s: Seq<char>|
                #[trigger] holds(extra@, s) <==> (!is_design_net(*design, s) && exists|j: int|
                    0 <= j < k && (#[trigger] design.connections@[j]).net@ == s),
        decreases design.connections@.len() - k,
    {
        let net = design.connections[k].net.as_str();
        let mut known = false;
        let mut q: usize = 0;
        while q < codes.len()
            invariant
                q <= codes@.len(),
                codes@.len() == n,
                n == design.nets@.len(),
                forall|q: int| 0 <= q < n ==> (#[trigger] codes@[q]).0@ == design.nets@[q].name@,
                known <==> exists|m: int| 0 <= m < q && (#[trigger] codes@[m]).0@ == net@,
            decreases codes@.len() - q,
        {
            if str_eq(codes[q].0.as_str(), net) {
                known = true;
            }
            q = q + 1;
        }
        proof {
            if known {
                let m = choose|m: int| 0 <= m < q && (#[trigger] codes@[m]).0@ == net@;
                assert(design.nets@[m].name@ == net@);
                assert(is_design_net(*design, net@));
            } else {
                assert forall|m: int| 0 <= m < n implies (#[trigger] design.nets@[m]).name@ != net@ by {
                    assert(codes@[m].0@ == design.nets@[m].name@);
                }
                assert(!is_design_net(*design, net@));
            }
        }
        let ghost e0 = extra@;
        if !known {
            insert_sorted(&mut extra, net);
        }
        proof {
            assert forall|s: Seq<char>|
                #[trigger] holds(extra@, s) <==> (!is_design_net(*design, s) && exists|j: int|
                    0 <= j < k + 1 && (#[trigger] design.connections@[j]).net@ == s) by {
                if exists|j: int| 0 <= j < k + 1 && (#[trigger] design.connections@[j]).net@ == s {
                    let j = choose|j: int| 0 <= j < k + 1 && (#[trigger] design.connections@[j]).net@ == s;
                    if j < k {
                        assert(exists|j: int| 0 <= j < k && (#[trigger] design.connections@[j]).net@ == s);
                    }
                }
                if holds(e0, s) {
                    let j = choose|j: int| 0 <= j < k && (#[trigger] design.connections@[j]).net@ == s;
                    assert(exists|j: int| 0 <= j < k + 1 && (#[trigger] design.connections@[j]).net@ == s);
                }
                if s == net@ && !known {
                    assert(design.connections@[k as int].net@ == s);
                }
            }
        }
        k = k + 1;
    }
    let start = codes.len();
    let ghost ev = string_views(extra@);
    let mut e: usize = 0;
    while e < extra.len()
        invariant
            start == n,
            n == design.nets@.len(),
            e <= extra@.len(),
            extra@.len() <= design.connections@.len(),
            n + design.connections@.len() < usize::MAX,
            ev == string_views(extra@),
            codes@.len() == n + e,
            forall|q: int| 0 <= q < n ==> (#[trigger] codes@[q]).0@ == design.nets@[q].name@,
            forall|q: int| 0 <= q < n + e ==> (#[trigger] codes@[q]).1 == q + 1,
            forall|q: int| 0 <= q < e ==> (#[trigger] codes@[n + q]).0@ == ev[q],
        decreases extra@.len() - e,
    {
        codes.push((extra[e].clone(), start + e + 1));
        e = e + 1;
    }
    proof {
        let cv = codes@.map_values(|c: (String, usize)| (c.0@, c.1 as nat));
        let extras = cv.skip(n as int).map_values(|c: (Seq<char>, nat)| c.0);
        assert(extras =~= ev) by {
            assert forall|q: int| 0 <= q < ev.len() implies extras[q] == ev[q] by {
                assert(codes@[n + q].0@ == ev[q]);
            }
        }
        assert forall|s: Seq<char>| #[trigger] is_extra_net(*design, s) implies extras.contains(s) by {
            let j = choose|j: int| 0 <= j < design.connections@.len() && (#[trigger] design.connections@[j]).net@ == s;
            assert(holds(extra@, s));
            let i = choose|i: int| 0 <= i < extra@.len() && (#[trigger] extra@[i])@ == s;
            assert(ev[i] == s);
        }
        assert forall|q: int| 0 <= q < extras.len() implies is_extra_net(*design, #[trigger] extras[q]) by {
            assert(extras[q] == extra@[q]@);
            assert(holds(extra@, extra@[q]@));
        }
    }
    codes
}

/// Whether the table has a code for `name`.
pub open spec fn has_code(codes: Seq<(Seq<char>, nat)>, name: Seq<char>) -> bool {
    exists|i: int| 0 <= i < codes.len() && (#[trigger] codes[i]).0 == name
}

/// Every net a connection names has a code, and codes run from 1 in order.
pub proof fn law_net_codes_cover(d: Design, codes: Seq<(Seq<char>, nat)>)
    requires
        net_codes_ok(d, codes),
    ensures
        forall|j: int| 0 <= j < d.connections@.len() ==> has_code(codes, (#[trigger] d.connections@[j]).net@),
        forall|i: int| 0 <= i < codes.len() ==> (#[trigger] codes[i]).1 == i + 1,
{
    let n = d.nets@.len() as int;
    let extras = codes.skip(n).map_values(|c: (Seq<char>, nat)| c.0);
    assert forall|j: int| 0 <= j < d.connections@.len() implies has_code(codes, (#[trigger] d.connections@[j]).net@) by {
        let name = d.connections@[j].net@;
        if is_design_net(d, name) {
            let i = choose|i: int| 0 <= i < d.nets@.len() && (#[trigger] d.nets@[i]).name@ == name;
            assert(codes[i].0 == name);
        } else {
            assert(is_extra_net(d, name));
            let e = choose|e: int| 0 <= e < extras.len() && extras[e] == name;
            assert(codes[n + e].0 == name);
        }
    }
}

} // verus!
