//! Readers for parts of an existing KiCad PCB file.

use vstd::prelude::*;

use crate::kicad::sexpr::{as_string_spec, Sexpr};
use crate::text::{
    chars_of, ends_with, eq_str, has_prefix, has_suffix, parse_usize, parse_usize_spec,
};

verus! {

broadcast use vstd::string::group_string_axioms;

/// What [`layer_name_to_index`] returns.
pub open spec fn layer_index_spec(name: Seq<char>, copper_count: usize) -> Option<usize> {
    if name == "F.Cu"@ {
        Some(0)
    } else if name == "B.Cu"@ {
        if copper_count >= 1 {
            Some((copper_count - 1) as usize)
        } else {
            None
        }
    } else if has_prefix(name, "In"@) && has_suffix(name, ".Cu"@) {
        parse_usize_spec(name.subrange(2, name.len() - 3))
    } else {
        None
    }
}

/// Map a KiCad copper layer name to a zero-based layer index.
///
/// `"F.Cu"` → 0, `"In1.Cu"` → 1, `"In2.Cu"` → 2, …, `"B.Cu"` → N-1.
pub fn layer_name_to_index(name: &str, copper_count: usize) -> (r: Option<usize>)
    ensures
        r == layer_index_spec(name@, copper_count),
{
    let cs = chars_of(name);
    if eq_str(&cs, "F.Cu") {
        return Some(0);
    }
    if eq_str(&cs, "B.Cu") {
        return copper_count.checked_sub(1);
    }
    let pre = chars_of("In");
    let suf = chars_of(".Cu");
    proof {
        reveal_strlit("In");
        reveal_strlit(".Cu");
        reveal_strlit("F.Cu");
        reveal_strlit("B.Cu");
    }
    if !crate::text::starts_with(&cs, &pre) || !ends_with(&cs, &suf) {
        return None;
    }
    let n = cs.len();
    assert(n >= 5) by {
        if n < 5 {
            assert(cs@.take(2)[1] == 'n');
            assert(cs@.skip(n - 3)[0] == '.');
        }
    }
    let mut mid: Vec<char> = Vec::new();
    let mut k: usize = 2;
    while k < n - 3
        invariant
            n == cs@.len(),
            n >= 5,
            2 <= k <= n - 3,
            mid@ == cs@.subrange(2, k as int),
        decreases n - 3 - k,
    {
        mid.push(cs[k]);
        k = k + 1;
        assert(mid@ =~= cs@.subrange(2, k as int));
    }
    parse_usize(&mid)
}

/// What [`parse_net`] returns.
pub open spec fn parse_net_spec(parts: Seq<Sexpr>) -> Option<(usize, Seq<char>)> {
    if parts.len() < 3 {
        None
    } else {
        match parse_usize_spec(as_string_spec(parts[1]@)) {
            Some(code) => Some((code, as_string_spec(parts[2]@))),
            None => None,
        }
    }
}

/// Parse a `(net CODE "NAME")` node.  CODE is the KiCad 1-based net number.
pub fn parse_net(parts: &[Sexpr]) -> (r: Option<(usize, String)>)
    ensures
        match parse_net_spec(parts@) {
            Some((code, name)) => r matches Some((c, n)) && c == code && n@ == name,
            None => r is None,
        },
{
    if parts.len() < 3 {
        return None;
    }
    let code_text = parts[1].as_string();
    let code_chars = chars_of(code_text.as_str());
    let code = parse_usize(&code_chars)?;
    let name = parts[2].as_string();
    Some((code, name))
}

} // verus!
