//! Contents of a vendor parts crate: its manifest, its `lib.rs` and its
//! entry in the workspace members.

use vstd::prelude::*;

use crate::cli::manifest::{toml_stem, toml_stem_spec};
use crate::text::{
    chars_of, chars_range, find_char, find_pattern, find_seq, index_of, last_index_of,
    lemma_find_from, lemma_index_of, lemma_last_index_of, occurs_at, push_char, push_str,
    rfind_char, string_of_range,
};

verus! {

broadcast use vstd::string::group_string_axioms;

/// File stem of a part's TOML file (see [`toml_stem_spec`]).
pub fn toml_filename(lib_id: &str) -> (r: String)
    ensures
        r@ == toml_stem_spec(lib_id@),
{
    toml_stem(lib_id)
}

/// The `lib.rs` line that builds a part: `build_component!("<stem>.toml");`
/// and a newline.
pub open spec fn component_line_spec(lib_id: Seq<char>) -> Seq<char> {
    "build_component!(\""@ + toml_stem_spec(lib_id) + ".toml\");\n"@
}

/// The `lib.rs` line that builds the part `lib_id`.
pub fn component_line(lib_id: &str) -> (r: String)
    ensures
        r@ == component_line_spec(lib_id@),
{
    let mut out = String::new();
    push_str(&mut out, "build_component!(\"");
    let stem = toml_filename(lib_id);
    push_str(&mut out, stem.as_str());
    push_str(&mut out, ".toml\");\n");
    out
}

/// `content` with `line` added: unchanged when it already holds the line;
/// otherwise the line appended, after a newline when `content` does not end
/// with one.
pub open spec fn with_line_spec(content: Seq<char>, line: Seq<char>) -> Seq<char> {
    if find_seq(content, line) is Some {
        content
    } else if content.len() > 0 && content.last() == '\n' {
        content + line
    } else {
        content.push('\n') + line
    }
}

/// A vendor crate's `lib.rs` content with the part `lib_id` registered.
pub fn with_component(content: &str, lib_id: &str) -> (r: String)
    ensures
        r@ == with_line_spec(content@, component_line_spec(lib_id@)),
{
    let line = component_line(lib_id);
    let cs = chars_of(content);
    let ls = chars_of(line.as_str());
    if find_pattern(&cs, &ls).is_some() {
        return content.to_string();
    }
    let mut out = content.to_string();
    if !(cs.len() > 0 && cs[cs.len() - 1] == '\n') {
        push_char(&mut out, '\n');
    }
    push_str(&mut out, line.as_str());
    out
}

/// The `Cargo.toml` of a new vendor crate.
pub open spec fn vendor_cargo_spec(vendor: Seq<char>) -> Seq<char> {
    "[package]\nname = \"copperleaf-parts-"@ + vendor
        + "\"\nversion.workspace = true\nedition.workspace = true\ndescription = \""@ + vendor
        + " vendor components\"\nlicense.workspace = true\n\n[lib]\npath = \"lib.rs\"\n\n[dependencies]\ncopperleaf.workspace = true\ncopperleaf-part-macro.workspace = true\n"@
}

/// The `Cargo.toml` of a new vendor crate.
pub fn vendor_cargo_toml(vendor: &str) -> (r: String)
    ensures
        r@ == vendor_cargo_spec(vendor@),
{
    let mut out = String::new();
    push_str(&mut out, "[package]\nname = \"copperleaf-parts-");
    push_str(&mut out, vendor);
    push_str(&mut out, "\"\nversion.workspace = true\nedition.workspace = true\ndescription = \"");
    push_str(&mut out, vendor);
    push_str(
        &mut out,
        " vendor components\"\nlicense.workspace = true\n\n[lib]\npath = \"lib.rs\"\n\n[dependencies]\ncopperleaf.workspace = true\ncopperleaf-part-macro.workspace = true\n",
    );
    out
}

/// The initial `lib.rs` of a new vendor crate.
pub open spec fn vendor_lib_spec(vendor: Seq<char>) -> Seq<char> {
    "//! "@ + vendor + " vendor components\n\nuse copperleaf_part_macro::build_component;\n"@
}

/// The initial `lib.rs` of a new vendor crate.
pub fn vendor_lib_rs(vendor: &str) -> (r: String)
    ensures
        r@ == vendor_lib_spec(vendor@),
{
    let mut out = String::new();
    push_str(&mut out, "//! ");
    push_str(&mut out, vendor);
    push_str(&mut out, " vendor components\n\nuse copperleaf_part_macro::build_component;\n");
    out
}

/// `members = [`.
pub open spec fn members_open() -> Seq<char> {
    seq!['m', 'e', 'm', 'b', 'e', 'r', 's', ' ', '=', ' ', '[']
}

/// A workspace manifest with `member` added to its `members` array: `None`
/// when nothing is to change (the member is already named, or there is no
/// complete `members = [ ... ]`); otherwise the manifest with
/// `,\n  "<member>"` inserted after the array's last `"` (right after the
/// opening `[` when the array holds none).
pub open spec fn add_member_spec(content: Seq<char>, member: Seq<char>) -> Option<Seq<char>> {
    if find_seq(content, seq!['"'] + member + seq!['"']) is Some {
        None
    } else {
        match find_seq(content, members_open()) {
            None => None,
            Some(start) => match index_of(content.skip(start as int), ']') {
                None => None,
                Some(i) => {
                    let array = content.subrange(start as int, (start + i + 1) as int);
                    let pos: int = match last_index_of(array, '"') {
                        Some(q) => (start + q + 1) as int,
                        None => (start + members_open().len()) as int,
                    };
                    Some(
                        content.take(pos) + seq![',', '\n', ' ', ' ', '"'] + member + seq!['"']
                            + content.skip(pos),
                    )
                },
            },
        }
    }
}

/// Add `member` to the workspace manifest `content` (see
/// [`add_member_spec`]).
pub fn add_workspace_member(content: &str, member: &str) -> (r: Option<String>)
    ensures
        match add_member_spec(content@, member@) {
            Some(t) => r matches Some(s) && s@ == t,
            None => r is None,
        },
{
    let cs = chars_of(content);
    let ms = chars_of(member);
    let mut quoted: Vec<char> = Vec::new();
    quoted.push('"');
    let mut k: usize = 0;
    while k < ms.len()
        invariant
            k <= ms@.len(),
            quoted@ == seq!['"'] + ms@.take(k as int),
        decreases ms@.len() - k,
    {
        quoted.push(ms[k]);
        k = k + 1;
        assert(quoted@ =~= seq!['"'] + ms@.take(k as int));
    }
    quoted.push('"');
    assert(ms@.take(k as int) =~= ms@);
    assert(quoted@ =~= seq!['"'] + member@ + seq!['"']);
    if find_pattern(&cs, &quoted).is_some() {
        return None;
    }
    let open = vec!['m', 'e', 'm', 'b', 'e', 'r', 's', ' ', '=', ' ', '['];
    assert(open@ =~= members_open());
    let start = match find_pattern(&cs, &open) {
        Some(s) => s,
        None => {
            return None;
        },
    };
    proof {
        lemma_find_from(cs@, members_open(), 0);
    }
    let n = cs.len();
    let tail = chars_range(&cs, start, n);
    assert(tail@ =~= cs@.skip(start as int));
    let i = match find_char(&tail, ']') {
        Some(i) => i,
        None => {
            return None;
        },
    };
    proof {
        lemma_index_of(tail@, ']');
    }
    let array = chars_range(&cs, start, start + i + 1);
    let pos: usize = match rfind_char(&array, '"') {
        Some(q) => {
            proof {
                lemma_last_index_of(array@, '"');
            }
            start + q + 1
        },
        None => start + 11,
    };
    let mut out = string_of_range(&cs, 0, pos);
    push_char(&mut out, ',');
    push_char(&mut out, '\n');
    push_char(&mut out, ' ');
    push_char(&mut out, ' ');
    push_char(&mut out, '"');
    push_str(&mut out, member);
    push_char(&mut out, '"');
    let rest = string_of_range(&cs, pos, n);
    push_str(&mut out, rest.as_str());
    assert(cs@.subrange(0, pos as int) =~= cs@.take(pos as int));
    assert(cs@.subrange(pos as int, n as int) =~= cs@.skip(pos as int));
    Some(out)
}

/// A text that holds `pat` at `i` is one where `pat` is found.
proof fn lemma_found(s: Seq<char>, pat: Seq<char>, i: int)
    requires
        occurs_at(s, i, pat),
    ensures
        find_seq(s, pat) is Some,
{
    lemma_find_from(s, pat, 0);
}

/// Registering a part in a vendor crate twice gives the same `lib.rs` as
/// registering it once.
pub proof fn law_with_component_idempotent(content: Seq<char>, lib_id: Seq<char>)
    ensures
        with_line_spec(with_line_spec(content, component_line_spec(lib_id)), component_line_spec(lib_id))
            == with_line_spec(content, component_line_spec(lib_id)),
{
    let line = component_line_spec(lib_id);
    let t = with_line_spec(content, line);
    if find_seq(content, line) is None {
        let head = if content.len() > 0 && content.last() == '\n' {
            content
        } else {
            content.push('\n')
        };
        assert(t == head + line);
        assert(t.subrange(head.len() as int, (head.len() + line.len()) as int) =~= line);
        lemma_found(t, line, head.len() as int);
    }
}

/// Adding a member to a workspace manifest, then adding it again, leaves
/// the second call nothing to change.
pub proof fn law_add_member_once(content: Seq<char>, member: Seq<char>)
    requires
        add_member_spec(content, member) is Some,
    ensures
        add_member_spec(add_member_spec(content, member).unwrap(), member) is None,
{
    let quoted = seq!['"'] + member + seq!['"'];
    let start = find_seq(content, members_open()).unwrap();
    lemma_find_from(content, members_open(), 0);
    let tail = content.skip(start as int);
    lemma_index_of(tail, ']');
    let i = index_of(tail, ']').unwrap();
    let array = content.subrange(start as int, (start + i + 1) as int);
    lemma_last_index_of(array, '"');
    let pos: int = match last_index_of(array, '"') {
        Some(q) => (start + q + 1) as int,
        None => (start + members_open().len()) as int,
    };
    assert(0 <= pos <= content.len());
    let ins = seq![',', '\n', ' ', ' ', '"'];
    let t = content.take(pos) + ins + member + seq!['"'] + content.skip(pos);
    assert(add_member_spec(content, member) == Some(t));
    let at = pos + 4;
    assert(t.subrange(at, at + quoted.len()) =~= quoted);
    lemma_found(t, quoted, at);
}

} // verus!
