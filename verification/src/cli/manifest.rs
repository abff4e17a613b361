//! Naming and numbering rules for part manifests.

use vstd::prelude::*;

use crate::cli::CliError;
use crate::diagnostic::{Diagnostic, Severity};
use crate::text::{
    ascii_lower, ascii_lower_spec, ascii_upper, ascii_upper_spec, chars_of, has_prefix,
    is_ascii_alnum, is_ascii_alnum_spec, last_index_of, last_part, slash_path, parse_usize, parse_usize_spec, push_char,
    push_str, starts_with, str_eq,
};

verus! {

broadcast use vstd::string::group_string_axioms;

/// Parse a KiCad pin/pad number string into a numeric `usize`.
///
/// Purely numeric strings are parsed directly (as `usize::from_str` does).
/// Non-numeric strings (common in connectors, e.g. `"TD2+"`) get the value
/// of `counter`, which then moves on by one, so that every pin receives a
/// unique identity.
pub fn pin_number(number: &str, counter: &mut usize) -> (r: usize)
    requires
        parse_usize_spec(number@) is None ==> *old(counter) < usize::MAX,
    ensures
        match parse_usize_spec(number@) {
            Some(n) => r == n && *final(counter) == *old(counter),
            None => r == *old(counter) && *final(counter) == *old(counter) + 1,
        },
{
    let cs = chars_of(number);
    match parse_usize(&cs) {
        Some(n) => n,
        None => {
            let n = *counter;
            *counter = *counter + 1;
            n
        },
    }
}

/// PascalCase words of `s`: each maximal run of ASCII letters and digits,
/// its first character upper-cased and the rest lower-cased; `first` tells
/// whether the next alphanumeric character starts a word.
pub open spec fn pascal_words(s: Seq<char>, first: bool) -> Seq<char>
    decreases s.len(),
{
    if s.len() == 0 {
        Seq::empty()
    } else if is_ascii_alnum_spec(s[0]) {
        seq![
            if first {
                ascii_upper_spec(s[0])
            } else {
                ascii_lower_spec(s[0])
            },
        ] + pascal_words(s.skip(1), false)
    } else {
        pascal_words(s.skip(1), true)
    }
}

/// What [`struct_name`] returns: the PascalCase words of the lib-id, or
/// `Part` when it has no ASCII letter or digit.
pub open spec fn struct_name_spec(lib_id: Seq<char>) -> Seq<char> {
    if pascal_words(lib_id, true).len() == 0 {
        "Part"@
    } else {
        pascal_words(lib_id, true)
    }
}

/// Convert a lib-id into a PascalCase Rust struct name.
pub fn struct_name(lib_id: &str) -> (r: String)
    ensures
        r@ == struct_name_spec(lib_id@),
{
    let cs = chars_of(lib_id);
    let mut out = String::new();
    let mut first = true;
    let mut any = false;
    let mut i: usize = 0;
    assert(cs@.skip(0) =~= cs@);
    while i < cs.len()
        invariant
            i <= cs@.len(),
            cs@ == lib_id@,
            out@ + pascal_words(cs@.skip(i as int), first) == pascal_words(cs@, true),
            any == (out@.len() > 0),
        decreases cs@.len() - i,
    {
        let ch = cs[i];
        let ghost rest = cs@.skip(i as int);
        assert(rest.skip(1) =~= cs@.skip(i + 1));
        if is_ascii_alnum(ch) {
            if first {
                push_char(&mut out, ascii_upper(ch));
            } else {
                push_char(&mut out, ascii_lower(ch));
            }
            first = false;
            any = true;
        } else {
            first = true;
        }
        i = i + 1;
    }
    proof {
        assert(cs@.skip(i as int) =~= Seq::<char>::empty());
        assert(out@ =~= pascal_words(cs@, true));
    }
    if !any {
        proof {
            reveal_strlit("Part");
        }
        return "Part".to_string();
    }
    out
}

/// A lib-id character in a file stem: ASCII letters and digits lower-cased,
/// anything else `_`.
pub open spec fn stem_char(c: char) -> char {
    if is_ascii_alnum_spec(c) {
        ascii_lower_spec(c)
    } else {
        '_'
    }
}

/// What [`toml_stem`] returns: the lib-id with each character mapped by
/// [`stem_char`], or `part` for an empty lib-id.
pub open spec fn toml_stem_spec(lib_id: Seq<char>) -> Seq<char> {
    if lib_id.len() == 0 {
        "part"@
    } else {
        lib_id.map_values(|c: char| stem_char(c))
    }
}

/// Convert a lib-id to a lowercase TOML-safe filename stem.
pub fn toml_stem(lib_id: &str) -> (r: String)
    ensures
        r@ == toml_stem_spec(lib_id@),
{
    let cs = chars_of(lib_id);
    let mut out = String::new();
    let mut i: usize = 0;
    while i < cs.len()
        invariant
            i <= cs@.len(),
            cs@ == lib_id@,
            out@ == cs@.take(i as int).map_values(|c: char| stem_char(c)),
        decreases cs@.len() - i,
    {
        let ch = cs[i];
        if is_ascii_alnum(ch) {
            push_char(&mut out, ascii_lower(ch));
        } else {
            push_char(&mut out, '_');
        }
        i = i + 1;
        assert(out@ =~= cs@.take(i as int).map_values(|c: char| stem_char(c)));
    }
    assert(cs@.take(i as int) =~= cs@);
    if cs.len() == 0 {
        proof {
            reveal_strlit("part");
        }
        return "part".to_string();
    }
    out
}

/// Whether a pin name is a placeholder given to a pad with no name yet.
pub fn is_placeholder_name(name: &str) -> (b: bool)
    ensures
        b == has_prefix(name@, "PAD_"@),
{
    let cs = chars_of(name);
    let p = chars_of("PAD_");
    starts_with(&cs, &p)
}

/// The pin purpose written for a pin kind.
pub open spec fn purpose_spec(kind: Seq<char>) -> Seq<char> {
    if kind == "gnd"@ {
        "Ground"@
    } else if kind == "pwr"@ || kind == "pwr_fixed"@ || kind == "pwr_out"@ {
        "Supply"@
    } else {
        "I/O"@
    }
}

/// Default purpose of a pin of the given kind.
pub fn purpose_for_kind(kind: &str) -> (r: &'static str)
    ensures
        r@ == purpose_spec(kind@),
{
    if str_eq(kind, "gnd") {
        "Ground"
    } else if str_eq(kind, "pwr") || str_eq(kind, "pwr_fixed") || str_eq(kind, "pwr_out") {
        "Supply"
    } else {
        "I/O"
    }
}

/// `str::eq_ignore_ascii_case`: equal up to ASCII case.
pub open spec fn eq_ignore_case(a: Seq<char>, b: Seq<char>) -> bool {
    a.len() == b.len() && forall|i: int|
        0 <= i < a.len() ==> ascii_lower_spec(#[trigger] a[i]) == ascii_lower_spec(b[i])
}

/// Executable [`eq_ignore_case`].
pub fn eq_ignore_ascii_case(a: &[char], b: &[char]) -> (r: bool)
    ensures
        r == eq_ignore_case(a@, b@),
{
    if a.len() != b.len() {
        return false;
    }
    let mut i: usize = 0;
    while i < a.len()
        invariant
            a@.len() == b@.len(),
            i <= a@.len(),
            forall|j: int| 0 <= j < i ==> ascii_lower_spec(#[trigger] a@[j]) == ascii_lower_spec(b@[j]),
        decreases a@.len() - i,
    {
        if ascii_lower(a[i]) != ascii_lower(b[i]) {
            return false;
        }
        i = i + 1;
    }
    true
}

/// The diagnostic for a file of the wrong kind: `'<path>' is <wrong_kind>,
/// not a <right_kind> — use <flag> instead`, under `code`.
pub open spec fn wrong_file(
    d: Diagnostic,
    path: Seq<char>,
    code: Seq<char>,
    wrong_kind: Seq<char>,
    right_kind: Seq<char>,
    flag: Seq<char>,
) -> bool {
    &&& d.code@ == code
    &&& d.severity == Severity::Error
    &&& d.message@ == seq!['\''] + path + "' is "@ + wrong_kind + ", not a "@ + right_kind
        + " — use "@ + flag + " instead"@
    &&& d.entities@.len() == 0
    &&& d.hint is None
}

/// Guard against passing a file of the wrong type, given the file's
/// extension `ext`: when it is `bad_ext` up to ASCII case, the diagnostic
/// suggesting `flag` instead (see [`wrong_file`]).
pub fn check_extension_of(
    path: &str,
    ext: Option<&str>,
    bad_ext: &str,
    code: &str,
    wrong_kind: &str,
    right_kind: &str,
    flag: &str,
) -> (r: Result<(), CliError>)
    ensures
        match ext {
            Some(e) => if eq_ignore_case(e@, bad_ext@) {
                r matches Err(CliError::Diagnostic(d)) && wrong_file(
                    d,
                    path@,
                    code@,
                    wrong_kind@,
                    right_kind@,
                    flag@,
                )
            } else {
                r is Ok
            },
            None => r is Ok,
        },
{
    match ext {
        Some(e) => {
            let ec = chars_of(e);
            let bc = chars_of(bad_ext);
            if eq_ignore_ascii_case(&ec, &bc) {
                let mut message = String::new();
                push_char(&mut message, '\'');
                push_str(&mut message, path);
                push_str(&mut message, "' is ");
                push_str(&mut message, wrong_kind);
                push_str(&mut message, ", not a ");
                push_str(&mut message, right_kind);
                push_str(&mut message, " — use ");
                push_str(&mut message, flag);
                push_str(&mut message, " instead");
                let d = Diagnostic {
                    code: code.to_string(),
                    severity: Severity::Error,
                    message,
                    entities: Vec::new(),
                    hint: None,
                };
                assert(d.message@ == seq!['\''] + path@ + "' is "@ + wrong_kind@ + ", not a "@
                    + right_kind@ + " — use "@ + flag@ + " instead"@);
                Err(CliError::Diagnostic(d))
            } else {
                Ok(())
            }
        },
        None => Ok(()),
    }
}

/// A path that is one plain file name on every platform: no `/`, `\` or
/// `:` (so no separator and no prefix), and not `..`.
pub open spec fn plain_name(path: Seq<char>) -> bool {
    &&& forall|i: int| 0 <= i < path.len() ==> path[i] != '/' && path[i] != '\\' && path[i] != ':'
    &&& path != ".."@
}

/// The extension of a plain file name, as `Path::extension` documents it:
/// the text after the final `.`, when that `.` is not the name's first
/// character; none otherwise (no `.`, or a name such as `.hidden`).
pub open spec fn plain_extension(path: Seq<char>) -> Option<Seq<char>> {
    match last_index_of(path, '.') {
        Some(i) => if i > 0 {
            Some(path.skip(i + 1 as int))
        } else {
            None
        },
        None => None,
    }
}

/// Calls `std::path::Path::extension` on `path` and converts the result to a
/// string. The contract states what its documentation (with that of
/// `Path::file_name`) gives on every platform: an extension holds no `.`; a
/// path with no `.` has none; a path that is one plain file name (see
/// [`plain_name`]) has the one of [`plain_extension`]; and a path whose
/// final component is its part after the last `/` (see [`slash_path`]) has
/// the one of that part. Which piece of any other path it returns depends on
/// the platform's path syntax and is not stated.
#[verifier::external_body]
fn path_extension(path: &str) -> (r: Option<String>)
    ensures
        r matches Some(e) ==> (forall|i: int| 0 <= i < e@.len() ==> e@[i] != '.'),
        (forall|i: int| 0 <= i < path@.len() ==> path@[i] != '.') ==> r is None,
        plain_name(path@) ==> match plain_extension(path@) {
            Some(x) => r matches Some(e) && e@ == x,
            None => r is None,
        },
        slash_path(path@) ==> match plain_extension(last_part(path@)) {
            Some(x) => r matches Some(e) && e@ == x,
            None => r is None,
        },
{
    std::path::Path::new(path).extension().and_then(|s| s.to_str()).map(|s| s.to_string())
}

/// Guard against passing a file of the wrong type: when `path`'s extension
/// is `bad_ext` up to ASCII case, the diagnostic suggesting `flag` instead.
/// Whatever the extension, an error is that diagnostic.
pub fn check_extension(
    path: &str,
    bad_ext: &str,
    code: &str,
    wrong_kind: &str,
    right_kind: &str,
    flag: &str,
) -> (r: Result<(), CliError>)
    ensures
        r matches Err(e) ==> e matches CliError::Diagnostic(d) && wrong_file(
            d,
            path@,
            code@,
            wrong_kind@,
            right_kind@,
            flag@,
        ),
        (forall|i: int| 0 <= i < path@.len() ==> path@[i] != '.') ==> r is Ok,
        plain_name(path@) ==> (r is Err <==> (plain_extension(path@) matches Some(x) && eq_ignore_case(
            x,
            bad_ext@,
        ))),
        slash_path(path@) ==> (r is Err <==> (plain_extension(last_part(path@)) matches Some(x)
            && eq_ignore_case(x, bad_ext@))),
{
    let ext = path_extension(path);
    match &ext {
        Some(e) => check_extension_of(path, Some(e.as_str()), bad_ext, code, wrong_kind, right_kind, flag),
        None => check_extension_of(path, None, bad_ext, code, wrong_kind, right_kind, flag),
    }
}

} // verus!
