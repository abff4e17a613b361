//! Structured diagnostics: a severity, a stable code, a message, the
//! entities concerned and an optional hint.

use vstd::prelude::*;

use crate::text::{push_char, push_str};

verus! {

broadcast use vstd::string::group_string_axioms;

/// How serious a diagnostic is.
#[derive(Clone, Copy, Debug, PartialEq, Eq, Structural)]
pub enum Severity {
    Info,
    Warning,
    Error,
}

/// A structured diagnostic.
#[derive(Clone, Debug, PartialEq, Eq)]
pub struct Diagnostic {
    /// Stable machine-readable code, e.g. `CLI:SYMBOL_NOT_FOUND`.
    pub code: String,
    pub severity: Severity,
    pub message: String,
    /// Names of the parts, pins or files concerned.
    pub entities: Vec<String>,
    pub hint: Option<String>,
}

/// The word a diagnostic's report starts with.
pub open spec fn severity_word(s: Severity) -> Seq<char> {
    match s {
        Severity::Info => "info"@,
        Severity::Warning => "warning"@,
        Severity::Error => "error"@,
    }
}

/// `items` joined with `sep` between consecutive ones.
pub open spec fn join(items: Seq<Seq<char>>, sep: Seq<char>) -> Seq<char>
    decreases items.len(),
{
    if items.len() == 0 {
        Seq::empty()
    } else if items.len() == 1 {
        items[0]
    } else {
        join(items.drop_last(), sep) + sep + items.last()
    }
}

/// The views of a vector of strings.
pub open spec fn views(v: Seq<String>) -> Seq<Seq<char>> {
    v.map_values(|s: String| s@)
}

/// The text of a diagnostic report:
/// `<severity>[<code>] <entities>: <message>` on one line (the entity list,
/// comma-separated, and the space before it only when there are entities),
/// then `  hint: <hint>` on a line of its own when there is a hint.
pub open spec fn report_text(d: Diagnostic) -> Seq<char> {
    severity_word(d.severity) + seq!['['] + d.code@ + seq![']'] + (if d.entities@.len() == 0 {
        Seq::empty()
    } else {
        seq![' '] + join(views(d.entities@), seq![',', ' '])
    }) + seq![':', ' '] + d.message@ + seq!['\n'] + match d.hint {
        Some(h) => "  hint: "@ + h@ + seq!['\n'],
        None => Seq::empty(),
    }
}

/// Appends `items` joined by `", "`.
pub(crate) fn push_joined(out: &mut String, items: &Vec<String>)
    ensures
        final(out)@ == old(out)@ + join(views(items@), seq![',', ' ']),
{
    let ghost o = out@;
    let mut i: usize = 0;
    while i < items.len()
        invariant
            i <= items@.len(),
            out@ == o + join(views(items@).take(i as int), seq![',', ' ']),
        decreases items@.len() - i,
    {
        let ghost before = out@;
        if i > 0 {
            push_char(out, ',');
            push_char(out, ' ');
        }
        push_str(out, items[i].as_str());
        proof {
            let vs = views(items@);
            assert(vs.take(i + 1).drop_last() =~= vs.take(i as int));
            assert(vs.take(i + 1).last() == items@[i as int]@);
            if i == 0 {
                assert(vs.take(0) =~= Seq::<Seq<char>>::empty());
            }
        }
        i = i + 1;
    }
    assert(views(items@).take(i as int) =~= views(items@));
}

/// Report text of a diagnostic, as printed by the command-line tool.
pub fn report(d: &Diagnostic) -> (r: String)
    ensures
        r@ == report_text(*d),
{
    proof {
        reveal_strlit("info");
        reveal_strlit("warning");
        reveal_strlit("error");
        reveal_strlit("  hint: ");
    }
    let mut out = String::new();
    match d.severity {
        Severity::Info => push_str(&mut out, "info"),
        Severity::Warning => push_str(&mut out, "warning"),
        Severity::Error => push_str(&mut out, "error"),
    }
    push_char(&mut out, '[');
    push_str(&mut out, d.code.as_str());
    push_char(&mut out, ']');
    let ghost head = out@;
    if d.entities.len() > 0 {
        push_char(&mut out, ' ');
        push_joined(&mut out, &d.entities);
    }
    let ghost with_entities = out@;
    push_char(&mut out, ':');
    push_char(&mut out, ' ');
    push_str(&mut out, d.message.as_str());
    push_char(&mut out, '\n');
    let ghost body = out@;
    match &d.hint {
        Some(h) => {
            push_str(&mut out, "  hint: ");
            push_str(&mut out, h.as_str());
            push_char(&mut out, '\n');
        },
        None => {},
    }
    assert(out@ =~= report_text(*d));
    out
}

} // verus!
