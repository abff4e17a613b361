//! Prompts for the model that turns datasheets into part manifests, and
//! extraction of the TOML payload from its reply.

use vstd::prelude::*;

use crate::cli::CliError;
use crate::diagnostic::{Diagnostic, Severity};
use crate::text::{
    chars_of, chars_range, find_pattern, find_seq, lemma_find_from, push_char, push_str,
    trim, trimmed,
};

verus! {

broadcast use vstd::string::group_string_axioms;

/// Three backticks: a markdown fence.
pub open spec fn fence() -> Seq<char> {
    seq!['`', '`', '`']
}

/// The opening of a fenced TOML block.
pub open spec fn toml_fence() -> Seq<char> {
    seq!['`', '`', '`', 't', 'o', 'm', 'l']
}

/// The trimmed text between the first occurrence of `open` in `raw` and the
/// next fence after it, when both are there.
pub open spec fn fenced_after(raw: Seq<char>, open: Seq<char>) -> Option<Seq<char>> {
    match find_seq(raw, open) {
        Some(s) => {
            let rest = raw.skip((s + open.len()) as int);
            match find_seq(rest, fence()) {
                Some(e) => Some(trim(rest.take(e as int))),
                None => None,
            }
        },
        None => None,
    }
}

/// The TOML payload of a reply: the body of the first ```` ```toml ````
/// block, else of the first fenced block, else the whole trimmed reply when
/// it starts with `[`; `None` when there is none of these.
pub open spec fn extract_toml_spec(raw: Seq<char>) -> Option<Seq<char>> {
    match fenced_after(raw, toml_fence()) {
        Some(t) => Some(t),
        None => match fenced_after(raw, fence()) {
            Some(t) => Some(t),
            None => if trim(raw).len() > 0 && trim(raw)[0] == '[' {
                Some(trim(raw))
            } else {
                None
            },
        },
    }
}

/// The diagnostic for a reply without a TOML payload, read from `path`.
pub open spec fn toml_not_found(d: Diagnostic, path: Seq<char>) -> bool {
    &&& d.code@ == "CLI:LLM_TOML_NOT_FOUND"@
    &&& d.severity == Severity::Error
    &&& d.message@ == "LLM response did not contain a valid TOML block for '"@ + path + seq!['\'']
    &&& d.entities@.len() == 1
    &&& d.entities@[0]@ == path
    &&& d.hint matches Some(h) && h@ == "The model may have returned explanatory text instead of TOML"@
}

fn fenced_block(raw: &Vec<char>, open: &Vec<char>) -> (r: Option<String>)
    requires
        open@.len() > 0,
    ensures
        match fenced_after(raw@, open@) {
            Some(t) => r matches Some(s) && s@ == t,
            None => r is None,
        },
{
    let fence_v = vec!['`', '`', '`'];
    assert(fence_v@ =~= fence());
    match find_pattern(raw, open) {
        Some(s) => {
            proof {
                lemma_find_from(raw@, open@, 0);
            }
            let n = raw.len();
            let rest = chars_range(raw, s + open.len(), n);
            assert(rest@ =~= raw@.skip(s + open@.len()));
            match find_pattern(&rest, &fence_v) {
                Some(e) => {
                    proof {
                        lemma_find_from(rest@, fence(), 0);
                    }
                    let body = chars_range(&rest, 0, e);
                    assert(body@ =~= rest@.take(e as int));
                    Some(trimmed(&body))
                },
                None => None,
            }
        },
        None => None,
    }
}

/// Strip markdown fences and return the TOML payload of a model's reply
/// (see [`extract_toml_spec`]); `source_path` names the datasheet in the
/// diagnostic returned when there is no payload.
pub fn extract_toml(raw: &str, source_path: &str) -> (r: Result<String, CliError>)
    ensures
        match extract_toml_spec(raw@) {
            Some(t) => r matches Ok(s) && s@ == t,
            None => r matches Err(CliError::Diagnostic(d)) && toml_not_found(d, source_path@),
        },
{
    let cs = chars_of(raw);
    let toml_open = vec!['`', '`', '`', 't', 'o', 'm', 'l'];
    assert(toml_open@ =~= toml_fence());
    if let Some(t) = fenced_block(&cs, &toml_open) {
        return Ok(t);
    }
    let fence_v = vec!['`', '`', '`'];
    assert(fence_v@ =~= fence());
    if let Some(t) = fenced_block(&cs, &fence_v) {
        return Ok(t);
    }
    let t = trimmed(&cs);
    let tc = chars_of(t.as_str());
    if tc.len() > 0 && tc[0] == '[' {
        return Ok(t);
    }
    let mut message = String::new();
    push_str(&mut message, "LLM response did not contain a valid TOML block for '");
    push_str(&mut message, source_path);
    push_char(&mut message, '\'');
    let mut entities: Vec<String> = Vec::new();
    entities.push(source_path.to_string());
    let d = Diagnostic {
        code: "CLI:LLM_TOML_NOT_FOUND".to_string(),
        severity: Severity::Error,
        message,
        entities,
        hint: Some("The model may have returned explanatory text instead of TOML".to_string()),
    };
    assert(extract_toml_spec(raw@) is None);
    assert(d.entities@[0]@ == source_path@);
    assert(d.message@ == "LLM response did not contain a valid TOML block for '"@ + source_path@ + seq!['\'']);
    Err(CliError::Diagnostic(d))
}

/// The prompt for a new manifest, before the optional title and
/// description hints.
pub const NEW_PROMPT: &'static str = r#"You are a hardware engineer creating a Copperleaf part manifest TOML from a component datasheet.
The datasheet text is attached as `datasheet.txt`.
Read it carefully and produce a complete, valid TOML manifest.

Schema:

[component]
name = "PascalCaseName"        # Rust struct name for the generated code
title = "Manufacturer PartType Description (Package)"  # e.g. "Texas Instruments TPS63031 Buck-Boost Converter with 1-A Switches (QFN-10)"
description = "..."            # Optional one-line summary
datasheet = "..."              # URL to the component datasheet
lib_id = "..."                 # Library identifier used in KiCad

[[pin]]
num = 1
name = "..."
purpose = "..."                # Short functional description (e.g. "GPIO", "Supply", "Ground")
notes = "..."                  # Optional extra context
kind = "..."                   # Required: one of gnd, dio, analog_in, analog_rf, clk, spi, pwr, pwr_fixed, pwr_out
bw_mhz = 25.0                    # Required for kind=clk or kind=spi
v = 3.3                          # Required for kind=pwr_fixed or kind=pwr_out
v_min = 1.8                      # Required for kind=pwr
v_max = 3.3                      # Required for kind=pwr
i = 0.1                          # Required for kind=pwr_fixed or kind=pwr_out
i_max = 0.1                      # Required for kind=pwr
nc = false                       # Optional: true if this pin must not be connected

[[constraint]]
type = "..."                   # Exactly one of: Decoupling, LengthMatch, MaxJunction
values = ["100nF"]              # Required for Decoupling: capacitor values as unit strings
per_pin = false                 # Optional for Decoupling: true if each pin needs its own cap
group = "..."                   # Required for LengthMatch: net group name
skew_ps = 0.0                   # Required for LengthMatch: max skew in picoseconds
temp = "125C"                   # Required for MaxJunction: max junction temperature

Rules:
1. Use the exact pin numbering and names from the datasheet.
2. Format the title as "Manufacturer PartNumber Description (Package)" using the manufacturer name, part number, functional description, and package type from the datasheet. Include the datasheet URL in the datasheet field.
3. Choose the correct kind for each pin:
   - gnd: ground / VSS pins
   - pwr: supply input with a voltage range (requires v_min, v_max, i_max)
   - pwr_fixed: fixed-voltage regulator output or fixed supply (requires v, i)
   - pwr_out: power-supply output rail that feeds external loads (requires v, i).
     NOT for internal regulator bypass pins that only need a decoupling capacitor.
   - dio: general digital I/O
   - analog_in: analog input
   - analog_rf: RF or high-speed analog I/O (single-ended or differential).
     Includes RF ports, antenna pins, PA/LNA connections, and internal LDO bypass
     pins in the RF/analog domain (e.g. PA_LDO_OUT).
   - clk: clock input/output (requires bw_mhz)
   - spi: SPI bus pins (requires bw_mhz)
4. Internal LDO bypass pins (e.g. PA_LDO_OUT, DIG_LDO_OUT, RF_LDO_OUT) are NOT
   pwr_out. They only need a decoupling capacitor to ground. Classify them by domain:
   analog_rf for RF/analog LDO outputs, dio for digital LDO outputs.
5. For power pins include the required electrical fields; never leave them blank.
6. For clocks and SPI set a sensible bw_mhz based on the datasheet max frequency.
7. Add brief notes for ambiguous pins (e.g. "do not connect", "analog 3.3V", "active-low reset").
8. Only use these constraint types with their exact fields:
   - Decoupling: values (array of strings like "100nF"), per_pin (bool, optional)
   - LengthMatch: group (string), skew_ps (number)
   - MaxJunction: temp (string like "125C")
   Do NOT invent constraint types or fields not listed above.
9. Do NOT invent pins or values not present in the datasheet. In particular, do NOT add a `model_3d_data` field — it is managed by the tool.
10. Output ONLY the TOML inside a single fenced code block (` ```toml ... ``` `). No explanatory text."#;

/// The prompt for enriching an existing manifest.
pub const UPDATE_PROMPT: &'static str = r#"You are a hardware engineer updating a Copperleaf part manifest TOML from a component datasheet.
Two files are attached:

- `existing.toml` is the current manifest.
- `datasheet.txt` is the datasheet text.

Read both files and produce an updated, valid TOML manifest.

Rules:
1. Preserve every pin and every existing field unless the datasheet clearly contradicts it.
2. `model_3d_data` is intentionally omitted from `existing.toml`. It is an opaque base64-encoded 3D model (STEP file), typically hundreds of kilobytes to megabytes long, managed by the tool and unrelated to the datasheet text. Ignore it completely: do NOT emit a `model_3d_data` field in your output, do NOT invent or recreate it, and do NOT add any placeholder for it.
3. Apply the verbatim rule to every other existing field: copy it unchanged unless the datasheet clearly contradicts it. Do not paraphrase, reformat, or "clean up" existing values, and do not invent replacements for values you cannot reproduce.
4. Enrich the title with manufacturer name, part number, functional description, and package type if not already descriptive. Format: "Manufacturer PartNumber Description (Package)".
5. Add the datasheet URL in the datasheet field if missing.
6. Enrich pins with purpose, notes, and electrical specs (v_min, v_max, i_max, v, i, bw_mhz) where the datasheet provides them.
7. Preserve the existing pin kind unless the datasheet clearly contradicts it.
   If the existing kind is already correct (e.g. analog_rf for an RF-domain pin
   like PA_LDO_OUT), do NOT change it — even if the pin name contains "LDO" or
   "_OUT". Internal LDO bypass pins that only need a decoupling capacitor are
   NOT pwr_out.
8. Only add new pins if the datasheet explicitly lists them and they are missing from the existing manifest.
9. Use the Copperleaf pin kinds: gnd, dio, analog_in, analog_rf, clk, spi, pwr, pwr_fixed, pwr_out.
   - pwr_out is for power-supply output rails that feed external loads — NOT for
     internal regulator bypass pins that only need a decoupling capacitor.
   - analog_rf covers RF and high-speed analog I/O (single-ended or differential),
     including RF ports, antenna pins, PA/LNA connections, and internal LDO bypass
     pins in the RF/analog domain (e.g. PA_LDO_OUT).
10. For kind=pwr include v_min, v_max, i_max. For kind=pwr_fixed or pwr_out include v and i. For kind=clk or spi include bw_mhz.
11. Only use these constraint types with their exact fields:
    - Decoupling: values (array of strings like "100nF"), per_pin (bool, optional)
    - LengthMatch: group (string), skew_ps (number)
    - MaxJunction: temp (string like "125C")
    Do NOT invent constraint types or fields not listed above.
12. Do NOT invent information not present in the datasheet.
13. Output ONLY the updated TOML inside a single fenced code block (` ```toml ... ``` `). No explanatory text."#;

/// `prefix`, the value and `.` when there is a value; nothing otherwise.
pub open spec fn hint(prefix: Seq<char>, value: Option<Seq<char>>) -> Seq<char> {
    match value {
        Some(v) => prefix + v + seq!['.'],
        None => Seq::empty(),
    }
}

/// The view of an optional string slice.
pub open spec fn opt_view(o: Option<&str>) -> Option<Seq<char>> {
    match o {
        Some(s) => Some(s@),
        None => None,
    }
}

fn push_hint(out: &mut String, prefix: &str, value: Option<&str>)
    ensures
        final(out)@ == old(out)@ + hint(prefix@, opt_view(value)),
{
    if let Some(v) = value {
        push_str(out, prefix);
        push_str(out, v);
        push_char(out, '.');
    }
}

/// Prompt used when creating a new manifest from a datasheet: the fixed
/// prompt, then `\nUse this component title: <title>.` and
/// `\nUse this component description: <description>.` for those given.
pub fn new_prompt(title: Option<&str>, description: Option<&str>) -> (r: String)
    ensures
        r@ == NEW_PROMPT@ + hint("\nUse this component title: "@, opt_view(title)) + hint(
            "\nUse this component description: "@,
            opt_view(description),
        ),
{
    let mut out = NEW_PROMPT.to_string();
    push_hint(&mut out, "\nUse this component title: ", title);
    push_hint(&mut out, "\nUse this component description: ", description);
    out
}

/// Prompt used when enriching an existing manifest from a datasheet.
pub fn update_prompt() -> (r: String)
    ensures
        r@ == UPDATE_PROMPT@,
{
    UPDATE_PROMPT.to_string()
}

} // verus!
