//! The part manifest and its merging: pins and mechanical pads of a part,
//! built from a symbol's pins and a footprint's pads, and kept up to date
//! by merging new sources into it. Lengths, positions, angles and ratios
//! are `f64` values held as their bits.

use vstd::prelude::*;

use crate::analysis::{diag_view, DiagView};
use crate::cli::kindmap::{builtin_list, lookup, plain, KindEntry, KindMap, KindView};
use crate::cli::manifest::{eq_ignore_case, is_placeholder_name, pin_number, purpose_for_kind, purpose_spec};
use crate::diagnostic::{Diagnostic, Severity};
use crate::text::{chars_of, has_prefix, parse_usize, parse_usize_spec, push_str, str_eq};

verus! {

broadcast use vstd::string::group_string_axioms;

/// A thermal via of a pad: position, drill and size.
#[derive(Clone, Copy, Debug, PartialEq, Eq)]
pub struct ThermalVia {
    pub pos: (u64, u64),
    pub drill: u64,
    pub size: u64,
}

/// A pin of a part manifest.
#[derive(Debug)]
pub struct PinDef {
    /// Numeric identity of the pin; pins are kept in order of it.
    pub num: usize,
    /// Pad number as written by KiCad (may be empty).
    pub number: String,
    pub name: String,
    pub purpose: String,
    pub notes: String,
    /// Kind and electrical limits.
    pub electrical: KindEntry,
    pub pos: Option<(u64, u64)>,
    pub rotation: Option<u64>,
    pub length: Option<u64>,
    pub width: Option<u64>,
    pub height: Option<u64>,
    pub pad_type: Option<String>,
    pub pad_shape: Option<String>,
    pub roundrect_rratio: Option<u64>,
    pub solder_mask_margin: Option<u64>,
    pub layers: Option<String>,
    pub drill: Option<u64>,
    pub thermal_vias: Vec<ThermalVia>,
}

/// A mechanical (non-electrical) pad of a part manifest.
#[derive(Debug)]
pub struct MechanicalDef {
    pub number: String,
    pub pos: (u64, u64),
    pub width: u64,
    pub height: u64,
    pub pad_type: String,
    pub pad_shape: String,
    pub roundrect_rratio: Option<u64>,
    pub layers: Option<String>,
    pub drill: u64,
}

/// The pins and mechanical pads of a part.
#[derive(Debug)]
pub struct PartManifest {
    pub pins: Vec<PinDef>,
    pub mechanical: Vec<MechanicalDef>,
}

/// A pad read from a KiCad footprint.
#[derive(Debug)]
pub struct PadDef {
    pub number: String,
    pub pos: (u64, u64),
    pub rotation: u64,
    pub width: u64,
    pub height: u64,
    /// The larger of width and height (`f64::max` of the two).
    pub size: u64,
    /// KiCad pad type, e.g. `smd` or `thru_hole`.
    pub pad_type: String,
    pub shape: String,
    pub roundrect_rratio: Option<u64>,
    pub solder_mask_margin: Option<u64>,
    /// Copper layers, e.g. `F.Cu F.Mask F.Paste`.
    pub layers: String,
    pub drill: Option<u64>,
}

/// A pin read from a KiCad symbol.
#[derive(Debug)]
pub struct SymPin {
    pub name: String,
    pub number: String,
    pub pos: (u64, u64),
    pub rotation: u64,
    pub pin_type: String,
    pub length: u64,
}

/// A pin as a mathematical value.
pub struct PinView {
    pub num: usize,
    pub number: Seq<char>,
    pub name: Seq<char>,
    pub purpose: Seq<char>,
    pub notes: Seq<char>,
    pub electrical: KindView,
    pub pos: Option<(u64, u64)>,
    pub rotation: Option<u64>,
    pub length: Option<u64>,
    pub width: Option<u64>,
    pub height: Option<u64>,
    pub pad_type: Option<Seq<char>>,
    pub pad_shape: Option<Seq<char>>,
    pub roundrect_rratio: Option<u64>,
    pub solder_mask_margin: Option<u64>,
    pub layers: Option<Seq<char>>,
    pub drill: Option<u64>,
    pub thermal_vias: Seq<ThermalVia>,
}

/// A mechanical pad as a mathematical value.
pub struct MechView {
    pub number: Seq<char>,
    pub pos: (u64, u64),
    pub width: u64,
    pub height: u64,
    pub pad_type: Seq<char>,
    pub pad_shape: Seq<char>,
    pub roundrect_rratio: Option<u64>,
    pub layers: Option<Seq<char>>,
    pub drill: u64,
}

/// A part manifest as a mathematical value.
pub struct PartView {
    pub pins: Seq<PinView>,
    pub mechanical: Seq<MechView>,
}

/// The text of an optional string.
pub open spec fn opt_seq(o: Option<String>) -> Option<Seq<char>> {
    match o {
        Some(s) => Some(s@),
        None => None,
    }
}

impl View for PinDef {
    type V = PinView;

    open spec fn view(&self) -> PinView {
        PinView {
            num: self.num,
            number: self.number@,
            name: self.name@,
            purpose: self.purpose@,
            notes: self.notes@,
            electrical: self.electrical@,
            pos: self.pos,
            rotation: self.rotation,
            length: self.length,
            width: self.width,
            height: self.height,
            pad_type: opt_seq(self.pad_type),
            pad_shape: opt_seq(self.pad_shape),
            roundrect_rratio: self.roundrect_rratio,
            solder_mask_margin: self.solder_mask_margin,
            layers: opt_seq(self.layers),
            drill: self.drill,
            thermal_vias: self.thermal_vias@,
        }
    }
}

impl View for MechanicalDef {
    type V = MechView;

    open spec fn view(&self) -> MechView {
        MechView {
            number: self.number@,
            pos: self.pos,
            width: self.width,
            height: self.height,
            pad_type: self.pad_type@,
            pad_shape: self.pad_shape@,
            roundrect_rratio: self.roundrect_rratio,
            layers: opt_seq(self.layers),
            drill: self.drill,
        }
    }
}

/// The views of a sequence of pins.
pub open spec fn pin_views(s: Seq<PinDef>) -> Seq<PinView> {
    s.map_values(|p: PinDef| p@)
}

/// The views of a sequence of mechanical pads.
pub open spec fn mech_views(s: Seq<MechanicalDef>) -> Seq<MechView> {
    s.map_values(|m: MechanicalDef| m@)
}

impl View for PartManifest {
    type V = PartView;

    open spec fn view(&self) -> PartView {
        PartView { pins: pin_views(self.pins@), mechanical: mech_views(self.mechanical@) }
    }
}

/// The text of a string when not empty.
pub open spec fn non_empty(s: Seq<char>) -> Option<Seq<char>> {
    if s.len() == 0 {
        None
    } else {
        Some(s)
    }
}

/// A mechanical pad: numbered `none` (up to ASCII case) or not at all, or a
/// non-plated hole.
pub open spec fn is_mechanical(pad: PadDef) -> bool {
    eq_ignore_case(pad.number@, "none"@) || pad.number@.len() == 0 || pad.pad_type@ == "np_thru_hole"@
}

/// The mechanical pad kept for `pad` (no drill counts as `0.0`).
pub open spec fn mech_of(pad: PadDef) -> MechView {
    MechView {
        number: pad.number@,
        pos: pad.pos,
        width: pad.width,
        height: pad.height,
        pad_type: pad.pad_type@,
        pad_shape: pad.shape@,
        roundrect_rratio: pad.roundrect_rratio,
        layers: non_empty(pad.layers@),
        drill: match pad.drill {
            Some(d) => d,
            None => 0,
        },
    }
}

/// Whether pin `p` is the one for pad or symbol pin number `number`: the
/// same number, or, for a pin with no number, a number that reads as its
/// numeric identity.
pub open spec fn matches_number(p: PinView, number: Seq<char>) -> bool {
    p.number == number || (p.number.len() == 0 && parse_usize_spec(number) == Some(p.num))
}

/// The index of the first pin for `number`.
pub open spec fn match_index(pins: Seq<PinView>, number: Seq<char>) -> Option<nat>
    decreases pins.len(),
{
    if pins.len() == 0 {
        None
    } else if matches_number(pins.last(), number) && match_index(pins.drop_last(), number) is None {
        Some((pins.len() - 1) as nat)
    } else {
        match_index(pins.drop_last(), number)
    }
}

/// A pin with the geometry of footprint pad `pad`.
pub open spec fn with_pad(p: PinView, pad: PadDef) -> PinView {
    PinView {
        number: if p.number.len() == 0 {
            pad.number@
        } else {
            p.number
        },
        pos: Some(pad.pos),
        rotation: Some(pad.rotation),
        length: Some(pad.size),
        width: Some(pad.width),
        height: Some(pad.height),
        pad_type: if pad.pad_type@.len() == 0 {
            p.pad_type
        } else {
            Some(pad.pad_type@)
        },
        pad_shape: if pad.shape@.len() == 0 {
            p.pad_shape
        } else {
            Some(pad.shape@)
        },
        roundrect_rratio: pad.roundrect_rratio,
        solder_mask_margin: pad.solder_mask_margin,
        layers: if pad.layers@.len() == 0 {
            p.layers
        } else {
            Some(pad.layers@)
        },
        drill: pad.drill,
        ..p
    }
}

/// The drill of a thermal via with no drill of its own (`0.3`).
pub const DEFAULT_VIA_DRILL_BITS: u64 = 0x3FD3333333333333u64;

/// The thermal via for footprint pad `pad`.
pub open spec fn via_of(pad: PadDef) -> ThermalVia {
    ThermalVia {
        pos: pad.pos,
        drill: match pad.drill {
            Some(d) => d,
            None => DEFAULT_VIA_DRILL_BITS,
        },
        size: pad.size,
    }
}

/// The warning for a footprint pad that matches no pin.
pub open spec fn unmatched_pad(d: Diagnostic, number: Seq<char>) -> bool {
    &&& d.code@ == "CLI:UNMATCHED_PAD"@
    &&& d.severity == Severity::Warning
    &&& d.message@ == "Footprint pad "@ + number + " has no matching pin in the existing TOML"@
    &&& d.entities@.len() == 1
    &&& d.entities@[0]@ == number
    &&& d.hint is None
}

/// A pin with no thermal vias.
pub open spec fn without_vias(p: PinView) -> PinView {
    PinView { thermal_vias: Seq::empty(), ..p }
}

/// A pin with thermal via `v` added.
pub open spec fn with_via(p: PinView, v: ThermalVia) -> PinView {
    PinView { thermal_vias: p.thermal_vias.push(v), ..p }
}

fn pad_matches(p: &PinDef, number: &str) -> (b: bool)
    ensures
        b == matches_number(p@, number@),
{
    if str_eq(p.number.as_str(), number) {
        return true;
    }
    let pc = chars_of(p.number.as_str());
    if pc.len() == 0 {
        let nc = chars_of(number);
        match parse_usize(&nc) {
            Some(n) => n == p.num,
            None => false,
        }
    } else {
        false
    }
}

proof fn lemma_match_index(pins: Seq<PinView>, number: Seq<char>)
    ensures
        match match_index(pins, number) {
            Some(i) => i < pins.len() && matches_number(pins[i as int], number) && forall|j: int|
                0 <= j < i ==> !matches_number(#[trigger] pins[j], number),
            None => forall|j: int| 0 <= j < pins.len() ==> !matches_number(#[trigger] pins[j], number),
        },
    decreases pins.len(),
{
    if pins.len() > 0 {
        lemma_match_index(pins.drop_last(), number);
        assert forall|j: int| 0 <= j < pins.len() - 1 implies pins.drop_last()[j] == pins[j] by {}
    }
}

proof fn lemma_match_index_first(pins: Seq<PinView>, number: Seq<char>, i: nat)
    requires
        i < pins.len(),
        matches_number(pins[i as int], number),
        forall|j: int| 0 <= j < i ==> !matches_number(#[trigger] pins[j], number),
    ensures
        match_index(pins, number) == Some(i),
{
    lemma_match_index(pins, number);
}

/// The index of the first pin for `number` (see [`match_index`]).
fn find_pin(pins: &Vec<PinDef>, number: &str) -> (r: Option<usize>)
    ensures
        match match_index(pin_views(pins@), number@) {
            Some(i) => r == Some(i as usize),
            None => r is None,
        },
        r matches Some(k) ==> match_index(pin_views(pins@), number@) == Some(k as nat),
{
    let ghost pv = pin_views(pins@);
    let mut i: usize = 0;
    while i < pins.len()
        invariant
            i <= pins@.len(),
            pv == pin_views(pins@),
            forall|j: int| 0 <= j < i ==> !matches_number(#[trigger] pv[j], number@),
        decreases pins@.len() - i,
    {
        if pad_matches(&pins[i], number) {
            proof {
                lemma_match_index_first(pv, number@, i as nat);
            }
            return Some(i);
        }
        i = i + 1;
    }
    proof {
        lemma_match_index(pv, number@);
    }
    None
}

/// Start merging a footprint: the footprint is authoritative for the
/// mechanical pads and the thermal vias, so both are cleared.
pub fn start_footprint_merge(m: &mut PartManifest)
    ensures
        final(m)@.mechanical == Seq::<MechView>::empty(),
        final(m)@.pins == old(m)@.pins.map_values(|p: PinView| without_vias(p)),
{
    m.mechanical = Vec::new();
    let ghost start = old(m)@.pins;
    let mut i: usize = 0;
    while i < m.pins.len()
        invariant
            i <= m.pins@.len(),
            start.len() == m.pins@.len(),
            m.mechanical@.len() == 0,
            forall|j: int| 0 <= j < i ==> (#[trigger] m.pins@[j])@ == without_vias(start[j]),
            forall|j: int| i <= j < m.pins@.len() ==> (#[trigger] m.pins@[j])@ == start[j],
        decreases m.pins@.len() - i,
    {
        let mut p = m.pins.remove(i);
        p.thermal_vias = Vec::new();
        proof {
            assert(p.thermal_vias@ =~= Seq::<ThermalVia>::empty());
        }
        m.pins.insert(i, p);
        i = i + 1;
    }
    assert(m@.pins =~= start.map_values(|p: PinView| without_vias(p)));
    assert(m@.mechanical =~= Seq::<MechView>::empty());
}

/// The manifest after merging footprint pad `pad`, and its warning:
/// a mechanical pad is kept among the mechanical pads; a pad matching a pin
/// (see [`match_index`]) gives that pin its geometry ([`with_pad`]); an
/// unmatched through-hole pad inside the pin `containing` (as judged by the
/// caller from the pins' current geometry) becomes a thermal via of it;
/// any other pad is reported.
pub open spec fn merge_pad_spec(m: PartView, pad: PadDef, containing: Option<usize>) -> (PartView, bool) {
    if is_mechanical(pad) {
        (PartView { mechanical: m.mechanical.push(mech_of(pad)), ..m }, false)
    } else {
        match match_index(m.pins, pad.number@) {
            Some(i) => (PartView { pins: m.pins.update(i as int, with_pad(m.pins[i as int], pad)), ..m }, false),
            None => match containing {
                Some(k) => if pad.pad_type@ == "thru_hole"@ && k < m.pins.len() {
                    (PartView { pins: m.pins.update(k as int, with_via(m.pins[k as int], via_of(pad))), ..m }, false)
                } else {
                    (m, true)
                },
                None => (m, true),
            },
        }
    }
}

fn is_mechanical_pad(pad: &PadDef) -> (b: bool)
    ensures
        b == is_mechanical(*pad),
{
    let nc = chars_of(pad.number.as_str());
    let none = vec!['n', 'o', 'n', 'e'];
    proof {
        reveal_strlit("none");
        assert(none@ =~= "none"@);
    }
    crate::cli::manifest::eq_ignore_ascii_case(&nc, &none) || nc.len() == 0 || str_eq(
        pad.pad_type.as_str(),
        "np_thru_hole",
    )
}

fn opt_copy(s: &Option<String>) -> (r: Option<String>)
    ensures
        opt_seq(r) == opt_seq(*s),
{
    match s {
        Some(x) => Some(x.clone()),
        None => None,
    }
}

fn non_empty_string(s: &str) -> (r: Option<String>)
    ensures
        opt_seq(r) == non_empty(s@),
{
    if chars_of(s).len() == 0 {
        None
    } else {
        Some(s.to_string())
    }
}

/// Merge one footprint pad into the manifest (see [`merge_pad_spec`]);
/// `containing` is the first pin whose pad area holds the pad's centre, as
/// the caller's geometry test finds it on the current pins.
pub fn merge_pad(m: &mut PartManifest, pad: &PadDef, containing: Option<usize>) -> (r: Option<Diagnostic>)
    ensures
        (final(m)@, r is Some) == merge_pad_spec(old(m)@, *pad, containing),
        r matches Some(d) ==> unmatched_pad(d, pad.number@),
{
    if is_mechanical_pad(pad) {
        let mech = MechanicalDef {
            number: pad.number.clone(),
            pos: pad.pos,
            width: pad.width,
            height: pad.height,
            pad_type: pad.pad_type.clone(),
            pad_shape: pad.shape.clone(),
            roundrect_rratio: pad.roundrect_rratio,
            layers: non_empty_string(pad.layers.as_str()),
            drill: match pad.drill {
                Some(d) => d,
                None => 0,
            },
        };
        let ghost before = m.mechanical@;
        m.mechanical.push(mech);
        proof {
            assert(mech_views(m.mechanical@) =~= mech_views(before).push(mech_of(*pad)));
        }
        return None;
    }
    let found = find_pin(&m.pins, pad.number.as_str());
    proof {
        lemma_match_index(pin_views(m.pins@), pad.number@);
    }
    match found {
        Some(i) => {
            let ghost before = m.pins@;
            let mut p = m.pins.remove(i);
            if chars_of(p.number.as_str()).len() == 0 {
                p.number = pad.number.clone();
            }
            p.pos = Some(pad.pos);
            p.rotation = Some(pad.rotation);
            p.length = Some(pad.size);
            p.width = Some(pad.width);
            p.height = Some(pad.height);
            if chars_of(pad.pad_type.as_str()).len() > 0 {
                p.pad_type = Some(pad.pad_type.clone());
            }
            if chars_of(pad.shape.as_str()).len() > 0 {
                p.pad_shape = Some(pad.shape.clone());
            }
            p.roundrect_rratio = pad.roundrect_rratio;
            p.solder_mask_margin = pad.solder_mask_margin;
            if chars_of(pad.layers.as_str()).len() > 0 {
                p.layers = Some(pad.layers.clone());
            }
            p.drill = pad.drill;
            proof {
                assert(p@ == with_pad(before[i as int]@, *pad));
            }
            m.pins.insert(i, p);
            proof {
                assert(pin_views(m.pins@) =~= pin_views(before).update(
                    i as int,
                    with_pad(pin_views(before)[i as int], *pad),
                ));
                assert(m@ == merge_pad_spec(old(m)@, *pad, containing).0);
            }
            None
        },
        None => {
            if str_eq(pad.pad_type.as_str(), "thru_hole") {
                if let Some(k) = containing {
                    if k < m.pins.len() {
                        let ghost before = m.pins@;
                        let mut p = m.pins.remove(k);
                        let via = ThermalVia {
                            pos: pad.pos,
                            drill: match pad.drill {
                                Some(d) => d,
                                None => DEFAULT_VIA_DRILL_BITS,
                            },
                            size: pad.size,
                        };
                        p.thermal_vias.push(via);
                        m.pins.insert(k, p);
                        proof {
                            assert(pin_views(m.pins@) =~= pin_views(before).update(
                                k as int,
                                with_via(pin_views(before)[k as int], via_of(*pad)),
                            ));
                            assert(m@ == merge_pad_spec(old(m)@, *pad, containing).0);
                        }
                        return None;
                    }
                }
            }
            let mut message = "Footprint pad ".to_string();
            push_str(&mut message, pad.number.as_str());
            push_str(&mut message, " has no matching pin in the existing TOML");
            let mut entities: Vec<String> = Vec::new();
            entities.push(pad.number.clone());
            let d = Diagnostic {
                code: "CLI:UNMATCHED_PAD".to_string(),
                severity: Severity::Warning,
                message,
                entities,
                hint: None,
            };
            proof {
                reveal_strlit("Footprint pad ");
                assert(d.message@ =~= "Footprint pad "@ + pad.number@ + " has no matching pin in the existing TOML"@);
                assert(merge_pad_spec(old(m)@, *pad, containing).1);
                assert(m@ == merge_pad_spec(old(m)@, *pad, containing).0);
            }
            Some(d)
        },
    }
}


// ---------------------------------------------------------------------------
// Merging a symbol
// ---------------------------------------------------------------------------

/// What the kind map gives pin `name` of type `pin_type`, and whether the
/// default was used (as [`KindMap::resolve`] states it).
pub open spec fn resolve_spec(km: KindMap, name: Seq<char>, pin_type: Seq<char>, default_kind: Seq<char>) -> (KindView, bool) {
    match lookup(km.by_name_table(), name) {
        Some(e) => (e, false),
        None => match lookup(km.by_type_table(), pin_type) {
            Some(e) => (e, false),
            None => match lookup(builtin_list(), pin_type) {
                Some(e) => (e, false),
                None => (plain(default_kind), true),
            },
        },
    }
}

/// A pin's electrical fields with a kind-map entry applied: the entry's
/// kind, and each limit the entry gives in place of the pin's.
pub open spec fn apply_entry(el: KindView, e: KindView) -> KindView {
    KindView {
        kind: e.kind,
        bw_mhz: if e.bw_mhz is Some { e.bw_mhz } else { el.bw_mhz },
        v: if e.v is Some { e.v } else { el.v },
        v_min: if e.v_min is Some { e.v_min } else { el.v_min },
        v_max: if e.v_max is Some { e.v_max } else { el.v_max },
        i: if e.i is Some { e.i } else { el.i },
        i_max: if e.i_max is Some { e.i_max } else { el.i_max },
        nc: if e.nc is Some { e.nc } else { el.nc },
    }
}

/// A symbol pin merged into the pin for its number: a placeholder name
/// (`PAD_…`) gives way to the symbol's name when it has one; electrical
/// fields still of the default (or no) kind take the kind-map entry.
pub open spec fn update_pin(p: PinView, s: SymPin, e: KindView, default_kind: Seq<char>) -> PinView {
    let named = if has_prefix(p.name, "PAD_"@) && s.name@.len() > 0 {
        s.name@
    } else {
        p.name
    };
    PinView {
        name: named,
        electrical: if p.electrical.kind == default_kind || p.electrical.kind.len() == 0 {
            apply_entry(p.electrical, e)
        } else {
            p.electrical
        },
        ..p
    }
}

/// The pin added for symbol pin `s` with identity `num`.
pub open spec fn new_pin(s: SymPin, e: KindView, num: usize) -> PinView {
    PinView {
        num,
        number: s.number@,
        name: s.name@,
        purpose: purpose_spec(e.kind),
        notes: Seq::empty(),
        electrical: apply_entry(plain(Seq::empty()), e),
        pos: Some(s.pos),
        rotation: Some(s.rotation),
        length: Some(s.length),
        width: None,
        height: None,
        pad_type: None,
        pad_shape: None,
        roundrect_rratio: None,
        solder_mask_margin: None,
        layers: None,
        drill: None,
        thermal_vias: Seq::empty(),
    }
}

/// The warning for a symbol pin appended as a new pin.
pub open spec fn new_pin_view(s: SymPin) -> DiagView {
    DiagView {
        code: "CLI:NEW_PIN"@,
        severity: Severity::Warning,
        message: "Pin "@ + s.number@ + " ("@ + s.name@ + ") from source is not in the existing TOML; appending"@,
        entities: seq![s.number@, s.name@],
        hint: None,
    }
}

/// The warning for a symbol pin whose type the kind map does not know.
pub open spec fn unknown_type_view(s: SymPin, default_kind: Seq<char>) -> DiagView {
    DiagView {
        code: "CLI:UNKNOWN_PIN_TYPE"@,
        severity: Severity::Warning,
        message: "Unrecognised pin type '"@ + s.pin_type@ + "' for pin "@ + s.name@ + "; using default kind '"@
            + default_kind + "'"@,
        entities: seq![s.name@],
        hint: Some("Provide a --kind-map override if needed"@),
    }
}

/// The state of a symbol merge: pins, next automatic identity, warnings.
pub open spec fn sym_step(
    st: (Seq<PinView>, nat, Seq<DiagView>),
    s: SymPin,
    km: KindMap,
    default_kind: Seq<char>,
) -> (Seq<PinView>, nat, Seq<DiagView>) {
    let (e, fallback) = resolve_spec(km, s.name@, s.pin_type@, default_kind);
    let unknown = if fallback {
        seq![unknown_type_view(s, default_kind)]
    } else {
        Seq::empty()
    };
    match match_index(st.0, s.number@) {
        Some(i) => (st.0.update(i as int, update_pin(st.0[i as int], s, e, default_kind)), st.1, st.2 + unknown),
        None => {
            let (num, next) = match parse_usize_spec(s.number@) {
                Some(n) => (n, st.1),
                None => (st.1 as usize, st.1 + 1),
            };
            (st.0.push(new_pin(s, e, num)), next, st.2 + seq![new_pin_view(s)] + unknown)
        },
    }
}

/// The state after merging the symbol pins `syms` in order.
pub open spec fn sym_fold(
    st: (Seq<PinView>, nat, Seq<DiagView>),
    syms: Seq<SymPin>,
    km: KindMap,
    default_kind: Seq<char>,
) -> (Seq<PinView>, nat, Seq<DiagView>)
    decreases syms.len(),
{
    if syms.len() == 0 {
        st
    } else {
        sym_fold(sym_step(st, syms[0], km, default_kind), syms.skip(1), km, default_kind)
    }
}

/// The largest identity among `pins` (0 for none).
pub open spec fn max_num(pins: Seq<PinView>) -> nat
    decreases pins.len(),
{
    if pins.len() == 0 {
        0
    } else {
        let m = max_num(pins.drop_last());
        if pins.last().num > m {
            pins.last().num as nat
        } else {
            m
        }
    }
}

/// `x` inserted into `t` after every pin whose identity is not larger.
pub open spec fn insert_by_num(t: Seq<PinView>, x: PinView) -> Seq<PinView>
    decreases t.len(),
{
    if t.len() == 0 || t.last().num <= x.num {
        t.push(x)
    } else {
        insert_by_num(t.drop_last(), x).push(t.last())
    }
}

/// `s` sorted by identity, keeping the order of equal identities (what a
/// stable sort by `num` gives).
pub open spec fn sort_by_num(s: Seq<PinView>) -> Seq<PinView>
    decreases s.len(),
{
    if s.len() == 0 {
        s
    } else {
        insert_by_num(sort_by_num(s.drop_last()), s.last())
    }
}

/// What merging symbol pins `syms` into the pins `pins` gives: each symbol
/// pin in order (see [`sym_step`]), automatic identities counting on from
/// one past the largest existing one, then the pins sorted by identity.
pub open spec fn merge_symbol_spec(pins: Seq<PinView>, syms: Seq<SymPin>, km: KindMap, default_kind: Seq<char>) -> (Seq<PinView>, Seq<DiagView>) {
    let r = sym_fold((pins, max_num(pins) + 1, Seq::empty()), syms, km, default_kind);
    (sort_by_num(r.0), r.2)
}

proof fn lemma_insert_at(t: Seq<PinView>, x: PinView, j: int)
    requires
        0 <= j <= t.len(),
        forall|k: int| j <= k < t.len() ==> (#[trigger] t[k]).num > x.num,
        j == 0 || t[j - 1].num <= x.num,
    ensures
        insert_by_num(t, x) == t.take(j).push(x) + t.skip(j),
    decreases t.len(),
{
    if j == t.len() {
        assert(t.take(j) =~= t);
        assert(t.skip(j) =~= Seq::<PinView>::empty());
        assert(t.take(j).push(x) + t.skip(j) =~= t.push(x));
    } else {
        let d = t.drop_last();
        assert forall|k: int| j <= k < d.len() implies (#[trigger] d[k]).num > x.num by {
            assert(d[k] == t[k]);
        }
        lemma_insert_at(d, x, j);
        assert(d.take(j) =~= t.take(j));
        assert((d.take(j).push(x) + d.skip(j)).push(t.last()) =~= t.take(j).push(x) + t.skip(j));
    }
}

/// Sort `pins` by identity, stably (see [`sort_by_num`]).
fn sort_pins(pins: Vec<PinDef>) -> (r: Vec<PinDef>)
    ensures
        pin_views(r@) == sort_by_num(pin_views(pins@)),
{
    let ghost all = pin_views(pins@);
    let mut src = pins;
    let mut out: Vec<PinDef> = Vec::new();
    let ghost mut n: int = 0;
    proof {
        assert(all.take(0) =~= Seq::<PinView>::empty());
        assert(pin_views(out@) =~= sort_by_num(all.take(0)));
        assert(pin_views(src@) =~= all.skip(0));
    }
    while src.len() > 0
        invariant
            0 <= n <= all.len(),
            pin_views(src@) == all.skip(n),
            pin_views(out@) == sort_by_num(all.take(n)),
        decreases src@.len(),
    {
        let ghost sv = pin_views(src@);
        let ghost s0 = src@;
        proof {
            assert(sv.len() == s0.len());
            assert(all.skip(n).len() > 0);
            assert(sv[0] == s0[0]@);
            assert(all.skip(n)[0] == all[n]);
        }
        let x = src.remove(0);
        proof {
            assert(x == s0[0]);
            assert(src@ =~= s0.skip(1));
            assert(x@ == all[n]);
            assert forall|k: int| 0 <= k < src@.len() implies #[trigger] pin_views(src@)[k] == all.skip(n + 1)[k] by {
                assert(src@[k] == s0[k + 1]);
                assert(sv[k + 1] == all.skip(n)[k + 1]);
            }
            assert(pin_views(src@) =~= all.skip(n + 1));
            assert(all.take(n + 1).drop_last() =~= all.take(n));
            assert(all.take(n + 1).last() == all[n]);
        }
        let ghost ov = pin_views(out@);
        let mut j: usize = out.len();
        while j > 0 && out[j - 1].num > x.num
            invariant
                j <= out@.len(),
                ov == pin_views(out@),
                forall|k: int| j <= k < out@.len() ==> (#[trigger] ov[k]).num > x.num,
            decreases j,
        {
            j = j - 1;
        }
        proof {
            lemma_insert_at(ov, x@, j as int);
        }
        out.insert(j, x);
        proof {
            assert(pin_views(out@) =~= ov.take(j as int).push(x@) + ov.skip(j as int));
            n = n + 1;
        }
    }
    proof {
        assert(all.take(n) =~= all) by {
            assert(all.skip(n).len() == 0);
        }
    }
    out
}


fn pick(a: Option<u64>, b: Option<u64>) -> (r: Option<u64>)
    ensures
        r == (if a is Some { a } else { b }),
{
    if a.is_some() {
        a
    } else {
        b
    }
}

/// Electrical fields with a kind-map entry applied (see [`apply_entry`]).
fn apply_kind_entry(el: &KindEntry, e: &KindEntry) -> (r: KindEntry)
    ensures
        r@ == apply_entry(el@, e@),
{
    KindEntry {
        kind: e.kind.clone(),
        bw_mhz: pick(e.bw_mhz, el.bw_mhz),
        v: pick(e.v, el.v),
        v_min: pick(e.v_min, el.v_min),
        v_max: pick(e.v_max, el.v_max),
        i: pick(e.i, el.i),
        i_max: pick(e.i_max, el.i_max),
        nc: if e.nc.is_some() {
            e.nc
        } else {
            el.nc
        },
    }
}

fn new_pin_diag(s: &SymPin) -> (d: Diagnostic)
    ensures
        diag_view(d) == new_pin_view(*s),
{
    let mut message = "Pin ".to_string();
    push_str(&mut message, s.number.as_str());
    push_str(&mut message, " (");
    push_str(&mut message, s.name.as_str());
    push_str(&mut message, ") from source is not in the existing TOML; appending");
    let mut entities: Vec<String> = Vec::new();
    entities.push(s.number.clone());
    entities.push(s.name.clone());
    let d = Diagnostic { code: "CLI:NEW_PIN".to_string(), severity: Severity::Warning, message, entities, hint: None };
    proof {
        reveal_strlit("Pin ");
        assert(d.message@ =~= "Pin "@ + s.number@ + " ("@ + s.name@
            + ") from source is not in the existing TOML; appending"@);
        assert(d.entities@.map_values(|e: String| e@) =~= seq![s.number@, s.name@]);
    }
    d
}

fn unknown_type_diag(s: &SymPin, default_kind: &str) -> (d: Diagnostic)
    ensures
        diag_view(d) == unknown_type_view(*s, default_kind@),
{
    let mut message = "Unrecognised pin type '".to_string();
    push_str(&mut message, s.pin_type.as_str());
    push_str(&mut message, "' for pin ");
    push_str(&mut message, s.name.as_str());
    push_str(&mut message, "; using default kind '");
    push_str(&mut message, default_kind);
    push_str(&mut message, "'");
    let mut entities: Vec<String> = Vec::new();
    entities.push(s.name.clone());
    let d = Diagnostic {
        code: "CLI:UNKNOWN_PIN_TYPE".to_string(),
        severity: Severity::Warning,
        message,
        entities,
        hint: Some("Provide a --kind-map override if needed".to_string()),
    };
    proof {
        reveal_strlit("Unrecognised pin type '");
        assert(d.message@ =~= "Unrecognised pin type '"@ + s.pin_type@ + "' for pin "@ + s.name@
            + "; using default kind '"@ + default_kind@ + "'"@);
        assert(d.entities@.map_values(|e: String| e@) =~= seq![s.name@]);
    }
    d
}

/// The largest identity among `pins` (see [`max_num`]).
fn largest_num(pins: &Vec<PinDef>) -> (r: usize)
    ensures
        r == max_num(pin_views(pins@)),
{
    let ghost pv = pin_views(pins@);
    let mut m: usize = 0;
    let mut i: usize = 0;
    assert(pv.take(0) =~= Seq::<PinView>::empty());
    while i < pins.len()
        invariant
            i <= pins@.len(),
            pv == pin_views(pins@),
            m == max_num(pv.take(i as int)),
        decreases pins@.len() - i,
    {
        assert(pv.take(i + 1).drop_last() =~= pv.take(i as int));
        assert(pv.take(i + 1).last() == pins@[i as int]@);
        if pins[i].num > m {
            m = pins[i].num;
        }
        i = i + 1;
    }
    assert(pv.take(i as int) =~= pv);
    m
}

/// Merge a symbol's pins into the manifest (see [`merge_symbol_spec`]): a
/// symbol pin updates the pin for its number, or is appended as a new pin
/// with a warning; a pin type the kind map does not know is reported; the
/// pins end sorted by identity. The mechanical pads are kept.
pub fn merge_symbol(m: &mut PartManifest, symbol: &[SymPin], kindmap: &KindMap, default_kind: &str) -> (d: Vec<Diagnostic>)
    requires
        max_num(old(m)@.pins) + symbol@.len() + 1 < usize::MAX,
    ensures
        (final(m)@.pins, d@.map_values(|x: Diagnostic| diag_view(x))) == merge_symbol_spec(
            old(m)@.pins,
            symbol@,
            *kindmap,
            default_kind@,
        ),
        final(m)@.mechanical == old(m)@.mechanical,
{
    let mut diags: Vec<Diagnostic> = Vec::new();
    let top = largest_num(&m.pins);
    let mut next: usize = top + 1;
    let ghost init = (pin_views(m.pins@), next as nat, Seq::<DiagView>::empty());
    let ghost goal = sym_fold(init, symbol@, *kindmap, default_kind@);
    let ghost mech = old(m)@.mechanical;
    let mut i: usize = 0;
    proof {
        assert(symbol@.skip(0) =~= symbol@);
        assert(diags@.map_values(|x: Diagnostic| diag_view(x)) =~= Seq::<DiagView>::empty());
    }
    while i < symbol.len()
        invariant
            i <= symbol@.len(),
            top + symbol@.len() + 1 < usize::MAX,
            next <= top + 1 + i,
            mech == m@.mechanical,
            goal == sym_fold(
                (pin_views(m.pins@), next as nat, diags@.map_values(|x: Diagnostic| diag_view(x))),
                symbol@.skip(i as int),
                *kindmap,
                default_kind@,
            ),
        decreases symbol@.len() - i,
    {
        let s = &symbol[i];
        let ghost st = (pin_views(m.pins@), next as nat, diags@.map_values(|x: Diagnostic| diag_view(x)));
        proof {
            assert(symbol@.skip(i as int)[0] == *s);
            assert(symbol@.skip(i as int).skip(1) =~= symbol@.skip(i + 1));
        }
        let (entry, fallback) = kindmap.resolve(s.name.as_str(), s.pin_type.as_str(), default_kind);
        let ghost e = entry@;
        assert((e, fallback) == resolve_spec(*kindmap, s.name@, s.pin_type@, default_kind@));
        let ghost dv0 = diags@.map_values(|x: Diagnostic| diag_view(x));
        let found = find_pin(&m.pins, s.number.as_str());
        proof {
            lemma_match_index(pin_views(m.pins@), s.number@);
        }
        match found {
            Some(k) => {
                let ghost before = m.pins@;
                let mut p = m.pins.remove(k);
                if is_placeholder_name(p.name.as_str()) && chars_of(s.name.as_str()).len() > 0 {
                    p.name = s.name.clone();
                }
                if str_eq(p.electrical.kind.as_str(), default_kind) || chars_of(p.electrical.kind.as_str()).len() == 0 {
                    p.electrical = apply_kind_entry(&p.electrical, &entry);
                }
                proof {
                    reveal_strlit("PAD_");
                    assert(p@ == update_pin(before[k as int]@, *s, e, default_kind@));
                }
                m.pins.insert(k, p);
                proof {
                    assert(pin_views(m.pins@) =~= pin_views(before).update(
                        k as int,
                        update_pin(pin_views(before)[k as int], *s, e, default_kind@),
                    ));
                    assert(pin_views(before) == st.0);
                    assert(match_index(st.0, s.number@) == Some(k as nat));
                    assert(pin_views(m.pins@) == st.0.update(k as int, update_pin(st.0[k as int], *s, e, default_kind@)));
                }
            },
            None => {
                let num = pin_number(s.number.as_str(), &mut next);
                let electrical = apply_kind_entry(&KindEntry::plain(""), &entry);
                proof {
                    reveal_strlit("");
                }
                let p = PinDef {
                    num,
                    number: s.number.clone(),
                    name: s.name.clone(),
                    purpose: purpose_for_kind(entry.kind.as_str()).to_string(),
                    notes: String::new(),
                    electrical,
                    pos: Some(s.pos),
                    rotation: Some(s.rotation),
                    length: Some(s.length),
                    width: None,
                    height: None,
                    pad_type: None,
                    pad_shape: None,
                    roundrect_rratio: None,
                    solder_mask_margin: None,
                    layers: None,
                    drill: None,
                    thermal_vias: Vec::new(),
                };
                proof {
                    assert(p.notes@ =~= Seq::<char>::empty());
                    assert(p.thermal_vias@ =~= Seq::<ThermalVia>::empty());
                    assert(""@ =~= Seq::<char>::empty());
                    assert(p@ == new_pin(*s, e, num));
                }
                let ghost before = m.pins@;
                m.pins.push(p);
                let d = new_pin_diag(s);
                diags.push(d);
                proof {
                    assert(pin_views(m.pins@) =~= pin_views(before).push(new_pin(*s, e, num)));
                    assert(diags@.map_values(|x: Diagnostic| diag_view(x)) =~= dv0 + seq![new_pin_view(*s)]);
                }
            },
        }
        let ghost dv1 = diags@.map_values(|x: Diagnostic| diag_view(x));
        if fallback {
            let d = unknown_type_diag(s, default_kind);
            diags.push(d);
            proof {
                assert(diags@.map_values(|x: Diagnostic| diag_view(x)) =~= dv1 + seq![unknown_type_view(*s, default_kind@)]);
            }
        } else {
            proof {
                assert(dv1 + Seq::<DiagView>::empty() =~= dv1);
            }
        }
        proof {
            let nst = (pin_views(m.pins@), next as nat, diags@.map_values(|x: Diagnostic| diag_view(x)));
            let unknown = if fallback {
                seq![unknown_type_view(*s, default_kind@)]
            } else {
                Seq::<DiagView>::empty()
            };
            match match_index(st.0, s.number@) {
                Some(k) => {
                    assert(nst.0 == st.0.update(k as int, update_pin(st.0[k as int], *s, e, default_kind@)));
                    assert(nst.1 == st.1);
                    assert(nst.2 == st.2 + unknown);
                },
                None => {
                    match parse_usize_spec(s.number@) {
                        Some(n) => {
                            assert(nst.0 == st.0.push(new_pin(*s, e, n)));
                            assert(nst.1 == st.1);
                        },
                        None => {
                            assert(nst.0 == st.0.push(new_pin(*s, e, st.1 as usize)));
                            assert(nst.1 == st.1 + 1);
                        },
                    }
                    assert(nst.2 =~= st.2 + seq![new_pin_view(*s)] + unknown);
                },
            }
            assert(nst == sym_step(st, *s, *kindmap, default_kind@));
        }
        i = i + 1;
    }
    proof {
        assert(symbol@.skip(i as int) =~= Seq::<SymPin>::empty());
    }
    let mut pins: Vec<PinDef> = Vec::new();
    std::mem::swap(&mut pins, &mut m.pins);
    m.pins = sort_pins(pins);
    diags
}


// ---------------------------------------------------------------------------
// A manifest from a footprint alone
// ---------------------------------------------------------------------------

/// The pin made for footprint pad `pad` with identity `num`: named
/// `PAD_<number>`, of purpose `Pad` and the default kind, with the pad's
/// geometry.
pub open spec fn pad_pin(pad: PadDef, num: usize, default_kind: Seq<char>) -> PinView {
    PinView {
        num,
        number: pad.number@,
        name: "PAD_"@ + pad.number@,
        purpose: "Pad"@,
        notes: Seq::empty(),
        electrical: plain(default_kind),
        pos: Some(pad.pos),
        rotation: Some(pad.rotation),
        length: Some(pad.size),
        width: Some(pad.width),
        height: Some(pad.height),
        pad_type: non_empty(pad.pad_type@),
        pad_shape: non_empty(pad.shape@),
        roundrect_rratio: pad.roundrect_rratio,
        solder_mask_margin: pad.solder_mask_margin,
        layers: non_empty(pad.layers@),
        drill: pad.drill,
        thermal_vias: Seq::empty(),
    }
}

/// The pins, mechanical pads and next automatic identity after the pads
/// `pads` in order: a mechanical pad is kept as such, any other becomes a
/// pin whose identity its number gives, or the next automatic one.
pub open spec fn fp_fold(st: (Seq<PinView>, Seq<MechView>, nat), pads: Seq<PadDef>, default_kind: Seq<char>) -> (Seq<PinView>, Seq<MechView>, nat)
    decreases pads.len(),
{
    if pads.len() == 0 {
        st
    } else {
        let pad = pads[0];
        let next = if is_mechanical(pad) {
            (st.0, st.1.push(mech_of(pad)), st.2)
        } else {
            match parse_usize_spec(pad.number@) {
                Some(n) => (st.0.push(pad_pin(pad, n, default_kind)), st.1, st.2),
                None => (st.0.push(pad_pin(pad, st.2 as usize, default_kind)), st.1, st.2 + 1),
            }
        };
        fp_fold(next, pads.skip(1), default_kind)
    }
}

/// Build a manifest from footprint pads alone: pins in order of identity,
/// automatic identities counting from 1 (see [`fp_fold`]).
pub fn manifest_from_footprint(pads: &[PadDef], default_kind: &str) -> (r: PartManifest)
    requires
        pads@.len() + 1 < usize::MAX,
    ensures
        ({
            let f = fp_fold((Seq::empty(), Seq::empty(), 1), pads@, default_kind@);
            r@.pins == sort_by_num(f.0) && r@.mechanical == f.1
        }),
{
    let mut pins: Vec<PinDef> = Vec::new();
    let mut mechanical: Vec<MechanicalDef> = Vec::new();
    let mut next: usize = 1;
    let ghost goal = fp_fold((Seq::empty(), Seq::empty(), 1), pads@, default_kind@);
    let mut i: usize = 0;
    proof {
        assert(pads@.skip(0) =~= pads@);
        assert(pin_views(pins@) =~= Seq::<PinView>::empty());
        assert(mech_views(mechanical@) =~= Seq::<MechView>::empty());
    }
    while i < pads.len()
        invariant
            i <= pads@.len(),
            pads@.len() + 1 < usize::MAX,
            next <= i + 1,
            goal == fp_fold((pin_views(pins@), mech_views(mechanical@), next as nat), pads@.skip(i as int), default_kind@),
        decreases pads@.len() - i,
    {
        let pad = &pads[i];
        proof {
            assert(pads@.skip(i as int)[0] == *pad);
            assert(pads@.skip(i as int).skip(1) =~= pads@.skip(i + 1));
        }
        let ghost pv = pin_views(pins@);
        let ghost mv = mech_views(mechanical@);
        if is_mechanical_pad(pad) {
            mechanical.push(MechanicalDef {
                number: pad.number.clone(),
                pos: pad.pos,
                width: pad.width,
                height: pad.height,
                pad_type: pad.pad_type.clone(),
                pad_shape: pad.shape.clone(),
                roundrect_rratio: pad.roundrect_rratio,
                layers: non_empty_string(pad.layers.as_str()),
                drill: match pad.drill {
                    Some(d) => d,
                    None => 0,
                },
            });
            proof {
                assert(mech_views(mechanical@) =~= mv.push(mech_of(*pad)));
            }
        } else {
            let num = pin_number(pad.number.as_str(), &mut next);
            let mut name = "PAD_".to_string();
            push_str(&mut name, pad.number.as_str());
            let p = PinDef {
                num,
                number: pad.number.clone(),
                name,
                purpose: "Pad".to_string(),
                notes: String::new(),
                electrical: KindEntry::plain(default_kind),
                pos: Some(pad.pos),
                rotation: Some(pad.rotation),
                length: Some(pad.size),
                width: Some(pad.width),
                height: Some(pad.height),
                pad_type: non_empty_string(pad.pad_type.as_str()),
                pad_shape: non_empty_string(pad.shape.as_str()),
                roundrect_rratio: pad.roundrect_rratio,
                solder_mask_margin: pad.solder_mask_margin,
                layers: non_empty_string(pad.layers.as_str()),
                drill: pad.drill,
                thermal_vias: Vec::new(),
            };
            proof {
                reveal_strlit("PAD_");
                assert(p.notes@ =~= Seq::<char>::empty());
                assert(p.thermal_vias@ =~= Seq::<ThermalVia>::empty());
                assert(p@ == pad_pin(*pad, num, default_kind@));
            }
            pins.push(p);
            proof {
                assert(pin_views(pins@) =~= pv.push(pad_pin(*pad, num, default_kind@)));
            }
        }
        i = i + 1;
    }
    proof {
        assert(pads@.skip(i as int) =~= Seq::<PadDef>::empty());
    }
    PartManifest { pins: sort_pins(pins), mechanical }
}


// ---------------------------------------------------------------------------
// Merging a symbol twice
// ---------------------------------------------------------------------------

/// Some pin of `pins` is the one for `number`.
pub open spec fn has_match(pins: Seq<PinView>, number: Seq<char>) -> bool {
    exists|j: int| 0 <= j < pins.len() && matches_number(#[trigger] pins[j], number)
}

proof fn lemma_step_keeps_matches(st: (Seq<PinView>, nat, Seq<DiagView>), s: SymPin, km: KindMap, dk: Seq<char>, x: Seq<char>)
    ensures
        has_match(st.0, x) ==> has_match(sym_step(st, s, km, dk).0, x),
        has_match(sym_step(st, s, km, dk).0, s.number@),
        sym_step(st, s, km, dk).0.len() >= st.0.len(),
{
    let r = sym_step(st, s, km, dk);
    lemma_match_index(st.0, s.number@);
    match match_index(st.0, s.number@) {
        Some(i) => {
            assert(matches_number(r.0[i as int], s.number@));
            if has_match(st.0, x) {
                let j = choose|j: int| 0 <= j < st.0.len() && matches_number(#[trigger] st.0[j], x);
                assert(matches_number(r.0[j], x));
            }
        },
        None => {
            assert(matches_number(r.0[st.0.len() as int], s.number@));
            if has_match(st.0, x) {
                let j = choose|j: int| 0 <= j < st.0.len() && matches_number(#[trigger] st.0[j], x);
                assert(r.0[j] == st.0[j]);
                assert(matches_number(r.0[j], x));
            }
        },
    }
}

proof fn lemma_fold_matches_all(st: (Seq<PinView>, nat, Seq<DiagView>), syms: Seq<SymPin>, km: KindMap, dk: Seq<char>)
    ensures
        forall|k: int| 0 <= k < syms.len() ==> has_match(sym_fold(st, syms, km, dk).0, (#[trigger] syms[k]).number@),
    decreases syms.len(),
{
    if syms.len() > 0 {
        let st1 = sym_step(st, syms[0], km, dk);
        lemma_fold_matches_all(st1, syms.skip(1), km, dk);
        lemma_step_keeps_matches(st, syms[0], km, dk, syms[0].number@);
        lemma_fold_keeps(st1, syms.skip(1), km, dk, syms[0].number@);
        assert forall|k: int| 0 <= k < syms.len() implies has_match(sym_fold(st, syms, km, dk).0, (#[trigger] syms[k]).number@) by {
            if k > 0 {
                assert(syms.skip(1)[k - 1] == syms[k]);
            }
        }
    }
}

proof fn lemma_fold_keeps(st: (Seq<PinView>, nat, Seq<DiagView>), syms: Seq<SymPin>, km: KindMap, dk: Seq<char>, x: Seq<char>)
    requires
        has_match(st.0, x),
    ensures
        has_match(sym_fold(st, syms, km, dk).0, x),
    decreases syms.len(),
{
    if syms.len() > 0 {
        lemma_step_keeps_matches(st, syms[0], km, dk, x);
        lemma_fold_keeps(sym_step(st, syms[0], km, dk), syms.skip(1), km, dk, x);
    }
}

proof fn lemma_insert_has(t: Seq<PinView>, x: PinView)
    ensures
        insert_by_num(t, x).len() == t.len() + 1,
        forall|j: int| #![trigger t[j]] 0 <= j < t.len() ==> exists|k: int| 0 <= k < t.len() + 1 && #[trigger] insert_by_num(t, x)[k] == t[j],
        exists|k: int| 0 <= k < t.len() + 1 && insert_by_num(t, x)[k] == x,
    decreases t.len(),
{
    let r = insert_by_num(t, x);
    if t.len() == 0 || t.last().num <= x.num {
        assert(r[t.len() as int] == x);
        assert forall|j: int| #![trigger t[j]] 0 <= j < t.len() implies exists|k: int| 0 <= k < t.len() + 1 && #[trigger] r[k] == t[j] by {
            assert(r[j] == t[j]);
        }
    } else {
        let d = t.drop_last();
        lemma_insert_has(d, x);
        let rd = insert_by_num(d, x);
        assert(r == rd.push(t.last()));
        assert(r[t.len() as int] == t.last());
        let kx = choose|k: int| 0 <= k < d.len() + 1 && rd[k] == x;
        assert(r[kx] == x);
        assert forall|j: int| #![trigger t[j]] 0 <= j < t.len() implies exists|k: int| 0 <= k < t.len() + 1 && #[trigger] r[k] == t[j] by {
            if j < d.len() {
                assert(d[j] == t[j]);
                let k = choose|k: int| 0 <= k < d.len() + 1 && #[trigger] rd[k] == d[j];
                assert(r[k] == t[j]);
            } else {
                assert(r[t.len() as int] == t[j]);
            }
        }
    }
}

proof fn lemma_sort_has(s: Seq<PinView>)
    ensures
        sort_by_num(s).len() == s.len(),
        forall|j: int| #![trigger s[j]] 0 <= j < s.len() ==> exists|k: int| 0 <= k < s.len() && #[trigger] sort_by_num(s)[k] == s[j],
    decreases s.len(),
{
    if s.len() > 0 {
        let d = s.drop_last();
        lemma_sort_has(d);
        let sd = sort_by_num(d);
        lemma_insert_has(sd, s.last());
        let r = sort_by_num(s);
        assert forall|j: int| #![trigger s[j]] 0 <= j < s.len() implies exists|k: int| 0 <= k < s.len() && #[trigger] r[k] == s[j] by {
            if j < d.len() {
                assert(d[j] == s[j]);
                let k1 = choose|k: int| 0 <= k < d.len() && #[trigger] sd[k] == d[j];
                let k2 = choose|k: int| 0 <= k < sd.len() + 1 && #[trigger] insert_by_num(sd, s.last())[k] == sd[k1];
                assert(r[k2] == s[j]);
            } else {
                let k = choose|k: int| 0 <= k < sd.len() + 1 && insert_by_num(sd, s.last())[k] == s.last();
                assert(r[k] == s[j]);
            }
        }
    }
}

proof fn lemma_refold(st: (Seq<PinView>, nat, Seq<DiagView>), syms: Seq<SymPin>, km: KindMap, dk: Seq<char>)
    requires
        forall|k: int| 0 <= k < syms.len() ==> has_match(st.0, (#[trigger] syms[k]).number@),
    ensures
        sym_fold(st, syms, km, dk).0.len() == st.0.len(),
        forall|k: int|
            st.2.len() <= k < sym_fold(st, syms, km, dk).2.len() ==> (#[trigger] sym_fold(st, syms, km, dk).2[k]).code
                == "CLI:UNKNOWN_PIN_TYPE"@,
        sym_fold(st, syms, km, dk).2.len() >= st.2.len(),
        sym_fold(st, syms, km, dk).2.take(st.2.len() as int) == st.2,
    decreases syms.len(),
{
    if syms.len() > 0 {
        let s = syms[0];
        assert(has_match(st.0, s.number@));
        lemma_match_index(st.0, s.number@);
        let j = choose|j: int| 0 <= j < st.0.len() && matches_number(#[trigger] st.0[j], s.number@);
        assert(match_index(st.0, s.number@) is Some);
        let st1 = sym_step(st, s, km, dk);
        assert(st1.0.len() == st.0.len());
        assert forall|k: int| 0 <= k < syms.skip(1).len() implies has_match(st1.0, (#[trigger] syms.skip(1)[k]).number@) by {
            assert(syms.skip(1)[k] == syms[k + 1]);
            lemma_step_keeps_matches(st, s, km, dk, syms[k + 1].number@);
        }
        lemma_refold(st1, syms.skip(1), km, dk);
        let f = sym_fold(st, syms, km, dk);
        assert(f == sym_fold(st1, syms.skip(1), km, dk));
        assert forall|k: int| st.2.len() <= k < f.2.len() implies (#[trigger] f.2[k]).code == "CLI:UNKNOWN_PIN_TYPE"@ by {
            if k >= st1.2.len() {
            } else {
                assert(f.2.take(st1.2.len() as int)[k] == st1.2[k]);
                assert(st1.2[k].code == "CLI:UNKNOWN_PIN_TYPE"@);
            }
        }
        assert(st1.2.take(st.2.len() as int) =~= st.2);
        assert(st1.2.len() >= st.2.len());
        assert(f.2.take(st1.2.len() as int) == st1.2);
        assert forall|k: int| 0 <= k < st.2.len() implies f.2[k] == st1.2[k] by {
            assert(f.2.take(st1.2.len() as int)[k] == st1.2[k]);
        }
        assert(f.2.take(st.2.len() as int) =~= st1.2.take(st.2.len() as int));
    }
}

/// Merging the same symbol a second time adds no pin and reports no new
/// pin: every symbol pin then finds the pin it matched or added.
pub proof fn law_merge_symbol_twice(pins: Seq<PinView>, syms: Seq<SymPin>, km: KindMap, default_kind: Seq<char>)
    ensures
        ({
            let (p1, d1) = merge_symbol_spec(pins, syms, km, default_kind);
            let (p2, d2) = merge_symbol_spec(p1, syms, km, default_kind);
            &&& p2.len() == p1.len()
            &&& forall|k: int| 0 <= k < d2.len() ==> (#[trigger] d2[k]).code != "CLI:NEW_PIN"@
        }),
{
    let f1 = sym_fold((pins, max_num(pins) + 1, Seq::empty()), syms, km, default_kind);
    let p1 = sort_by_num(f1.0);
    lemma_fold_matches_all((pins, max_num(pins) + 1, Seq::empty()), syms, km, default_kind);
    lemma_sort_has(f1.0);
    assert forall|k: int| 0 <= k < syms.len() implies has_match(p1, (#[trigger] syms[k]).number@) by {
        assert(has_match(f1.0, syms[k].number@));
        let j = choose|j: int| 0 <= j < f1.0.len() && matches_number(#[trigger] f1.0[j], syms[k].number@);
        let q = choose|q: int| 0 <= q < f1.0.len() && #[trigger] p1[q] == f1.0[j];
        assert(matches_number(p1[q], syms[k].number@));
    }
    let st = (p1, max_num(p1) + 1, Seq::<DiagView>::empty());
    lemma_refold(st, syms, km, default_kind);
    let f2 = sym_fold(st, syms, km, default_kind);
    lemma_sort_has(f2.0);
    reveal_strlit("CLI:NEW_PIN");
    reveal_strlit("CLI:UNKNOWN_PIN_TYPE");
    assert forall|k: int| 0 <= k < f2.2.len() implies (#[trigger] f2.2[k]).code != "CLI:NEW_PIN"@ by {
        assert(f2.2[k].code == "CLI:UNKNOWN_PIN_TYPE"@);
        assert("CLI:UNKNOWN_PIN_TYPE"@[4] != "CLI:NEW_PIN"@[4]);
    }
}


/// Build a manifest from a symbol's pins alone: the symbol pins merged into
/// an empty manifest (see [`merge_symbol`]).
pub fn manifest_from_symbol(symbol: &[SymPin], kindmap: &KindMap, default_kind: &str) -> (r: (PartManifest, Vec<Diagnostic>))
    requires
        symbol@.len() + 1 < usize::MAX,
    ensures
        (r.0@.pins, r.1@.map_values(|x: Diagnostic| diag_view(x))) == merge_symbol_spec(
            Seq::empty(),
            symbol@,
            *kindmap,
            default_kind@,
        ),
        r.0@.mechanical == Seq::<MechView>::empty(),
{
    let mut m = PartManifest { pins: Vec::new(), mechanical: Vec::new() };
    proof {
        assert(m@.pins =~= Seq::<PinView>::empty());
        assert(m@.mechanical =~= Seq::<MechView>::empty());
    }
    let d = merge_symbol(&mut m, symbol, kindmap, default_kind);
    (m, d)
}

} // verus!
