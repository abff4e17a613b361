//! Schematic-symbol pin auto-layout.
//!
//! Produces a conventional boxed symbol: positive power pins across the top,
//! ground/thermal pins across the bottom, and the remaining signal pins split
//! between the left and right sides. Coordinates are integers in hundredths
//! of a millimetre, and every pin connection point is a multiple of the
//! 2.54 mm (100 mil) grid.

use vstd::prelude::*;

use crate::kicad::board::Role;
use crate::kicad::common::{
    fmt_centi, font_node, font_t, format_hundredths, pin_type_spec, role_to_pin_type,
};
use crate::kicad::sexpr::{
    atom_pair, atom_pair_t, atom_triple, atom_triple_t, push_node, str_t, tagged, view_all, Sexpr,
};
use crate::text::{chars_of, decimal, has_prefix, starts_with, to_uppercase, u64_to_string, uppercase};
use crate::tree::Tree;

verus! {

broadcast use vstd::string::group_string_axioms;

/// Grid spacing in hundredths of a millimetre (0.1 inch).
pub const GRID: i64 = 254;

/// Default pin length in hundredths of a millimetre.
pub const PIN_LENGTH: i64 = 254;

/// Electrical classification inputs for one pin to be laid out.
#[derive(Clone, Debug)]
pub struct LayoutPin {
    pub name: String,
    pub number: String,
    pub role: Role,
}

/// A pin to be laid out, as a mathematical value.
pub struct PinSpec {
    pub name: Seq<char>,
    pub number: Seq<char>,
    pub role: Role,
}

impl View for LayoutPin {
    type V = PinSpec;

    open spec fn view(&self) -> PinSpec {
        PinSpec { name: self.name@, number: self.number@, role: self.role }
    }
}

/// The views of the pins.
pub open spec fn pin_views(pins: Seq<LayoutPin>) -> Seq<PinSpec> {
    pins.map_values(|p: LayoutPin| p@)
}

/// A fully placed symbol pin.
#[derive(Clone, Debug)]
pub struct PlacedPin {
    pub name: String,
    pub number: String,
    /// KiCad electrical type string (e.g. `"power_in"`).
    pub etype: &'static str,
    /// Connection point, in hundredths of a millimetre.
    pub x: i64,
    pub y: i64,
    /// Pin rotation in degrees: 0 = extends right (left side), 180 = extends
    /// left (right side), 270 = extends down (top), 90 = extends up (bottom).
    pub rotation: u32,
    /// Length, in hundredths of a millimetre.
    pub length: i64,
}

/// The result of auto-laying-out a symbol's pins.
#[derive(Clone, Debug)]
pub struct SymbolLayout {
    /// Body rectangle: `(x1, y1)` top-left, `(x2, y2)` bottom-right, in symbol
    /// coordinates (Y axis points up), hundredths of a millimetre.
    pub x1: i64,
    pub y1: i64,
    pub x2: i64,
    pub y2: i64,
    pub pins: Vec<PlacedPin>,
}

/// A placed pin as a mathematical value.
pub struct PinPlace {
    pub name: Seq<char>,
    pub number: Seq<char>,
    pub etype: Seq<char>,
    pub x: int,
    pub y: int,
    pub rotation: int,
    pub length: int,
}

/// A symbol layout as a mathematical value.
pub struct LayoutModel {
    pub x1: int,
    pub y1: int,
    pub x2: int,
    pub y2: int,
    pub pins: Seq<PinPlace>,
}

impl View for PlacedPin {
    type V = PinPlace;

    open spec fn view(&self) -> PinPlace {
        PinPlace {
            name: self.name@,
            number: self.number@,
            etype: self.etype@,
            x: self.x as int,
            y: self.y as int,
            rotation: self.rotation as int,
            length: self.length as int,
        }
    }
}

impl View for SymbolLayout {
    type V = LayoutModel;

    open spec fn view(&self) -> LayoutModel {
        LayoutModel {
            x1: self.x1 as int,
            y1: self.y1 as int,
            x2: self.x2 as int,
            y2: self.y2 as int,
            pins: self.pins@.map_values(|p: PlacedPin| p@),
        }
    }
}

/// Where a pin goes before the side split.
#[derive(Clone, Copy, Debug, PartialEq, Eq, Structural)]
pub enum Slot {
    Top,
    Bottom,
    Signal,
    /// A power input of a power converter: left side.
    PowerIn,
    /// A power output of a power converter: right side.
    PowerOut,
}

/// Whether the name marks an exposed thermal pad or a mechanical feature:
/// its upper case starts with `EXP`, `EP`, `PAD` or `MECH`.
pub open spec fn thermal(name: Seq<char>) -> bool {
    let u = uppercase(name);
    has_prefix(u, "EXP"@) || has_prefix(u, "EP"@) || has_prefix(u, "PAD"@) || has_prefix(u, "MECH"@)
}

/// Whether the symbol is a power converter: some pin is a power output.
pub open spec fn converter(pins: Seq<PinSpec>) -> bool {
    exists|i: int| 0 <= i < pins.len() && (#[trigger] pins[i]).role == Role::PowerOut
}

/// The slot of a pin: thermal names and grounds at the bottom; power pins
/// at the top, or, in a converter, inputs left and outputs right; the rest
/// are signals.
pub open spec fn slot_of(p: PinSpec, conv: bool) -> Slot {
    if thermal(p.name) {
        Slot::Bottom
    } else {
        match p.role {
            Role::PowerIn => if conv {
                Slot::PowerIn
            } else {
                Slot::Top
            },
            Role::PowerOut => if conv {
                Slot::PowerOut
            } else {
                Slot::Top
            },
            Role::Gnd => Slot::Bottom,
            _ => Slot::Signal,
        }
    }
}

/// Indices, in order, of the first `n` pins that are in slot `s`.
pub open spec fn slot_list(pins: Seq<PinSpec>, conv: bool, s: Slot, n: nat) -> Seq<usize>
    decreases n,
{
    if n == 0 {
        Seq::empty()
    } else if slot_of(pins[n - 1], conv) == s {
        slot_list(pins, conv, s, (n - 1) as nat).push((n - 1) as usize)
    } else {
        slot_list(pins, conv, s, (n - 1) as nat)
    }
}

/// Indices of all pins in slot `s`.
pub open spec fn in_slot(pins: Seq<PinSpec>, s: Slot) -> Seq<usize> {
    slot_list(pins, converter(pins), s, pins.len())
}

/// Number of signal pins on the left: the first half, rounded up.
pub open spec fn signal_split(pins: Seq<PinSpec>) -> int {
    (in_slot(pins, Slot::Signal).len() + 1) as int / 2
}

/// Left side, top to bottom: converter inputs, then the first half of the
/// signals.
pub open spec fn left_of(pins: Seq<PinSpec>) -> Seq<usize> {
    in_slot(pins, Slot::PowerIn) + in_slot(pins, Slot::Signal).take(signal_split(pins))
}

/// Right side, top to bottom: converter outputs, then the other signals.
pub open spec fn right_of(pins: Seq<PinSpec>) -> Seq<usize> {
    in_slot(pins, Slot::PowerOut) + in_slot(pins, Slot::Signal).skip(signal_split(pins))
}

/// Top edge, left to right.
pub open spec fn top_of(pins: Seq<PinSpec>) -> Seq<usize> {
    in_slot(pins, Slot::Top)
}

/// Bottom edge, left to right.
pub open spec fn bottom_of(pins: Seq<PinSpec>) -> Seq<usize> {
    in_slot(pins, Slot::Bottom)
}

pub open spec fn max(a: int, b: int) -> int {
    if a >= b {
        a
    } else {
        b
    }
}

/// Grid units between the first and the last of `n` rows.
pub open spec fn span(n: int) -> int {
    if n > 0 {
        n - 1
    } else {
        0
    }
}

/// Grid units spanned by the side rows.
pub open spec fn side_span(pins: Seq<PinSpec>) -> int {
    span(max(left_of(pins).len() as int, right_of(pins).len() as int))
}

/// Grid units spanned by the top and bottom columns.
pub open spec fn edge_span(pins: Seq<PinSpec>) -> int {
    span(max(top_of(pins).len() as int, bottom_of(pins).len() as int))
}

/// Row (in grid units) of the first side pin.
pub open spec fn first_row(pins: Seq<PinSpec>) -> int {
    side_span(pins) / 2
}

/// Column (in grid units) of the first top or bottom pin.
pub open spec fn first_col(pins: Seq<PinSpec>) -> int {
    -(edge_span(pins) / 2)
}

/// Half the body height, in grid units.
pub open spec fn half_height(pins: Seq<PinSpec>) -> int {
    (side_span(pins) + 1) / 2 + 1
}

/// Half the body width, in grid units (at least two).
pub open spec fn half_width(pins: Seq<PinSpec>) -> int {
    max((edge_span(pins) + 1) / 2 + 1, 2)
}

/// The frame numbers `(half width, half height, first column, first row)`
/// of a layout with `l`, `r`, `t` and `b` pins on its sides.
pub open spec fn frame_of(l: int, r: int, t: int, b: int) -> (int, int, int, int) {
    let ss = span(max(l, r));
    let es = span(max(t, b));
    (max((es + 1) / 2 + 1, 2), (ss + 1) / 2 + 1, -(es / 2), ss / 2)
}

/// Number of placed pins.
pub open spec fn placed_count(pins: Seq<PinSpec>) -> int {
    (left_of(pins).len() + right_of(pins).len() + top_of(pins).len() + bottom_of(pins).len()) as int
}

/// Which input pin the `k`-th placed pin is: left side first, then right,
/// top and bottom.
pub open spec fn source_of(pins: Seq<PinSpec>, k: int) -> int {
    let l = left_of(pins).len() as int;
    let r = right_of(pins).len() as int;
    let t = top_of(pins).len() as int;
    if k < l {
        left_of(pins)[k] as int
    } else if k < l + r {
        right_of(pins)[k - l] as int
    } else if k < l + r + t {
        top_of(pins)[k - l - r] as int
    } else {
        bottom_of(pins)[k - l - r - t] as int
    }
}

/// Position `(x, y, rotation)` of the `k`-th placed pin, in grid units and
/// degrees.
pub open spec fn grid_pos(pins: Seq<PinSpec>, k: int) -> (int, int, int) {
    let l = left_of(pins).len() as int;
    let r = right_of(pins).len() as int;
    let t = top_of(pins).len() as int;
    if k < l {
        (-(half_width(pins) + 1), first_row(pins) - k, 0)
    } else if k < l + r {
        (half_width(pins) + 1, first_row(pins) - (k - l), 180)
    } else if k < l + r + t {
        (first_col(pins) + (k - l - r), half_height(pins) + 1, 270)
    } else {
        (first_col(pins) + (k - l - r - t), -(half_height(pins) + 1), 90)
    }
}

/// The `k`-th placed pin.
pub open spec fn place(pins: Seq<PinSpec>, k: int) -> PinPlace {
    let p = pins[source_of(pins, k)];
    let g = grid_pos(pins, k);
    PinPlace {
        name: p.name,
        number: p.number,
        etype: pin_type_spec(p.role),
        x: g.0 * 254,
        y: g.1 * 254,
        rotation: g.2,
        length: 254,
    }
}

/// What [`layout_symbol`] returns.
pub open spec fn layout_spec(pins: Seq<PinSpec>) -> LayoutModel {
    LayoutModel {
        x1: -half_width(pins) * 254,
        y1: half_height(pins) * 254,
        x2: half_width(pins) * 254,
        y2: -half_height(pins) * 254,
        pins: Seq::new(placed_count(pins) as nat, |k: int| place(pins, k)),
    }
}

/// Most pins a symbol is laid out with.
pub open spec fn max_pins() -> nat {
    1_000_000_000
}

/// A slot list holds increasing indices below `n`, of pins in that slot.
pub proof fn lemma_slot_list(pins: Seq<PinSpec>, conv: bool, s: Slot, n: nat)
    requires
        n <= pins.len(),
        pins.len() <= usize::MAX,
    ensures
        forall|a: int, b: int|
            0 <= a < b < slot_list(pins, conv, s, n).len() ==> #[trigger] slot_list(pins, conv, s, n)[a]
                < #[trigger] slot_list(pins, conv, s, n)[b],
        forall|a: int|
            0 <= a < slot_list(pins, conv, s, n).len() ==> #[trigger] slot_list(pins, conv, s, n)[a] < n
                && slot_of(pins[slot_list(pins, conv, s, n)[a] as int], conv) == s,
    decreases n,
{
    if n > 0 {
        lemma_slot_list(pins, conv, s, (n - 1) as nat);
        let prev = slot_list(pins, conv, s, (n - 1) as nat);
        let cur = slot_list(pins, conv, s, n);
        if slot_of(pins[n - 1], conv) == s {
            assert(cur == prev.push((n - 1) as usize));
            assert forall|a: int, b: int| 0 <= a < b < cur.len() implies #[trigger] cur[a] < #[trigger] cur[b] by {
                assert(cur[a] == prev[a]);
                if b < prev.len() {
                    assert(cur[b] == prev[b]);
                }
            }
            assert forall|a: int| 0 <= a < cur.len() implies #[trigger] cur[a] < n && slot_of(
                pins[cur[a] as int],
                conv,
            ) == s by {
                if a < prev.len() {
                    assert(cur[a] == prev[a]);
                }
            }
        } else {
            assert(cur == prev);
        }
    }
}

/// Together the slot lists of the first `n` pins hold `n` indices.
pub proof fn lemma_slot_count(pins: Seq<PinSpec>, conv: bool, n: nat)
    requires
        n <= pins.len(),
        pins.len() <= usize::MAX,
    ensures
        slot_list(pins, conv, Slot::Top, n).len() + slot_list(pins, conv, Slot::Bottom, n).len()
            + slot_list(pins, conv, Slot::Signal, n).len() + slot_list(pins, conv, Slot::PowerIn, n).len()
            + slot_list(pins, conv, Slot::PowerOut, n).len() == n,
    decreases n,
{
    if n > 0 {
        lemma_slot_count(pins, conv, (n - 1) as nat);
    }
}

/// All five slot lists of the pins are sorted, in range and of their slot,
/// and together hold one index per pin.
pub proof fn lemma_slots(pins: Seq<PinSpec>)
    requires
        pins.len() <= usize::MAX,
    ensures
        forall|s: Slot, a: int, b: int|
            0 <= a < b < in_slot(pins, s).len() ==> #[trigger] in_slot(pins, s)[a]
                < #[trigger] in_slot(pins, s)[b],
        forall|s: Slot, a: int|
            0 <= a < in_slot(pins, s).len() ==> #[trigger] in_slot(pins, s)[a] < pins.len()
                && slot_of(pins[in_slot(pins, s)[a] as int], converter(pins)) == s,
        in_slot(pins, Slot::Top).len() + in_slot(pins, Slot::Bottom).len() + in_slot(
            pins,
            Slot::Signal,
        ).len() + in_slot(pins, Slot::PowerIn).len() + in_slot(pins, Slot::PowerOut).len()
            == pins.len(),
{
    let conv = converter(pins);
    lemma_slot_list(pins, conv, Slot::Top, pins.len());
    lemma_slot_list(pins, conv, Slot::Bottom, pins.len());
    lemma_slot_list(pins, conv, Slot::Signal, pins.len());
    lemma_slot_list(pins, conv, Slot::PowerIn, pins.len());
    lemma_slot_list(pins, conv, Slot::PowerOut, pins.len());
    lemma_slot_count(pins, conv, pins.len());
    assert forall|s: Slot, a: int, b: int|
        0 <= a < b < in_slot(pins, s).len() implies #[trigger] in_slot(pins, s)[a]
        < #[trigger] in_slot(pins, s)[b] by {
        lemma_slot_list(pins, conv, s, pins.len());
    }
    assert forall|s: Slot, a: int|
        0 <= a < in_slot(pins, s).len() implies #[trigger] in_slot(pins, s)[a] < pins.len()
        && slot_of(pins[in_slot(pins, s)[a] as int], converter(pins)) == s by {
        lemma_slot_list(pins, conv, s, pins.len());
    }
}

/// Executable [`thermal`].
fn is_thermal_name(name: &str) -> (b: bool)
    ensures
        b == thermal(name@),
{
    let upper = to_uppercase(name);
    let u = chars_of(upper.as_str());
    starts_with(&u, &chars_of("EXP")) || starts_with(&u, &chars_of("EP")) || starts_with(
        &u,
        &chars_of("PAD"),
    ) || starts_with(&u, &chars_of("MECH"))
}

/// Executable [`slot_of`].
fn slot(p: &LayoutPin, conv: bool) -> (s: Slot)
    ensures
        s == slot_of(p@, conv),
{
    if is_thermal_name(p.name.as_str()) {
        Slot::Bottom
    } else {
        match p.role {
            Role::PowerIn => if conv {
                Slot::PowerIn
            } else {
                Slot::Top
            },
            Role::PowerOut => if conv {
                Slot::PowerOut
            } else {
                Slot::Top
            },
            Role::Gnd => Slot::Bottom,
            _ => Slot::Signal,
        }
    }
}

/// Executable [`converter`].
fn has_power_out(pins: &[LayoutPin]) -> (b: bool)
    ensures
        b == converter(pin_views(pins@)),
{
    let mut i: usize = 0;
    while i < pins.len()
        invariant
            i <= pins@.len(),
            forall|j: int| 0 <= j < i ==> (#[trigger] pins@[j]).role != Role::PowerOut,
        decreases pins@.len() - i,
    {
        if pins[i].role == Role::PowerOut {
            assert(pin_views(pins@)[i as int].role == Role::PowerOut);
            return true;
        }
        i = i + 1;
    }
    assert forall|j: int| 0 <= j < pins@.len() implies (#[trigger] pin_views(pins@)[j]).role != Role::PowerOut by {
        assert(pin_views(pins@)[j] == pins@[j]@);
    }
    false
}

/// Indices of the pins in slot `s`, in order.
fn collect_slot(pins: &[LayoutPin], conv: bool, s: Slot) -> (v: Vec<usize>)
    ensures
        v@ == slot_list(pin_views(pins@), conv, s, pins@.len()),
{
    let mut v: Vec<usize> = Vec::new();
    let mut i: usize = 0;
    while i < pins.len()
        invariant
            i <= pins@.len(),
            v@ == slot_list(pin_views(pins@), conv, s, i as nat),
        decreases pins@.len() - i,
    {
        assert(pin_views(pins@)[i as int] == pins@[i as int]@);
        if slot(&pins[i], conv) == s {
            v.push(i);
        }
        i = i + 1;
    }
    v
}

/// Appends `src[from..to]` to `dst`.
fn append_range(dst: &mut Vec<usize>, src: &Vec<usize>, from: usize, to: usize)
    requires
        from <= to <= src@.len(),
    ensures
        final(dst)@ == old(dst)@ + src@.subrange(from as int, to as int),
{
    let ghost d0 = dst@;
    let mut k = from;
    while k < to
        invariant
            from <= k <= to <= src@.len(),
            dst@ == d0 + src@.subrange(from as int, k as int),
        decreases to - k,
    {
        dst.push(src[k]);
        k = k + 1;
        assert(dst@ =~= d0 + src@.subrange(from as int, k as int));
    }
}

/// A pin placed at `(x, y)` with rotation `rot`.
pub open spec fn pin_at(p: PinSpec, x: int, y: int, rot: int) -> PinPlace {
    PinPlace {
        name: p.name,
        number: p.number,
        etype: pin_type_spec(p.role),
        x,
        y,
        rotation: rot,
        length: 254,
    }
}

fn placed_pin(p: &LayoutPin, x: i64, y: i64, rotation: u32) -> (r: PlacedPin)
    ensures
        r@ == pin_at(p@, x as int, y as int, rotation as int),
{
    PlacedPin {
        name: p.name.clone(),
        number: p.number.clone(),
        etype: role_to_pin_type(p.role),
        x,
        y,
        rotation,
        length: PIN_LENGTH,
    }
}

/// Places the pins `idx` down a side at `x`, the first in grid row `y0`.
fn place_side(placed: &mut Vec<PlacedPin>, pins: &[LayoutPin], idx: &Vec<usize>, x: i64, y0: i64, rot: u32)
    requires
        forall|a: int| 0 <= a < idx@.len() ==> (#[trigger] idx@[a]) < pins@.len(),
        idx@.len() <= max_pins(),
        -max_pins() <= y0 <= max_pins(),
    ensures
        final(placed)@.len() == old(placed)@.len() + idx@.len(),
        forall|k: int| 0 <= k < old(placed)@.len() ==> (#[trigger] final(placed)@[k]) == old(placed)@[k],
        forall|j: int|
            0 <= j < idx@.len() ==> (#[trigger] final(placed)@[old(placed)@.len() + j])@ == pin_at(
                pins@[idx@[j] as int]@,
                x as int,
                (y0 - j) * 254,
                rot as int,
            ),
{
    let ghost p0 = placed@;
    let mut row: usize = 0;
    while row < idx.len()
        invariant
            forall|a: int| 0 <= a < idx@.len() ==> (#[trigger] idx@[a]) < pins@.len(),
            idx@.len() <= max_pins(),
            -max_pins() <= y0 <= max_pins(),
            row <= idx@.len(),
            placed@.len() == p0.len() + row,
            forall|k: int| 0 <= k < p0.len() ==> (#[trigger] placed@[k]) == p0[k],
            forall|j: int|
                0 <= j < row ==> (#[trigger] placed@[p0.len() + j])@ == pin_at(
                    pins@[idx@[j] as int]@,
                    x as int,
                    (y0 - j) * 254,
                    rot as int,
                ),
        decreases idx@.len() - row,
    {
        let i = idx[row];
        let pin = placed_pin(&pins[i], x, (y0 - row as i64) * GRID, rot);
        placed.push(pin);
        row = row + 1;
    }
}

/// Places the pins `idx` along an edge at `y`, the first in grid column
/// `x0`.
fn place_edge(placed: &mut Vec<PlacedPin>, pins: &[LayoutPin], idx: &Vec<usize>, x0: i64, y: i64, rot: u32)
    requires
        forall|a: int| 0 <= a < idx@.len() ==> (#[trigger] idx@[a]) < pins@.len(),
        idx@.len() <= max_pins(),
        -max_pins() <= x0 <= max_pins(),
    ensures
        final(placed)@.len() == old(placed)@.len() + idx@.len(),
        forall|k: int| 0 <= k < old(placed)@.len() ==> (#[trigger] final(placed)@[k]) == old(placed)@[k],
        forall|j: int|
            0 <= j < idx@.len() ==> (#[trigger] final(placed)@[old(placed)@.len() + j])@ == pin_at(
                pins@[idx@[j] as int]@,
                (x0 + j) * 254,
                y as int,
                rot as int,
            ),
{
    let ghost p0 = placed@;
    let mut col: usize = 0;
    while col < idx.len()
        invariant
            forall|a: int| 0 <= a < idx@.len() ==> (#[trigger] idx@[a]) < pins@.len(),
            idx@.len() <= max_pins(),
            -max_pins() <= x0 <= max_pins(),
            col <= idx@.len(),
            placed@.len() == p0.len() + col,
            forall|k: int| 0 <= k < p0.len() ==> (#[trigger] placed@[k]) == p0[k],
            forall|j: int|
                0 <= j < col ==> (#[trigger] placed@[p0.len() + j])@ == pin_at(
                    pins@[idx@[j] as int]@,
                    (x0 + j) * 254,
                    y as int,
                    rot as int,
                ),
        decreases idx@.len() - col,
    {
        let i = idx[col];
        let pin = placed_pin(&pins[i], (x0 + col as i64) * GRID, y, rot);
        placed.push(pin);
        col = col + 1;
    }
}

/// The four sides of the layout: left, right, top and bottom.
fn sides(pins: &[LayoutPin]) -> (r: (Vec<usize>, Vec<usize>, Vec<usize>, Vec<usize>))
    requires
        pins@.len() <= max_pins(),
    ensures
        r.0@ == left_of(pin_views(pins@)),
        r.1@ == right_of(pin_views(pins@)),
        r.2@ == top_of(pin_views(pins@)),
        r.3@ == bottom_of(pin_views(pins@)),
{
    let conv = has_power_out(pins);
    let top = collect_slot(pins, conv, Slot::Top);
    let bottom = collect_slot(pins, conv, Slot::Bottom);
    let signals = collect_slot(pins, conv, Slot::Signal);
    let pwr_in = collect_slot(pins, conv, Slot::PowerIn);
    let pwr_out = collect_slot(pins, conv, Slot::PowerOut);
    proof {
        lemma_slots(pin_views(pins@));
    }
    let ns = signals.len();
    let mid = (ns + 1) / 2;
    let mut left: Vec<usize> = Vec::new();
    append_range(&mut left, &pwr_in, 0, pwr_in.len());
    append_range(&mut left, &signals, 0, mid);
    let mut right: Vec<usize> = Vec::new();
    append_range(&mut right, &pwr_out, 0, pwr_out.len());
    append_range(&mut right, &signals, mid, ns);
    proof {
        assert(pwr_in@.subrange(0, pwr_in@.len() as int) =~= pwr_in@);
        assert(pwr_out@.subrange(0, pwr_out@.len() as int) =~= pwr_out@);
        assert(signals@.subrange(0, mid as int) =~= signals@.take(mid as int));
        assert(signals@.subrange(mid as int, ns as int) =~= signals@.skip(mid as int));
        assert(left@ =~= left_of(pin_views(pins@)));
        assert(right@ =~= right_of(pin_views(pins@)));
    }
    (left, right, top, bottom)
}

/// The sides together hold one index per pin, each below the pin count.
pub proof fn lemma_sides(pins: Seq<PinSpec>)
    requires
        pins.len() <= usize::MAX,
    ensures
        left_of(pins).len() + right_of(pins).len() + top_of(pins).len() + bottom_of(pins).len()
            == pins.len(),
        forall|a: int| 0 <= a < left_of(pins).len() ==> (#[trigger] left_of(pins)[a]) < pins.len(),
        forall|a: int| 0 <= a < right_of(pins).len() ==> (#[trigger] right_of(pins)[a]) < pins.len(),
        forall|a: int| 0 <= a < top_of(pins).len() ==> (#[trigger] top_of(pins)[a]) < pins.len(),
        forall|a: int| 0 <= a < bottom_of(pins).len() ==> (#[trigger] bottom_of(pins)[a]) < pins.len(),
{
    lemma_slots(pins);
    let sig = in_slot(pins, Slot::Signal);
    let m = signal_split(pins);
    assert(sig.take(m).len() + sig.skip(m).len() == sig.len());
    assert forall|a: int| 0 <= a < left_of(pins).len() implies (#[trigger] left_of(pins)[a]) < pins.len() by {
        let pi = in_slot(pins, Slot::PowerIn);
        if a < pi.len() {
            assert(left_of(pins)[a] == pi[a]);
        } else {
            assert(left_of(pins)[a] == sig[a - pi.len()]);
        }
    }
    assert forall|a: int| 0 <= a < right_of(pins).len() implies (#[trigger] right_of(pins)[a]) < pins.len() by {
        let po = in_slot(pins, Slot::PowerOut);
        if a < po.len() {
            assert(right_of(pins)[a] == po[a]);
        } else {
            assert(right_of(pins)[a] == sig[m + a - po.len()]);
        }
    }
    assert forall|a: int| 0 <= a < top_of(pins).len() implies (#[trigger] top_of(pins)[a]) < pins.len() by {
        assert(top_of(pins)[a] == in_slot(pins, Slot::Top)[a]);
    }
    assert forall|a: int| 0 <= a < bottom_of(pins).len() implies (#[trigger] bottom_of(pins)[a]) < pins.len() by {
        assert(bottom_of(pins)[a] == in_slot(pins, Slot::Bottom)[a]);
    }
}

/// Body extents in integer grid units (see [`frame_of`]).
fn frame(nl: usize, nr: usize, nt: usize, nb: usize) -> (r: (i64, i64, i64, i64))
    requires
        nl <= max_pins(),
        nr <= max_pins(),
        nt <= max_pins(),
        nb <= max_pins(),
    ensures
        (r.0 as int, r.1 as int, r.2 as int, r.3 as int) == frame_of(nl as int, nr as int, nt as int, nb as int),
        2 <= r.0 <= max_pins(),
        1 <= r.1 <= max_pins(),
        -max_pins() <= r.2 <= 0,
        0 <= r.3 <= max_pins(),
{
    let n_side = if nl >= nr {
        nl
    } else {
        nr
    };
    let n_tb = if nt >= nb {
        nt
    } else {
        nb
    };
    let span_side: i64 = if n_side > 0 {
        (n_side - 1) as i64
    } else {
        0
    };
    let span_tb: i64 = if n_tb > 0 {
        (n_tb - 1) as i64
    } else {
        0
    };
    let y0: i64 = span_side / 2;
    let x0: i64 = -(span_tb / 2);
    let hh: i64 = (span_side + 1) / 2 + 1;
    let hw0: i64 = (span_tb + 1) / 2 + 1;
    let hw: i64 = if hw0 >= 2 {
        hw0
    } else {
        2
    };
    (hw, hh, x0, y0)
}

/// Lay out `pins` as a boxed symbol (see [`layout_spec`]).
///
/// Classification: exposed-pad and ground pins go to the bottom edge, power
/// input/output pins to the top edge, and all remaining pins are split in
/// order between the left and right edges.  Symbols containing power-output
/// pins (power converters/regulators) instead place power inputs on the left
/// and power outputs on the right.
pub fn layout_symbol(pins: &[LayoutPin]) -> (r: SymbolLayout)
    requires
        pins@.len() <= max_pins(),
    ensures
        r@ == layout_spec(pin_views(pins@)),
{
    let (left, right, top, bottom) = sides(pins);
    proof {
        lemma_sides(pin_views(pins@));
    }

    let nl = left.len();
    let nr = right.len();
    let nt = top.len();
    let nb = bottom.len();
    let (hw, hh, x0, y0) = frame(nl, nr, nt, nb);

    let mut placed: Vec<PlacedPin> = Vec::new();
    let ghost lv = left@;
    let ghost rv = right@;
    let ghost tv = top@;
    let ghost bv = bottom@;
    let ghost (w, h, c0, r0) = (hw as int, hh as int, x0 as int, y0 as int);
    assert((w, h, c0, r0) == frame_of(lv.len() as int, rv.len() as int, tv.len() as int, bv.len() as int));
    place_side(&mut placed, pins, &left, -((hw + 1) * GRID), y0, 0);
    assert forall|j: int| 0 <= j < lv.len() implies (#[trigger] placed@[j])@ == pin_at(
        pins@[lv[j] as int]@,
        -(w + 1) * 254,
        (r0 - j) * 254,
        0,
    ) by {
        assert(placed@[j] == placed@[0 + j]);
    }
    place_side(&mut placed, pins, &right, (hw + 1) * GRID, y0, 180);
    place_edge(&mut placed, pins, &top, x0, (hh + 1) * GRID, 270);
    place_edge(&mut placed, pins, &bottom, x0, -((hh + 1) * GRID), 90);
    let r = SymbolLayout {
        x1: -(hw * GRID),
        y1: hh * GRID,
        x2: hw * GRID,
        y2: -(hh * GRID),
        pins: placed,
    };
    proof {
        assert forall|i: int| 0 <= i < pins@.len() implies #[trigger] pin_views(pins@)[i] == pins@[i]@ by {}
        lemma_assemble(pin_views(pins@), r.pins@, w, h, c0, r0);
    }
    r
}

/// The four runs of placed pins together are the layout's pins.
proof fn lemma_assemble(pins: Seq<PinSpec>, ps: Seq<PlacedPin>, w: int, h: int, c0: int, r0: int)
    requires
        w == half_width(pins),
        h == half_height(pins),
        c0 == first_col(pins),
        r0 == first_row(pins),
        ps.len() == placed_count(pins),
        forall|j: int|
            0 <= j < left_of(pins).len() ==> (#[trigger] ps[j])@ == pin_at(
                pins[left_of(pins)[j] as int],
                -(w + 1) * 254,
                (r0 - j) * 254,
                0,
            ),
        forall|j: int|
            0 <= j < right_of(pins).len() ==> (#[trigger] ps[left_of(pins).len() + j])@ == pin_at(
                pins[right_of(pins)[j] as int],
                (w + 1) * 254,
                (r0 - j) * 254,
                180,
            ),
        forall|j: int|
            0 <= j < top_of(pins).len() ==> (#[trigger] ps[left_of(pins).len() + right_of(pins).len()
                + j])@ == pin_at(pins[top_of(pins)[j] as int], (c0 + j) * 254, (h + 1) * 254, 270),
        forall|j: int|
            0 <= j < bottom_of(pins).len() ==> (#[trigger] ps[left_of(pins).len()
                + right_of(pins).len() + top_of(pins).len() + j])@ == pin_at(
                pins[bottom_of(pins)[j] as int],
                (c0 + j) * 254,
                -(h + 1) * 254,
                90,
            ),
    ensures
        ps.map_values(|p: PlacedPin| p@) =~= layout_spec(pins).pins,
{
    let l = left_of(pins).len() as int;
    let r = right_of(pins).len() as int;
    let t = top_of(pins).len() as int;
    assert forall|k: int| 0 <= k < ps.len() implies (#[trigger] ps[k])@ == place(pins, k) by {
        if k < l {
        } else if k < l + r {
            assert(ps[k] == ps[l + (k - l)]);
        } else if k < l + r + t {
            assert(ps[k] == ps[l + r + (k - l - r)]);
        } else {
            assert(ps[k] == ps[l + r + t + (k - l - r - t)]);
        }
    }
}

// ---------------------------------------------------------------------------
// Laws of the layout
// ---------------------------------------------------------------------------

/// Every pin connection point lies on the 2.54 mm grid.
pub proof fn law_layout_on_grid(pins: Seq<PinSpec>)
    ensures
        forall|k: int|
            0 <= k < layout_spec(pins).pins.len() ==> (#[trigger] layout_spec(pins).pins[k]).x % 254 == 0
                && layout_spec(pins).pins[k].y % 254 == 0,
{
    assert forall|k: int| 0 <= k < layout_spec(pins).pins.len() implies (#[trigger] layout_spec(
        pins,
    ).pins[k]).x % 254 == 0 && layout_spec(pins).pins[k].y % 254 == 0 by {
        let g = grid_pos(pins, k);
        assert(layout_spec(pins).pins[k] == place(pins, k));
        assert((g.0 * 254) % 254 == 0) by (nonlinear_arith);
        assert((g.1 * 254) % 254 == 0) by (nonlinear_arith);
    }
}

/// Side rows lie strictly between the body's top and bottom edges, and
/// top/bottom columns strictly between its left and right edges.
proof fn lemma_grid_bounds(pins: Seq<PinSpec>, k: int)
    requires
        0 <= k < placed_count(pins),
    ensures
        ({
            let g = grid_pos(pins, k);
            let w = half_width(pins);
            let h = half_height(pins);
            &&& w >= 2
            &&& h >= 1
            &&& (g.2 == 0 || g.2 == 180) ==> -h < g.1 < h
            &&& (g.2 == 270 || g.2 == 90) ==> -w < g.0 < w
            &&& g.2 == 0 ==> g.0 == -(w + 1)
            &&& g.2 == 180 ==> g.0 == w + 1
            &&& g.2 == 270 ==> g.1 == h + 1
            &&& g.2 == 90 ==> g.1 == -(h + 1)
            &&& g.2 == 0 || g.2 == 180 || g.2 == 270 || g.2 == 90
        }),
{
}

/// The body is centred on the origin, and each pin sits just outside the
/// body edge it belongs to, facing it: left pins (rotation 0) left of the
/// body, right pins (180) right of it, top pins (270) above and bottom pins
/// (90) below, each within the extent of its edge.
pub proof fn law_layout_body_encloses(pins: Seq<PinSpec>)
    ensures
        ({
            let m = layout_spec(pins);
            &&& m.x1 < 0 < m.x2
            &&& m.y2 < 0 < m.y1
            &&& forall|k: int|
                0 <= k < m.pins.len() ==> {
                    let p = #[trigger] m.pins[k];
                    &&& p.rotation == 0 || p.rotation == 90 || p.rotation == 180 || p.rotation == 270
                    &&& p.rotation == 0 ==> p.x < m.x1 && m.y2 < p.y < m.y1
                    &&& p.rotation == 180 ==> p.x > m.x2 && m.y2 < p.y < m.y1
                    &&& p.rotation == 270 ==> p.y > m.y1 && m.x1 < p.x < m.x2
                    &&& p.rotation == 90 ==> p.y < m.y2 && m.x1 < p.x < m.x2
                }
        }),
{
    let m = layout_spec(pins);
    assert forall|k: int| 0 <= k < m.pins.len() implies {
        let p = #[trigger] m.pins[k];
        &&& p.rotation == 0 || p.rotation == 90 || p.rotation == 180 || p.rotation == 270
        &&& p.rotation == 0 ==> p.x < m.x1 && m.y2 < p.y < m.y1
        &&& p.rotation == 180 ==> p.x > m.x2 && m.y2 < p.y < m.y1
        &&& p.rotation == 270 ==> p.y > m.y1 && m.x1 < p.x < m.x2
        &&& p.rotation == 90 ==> p.y < m.y2 && m.x1 < p.x < m.x2
    } by {
        lemma_grid_bounds(pins, k);
        assert(m.pins[k] == place(pins, k));
    }
    assert(half_width(pins) >= 2);
}

/// The slot of the `k`-th placed pin and its position in that slot's list.
pub open spec fn slot_pos(pins: Seq<PinSpec>, k: int) -> (Slot, int) {
    let l = left_of(pins).len() as int;
    let r = right_of(pins).len() as int;
    let t = top_of(pins).len() as int;
    let pi = in_slot(pins, Slot::PowerIn).len() as int;
    let po = in_slot(pins, Slot::PowerOut).len() as int;
    if k < l {
        if k < pi {
            (Slot::PowerIn, k)
        } else {
            (Slot::Signal, k - pi)
        }
    } else if k < l + r {
        if k - l < po {
            (Slot::PowerOut, k - l)
        } else {
            (Slot::Signal, signal_split(pins) + (k - l - po))
        }
    } else if k < l + r + t {
        (Slot::Top, k - l - r)
    } else {
        (Slot::Bottom, k - l - r - t)
    }
}

proof fn lemma_slot_pos(pins: Seq<PinSpec>, k: int)
    requires
        0 <= k < placed_count(pins),
        pins.len() <= usize::MAX,
    ensures
        0 <= slot_pos(pins, k).1 < in_slot(pins, slot_pos(pins, k).0).len(),
        source_of(pins, k) == in_slot(pins, slot_pos(pins, k).0)[slot_pos(pins, k).1] as int,
{
    let sig = in_slot(pins, Slot::Signal);
    let m = signal_split(pins);
    assert(m <= sig.len()) by {
        assert(m == (sig.len() + 1) as int / 2);
    }
}

/// Each pin is placed exactly once: there are as many placed pins as input
/// pins, each comes from an input pin, and no two come from the same one.
pub proof fn law_layout_places_each_pin_once(pins: Seq<PinSpec>)
    requires
        pins.len() <= usize::MAX,
    ensures
        layout_spec(pins).pins.len() == pins.len(),
        forall|k: int| 0 <= k < pins.len() ==> 0 <= #[trigger] source_of(pins, k) < pins.len(),
        forall|k1: int, k2: int|
            0 <= k1 < k2 < pins.len() ==> #[trigger] source_of(pins, k1) != #[trigger] source_of(
                pins,
                k2,
            ),
{
    lemma_sides(pins);
    lemma_slots(pins);
    assert forall|k: int| 0 <= k < pins.len() implies 0 <= #[trigger] source_of(pins, k) < pins.len() by {
        lemma_slot_pos(pins, k);
    }
    assert forall|k1: int, k2: int| 0 <= k1 < k2 < pins.len() implies #[trigger] source_of(pins, k1)
        != #[trigger] source_of(pins, k2) by {
        lemma_slot_pos(pins, k1);
        lemma_slot_pos(pins, k2);
        let (s1, a) = slot_pos(pins, k1);
        let (s2, b) = slot_pos(pins, k2);
        if s1 == s2 {
            assert(a != b);
            if a < b {
                assert(in_slot(pins, s1)[a] < in_slot(pins, s1)[b]);
            } else {
                assert(in_slot(pins, s1)[b] < in_slot(pins, s1)[a]);
            }
        } else {
            assert(slot_of(pins[in_slot(pins, s1)[a] as int], converter(pins)) == s1);
            assert(slot_of(pins[in_slot(pins, s2)[b] as int], converter(pins)) == s2);
        }
    }
}

/// No two pins share a connection point.
pub proof fn law_layout_no_overlap(pins: Seq<PinSpec>)
    ensures
        forall|k1: int, k2: int|
            0 <= k1 < k2 < layout_spec(pins).pins.len() ==> {
                let p = #[trigger] layout_spec(pins).pins[k1];
                let q = #[trigger] layout_spec(pins).pins[k2];
                p.x != q.x || p.y != q.y
            },
{
    let m = layout_spec(pins);
    assert forall|k1: int, k2: int| 0 <= k1 < k2 < m.pins.len() implies {
        let p = #[trigger] m.pins[k1];
        let q = #[trigger] m.pins[k2];
        p.x != q.x || p.y != q.y
    } by {
        lemma_grid_bounds(pins, k1);
        lemma_grid_bounds(pins, k2);
        assert(m.pins[k1] == place(pins, k1));
        assert(m.pins[k2] == place(pins, k2));
        let g1 = grid_pos(pins, k1);
        let g2 = grid_pos(pins, k2);
        assert(g1.0 != g2.0 || g1.1 != g2.1);
    }
}

/// Where each pin goes: ground pins and thermal or mechanical pads on the
/// bottom edge (rotation 90); power pins on the top edge (270), except in a
/// power converter (a symbol with a power output), whose power inputs go on
/// the left (0) and power outputs on the right (180); every other pin on the
/// left or right side, the first half (rounded up) of them on the left.
pub proof fn law_layout_sides(pins: Seq<PinSpec>)
    requires
        pins.len() <= usize::MAX,
    ensures
        forall|k: int|
            0 <= k < layout_spec(pins).pins.len() ==> {
                let s = slot_of(pins[source_of(pins, k)], converter(pins));
                let rot = (#[trigger] layout_spec(pins).pins[k]).rotation;
                &&& s == Slot::Top ==> rot == 270
                &&& s == Slot::Bottom ==> rot == 90
                &&& s == Slot::PowerIn ==> rot == 0
                &&& s == Slot::PowerOut ==> rot == 180
                &&& s == Slot::Signal ==> (rot == 0 || rot == 180) && (rot == 0 <==> slot_pos(
                    pins,
                    k,
                ).1 < signal_split(pins))
            },
{
    lemma_slots(pins);
    assert forall|k: int| 0 <= k < layout_spec(pins).pins.len() implies {
        let s = slot_of(pins[source_of(pins, k)], converter(pins));
        let rot = (#[trigger] layout_spec(pins).pins[k]).rotation;
        &&& s == Slot::Top ==> rot == 270
        &&& s == Slot::Bottom ==> rot == 90
        &&& s == Slot::PowerIn ==> rot == 0
        &&& s == Slot::PowerOut ==> rot == 180
        &&& s == Slot::Signal ==> (rot == 0 || rot == 180) && (rot == 0 <==> slot_pos(pins, k).1
            < signal_split(pins))
    } by {
        lemma_slot_pos(pins, k);
        let (sl, a) = slot_pos(pins, k);
        assert(slot_of(pins[in_slot(pins, sl)[a] as int], converter(pins)) == sl);
        assert(layout_spec(pins).pins[k] == place(pins, k));
        let sig = in_slot(pins, Slot::Signal);
        assert(signal_split(pins) <= sig.len()) by {
            assert(signal_split(pins) == (sig.len() + 1) as int / 2);
        }
    }
}

// ---------------------------------------------------------------------------
// S-expressions of a layout
// ---------------------------------------------------------------------------

/// Whether a layout's coordinates can be negated (none is `i64::MIN`).
pub open spec fn printable(m: LayoutModel) -> bool {
    &&& m.x1 > i64::MIN && m.y1 > i64::MIN && m.x2 > i64::MIN && m.y2 > i64::MIN
    &&& forall|k: int| 0 <= k < m.pins.len() ==> (#[trigger] m.pins[k]).x > i64::MIN && m.pins[k].y > i64::MIN
        && m.pins[k].length > i64::MIN
}

/// The `(rectangle …)` body of a layout.
pub open spec fn rect_t(m: LayoutModel) -> Tree {
    Tree::List(
        seq![
            Tree::Atom("rectangle"@),
            atom_triple_t("start"@, fmt_centi(m.x1), fmt_centi(m.y1)),
            atom_triple_t("end"@, fmt_centi(m.x2), fmt_centi(m.y2)),
            Tree::List(seq![Tree::Atom("stroke"@), atom_pair_t("width"@, "0.254"@), atom_pair_t("type"@, "default"@)]),
            Tree::List(seq![Tree::Atom("fill"@), atom_pair_t("type"@, "background"@)]),
        ],
    )
}

/// Build the body `(rectangle ...)` S-expression for a layout.
pub fn body_rect_sexpr(layout: &SymbolLayout) -> (r: Sexpr)
    requires
        printable(layout@),
    ensures
        r@ == rect_t(layout@),
{
    let x1 = format_hundredths(layout.x1);
    let y1 = format_hundredths(layout.y1);
    let x2 = format_hundredths(layout.x2);
    let y2 = format_hundredths(layout.y2);
    let mut stroke: Vec<Sexpr> = Vec::new();
    push_node(&mut stroke, atom_pair("width", "0.254"));
    push_node(&mut stroke, atom_pair("type", "default"));
    let stroke_node = tagged("stroke", stroke);
    let mut fill: Vec<Sexpr> = Vec::new();
    push_node(&mut fill, atom_pair("type", "background"));
    let fill_node = tagged("fill", fill);
    let mut v: Vec<Sexpr> = Vec::new();
    push_node(&mut v, atom_triple("start", x1.as_str(), y1.as_str()));
    push_node(&mut v, atom_triple("end", x2.as_str(), y2.as_str()));
    push_node(&mut v, stroke_node);
    push_node(&mut v, fill_node);
    let r = tagged("rectangle", v);
    assert(r@ =~= rect_t(layout@)) by {
        assert(seq![Tree::Atom("stroke"@)] + view_all(stroke@) =~= seq![
            Tree::Atom("stroke"@),
            atom_pair_t("width"@, "0.254"@),
            atom_pair_t("type"@, "default"@),
        ]);
        assert(seq![Tree::Atom("fill"@)] + view_all(fill@) =~= seq![
            Tree::Atom("fill"@),
            atom_pair_t("type"@, "background"@),
        ]);
        assert(seq![Tree::Atom("rectangle"@)] + view_all(v@) =~= rect_t(layout@)->List_0);
    }
    r
}

/// `(effects (font (size 1.27 1.27)))`.
pub open spec fn effects_t() -> Tree {
    Tree::List(seq![Tree::Atom("effects"@), font_t()])
}

fn effects_node() -> (r: Sexpr)
    ensures
        r@ == effects_t(),
{
    let mut v: Vec<Sexpr> = Vec::new();
    push_node(&mut v, font_node());
    let r = tagged("effects", v);
    assert(seq![Tree::Atom("effects"@)] + view_all(v@) =~= effects_t()->List_0);
    r
}

/// The `(pin …)` S-expression of a placed pin.
pub open spec fn pin_t(p: PinPlace) -> Tree {
    Tree::List(
        seq![
            Tree::Atom("pin"@),
            Tree::Atom(p.etype),
            Tree::Atom("line"@),
            Tree::List(
                seq![
                    Tree::Atom("at"@),
                    Tree::Atom(fmt_centi(p.x)),
                    Tree::Atom(fmt_centi(p.y)),
                    Tree::Atom(decimal(p.rotation as nat)),
                ],
            ),
            atom_pair_t("length"@, fmt_centi(p.length)),
            Tree::List(seq![Tree::Atom("name"@), str_t(p.name), effects_t()]),
            Tree::List(seq![Tree::Atom("number"@), str_t(p.number), effects_t()]),
        ],
    )
}

/// Build the `(pin ...)` S-expression for a placed pin.
pub fn placed_pin_sexpr(pin: &PlacedPin) -> (r: Sexpr)
    requires
        pin.x > i64::MIN,
        pin.y > i64::MIN,
        pin.length > i64::MIN,
    ensures
        r@ == pin_t(pin@),
{
    let xs = format_hundredths(pin.x);
    let ys = format_hundredths(pin.y);
    let rs = u64_to_string(pin.rotation as u64);
    let ls = format_hundredths(pin.length);
    let mut at: Vec<Sexpr> = Vec::new();
    push_node(&mut at, Sexpr::atom(xs.as_str()));
    push_node(&mut at, Sexpr::atom(ys.as_str()));
    push_node(&mut at, Sexpr::atom(rs.as_str()));
    let at_node = tagged("at", at);
    let mut name: Vec<Sexpr> = Vec::new();
    push_node(&mut name, Sexpr::str(pin.name.as_str()));
    push_node(&mut name, effects_node());
    let name_node = tagged("name", name);
    let mut number: Vec<Sexpr> = Vec::new();
    push_node(&mut number, Sexpr::str(pin.number.as_str()));
    push_node(&mut number, effects_node());
    let number_node = tagged("number", number);
    let mut v: Vec<Sexpr> = Vec::new();
    push_node(&mut v, Sexpr::atom(pin.etype));
    push_node(&mut v, Sexpr::atom("line"));
    push_node(&mut v, at_node);
    push_node(&mut v, atom_pair("length", ls.as_str()));
    push_node(&mut v, name_node);
    push_node(&mut v, number_node);
    let r = tagged("pin", v);
    assert(r@ =~= pin_t(pin@)) by {
        assert(seq![Tree::Atom("at"@)] + view_all(at@) =~= seq![
            Tree::Atom("at"@),
            Tree::Atom(fmt_centi(pin@.x)),
            Tree::Atom(fmt_centi(pin@.y)),
            Tree::Atom(decimal(pin@.rotation as nat)),
        ]);
        assert(seq![Tree::Atom("name"@)] + view_all(name@) =~= seq![
            Tree::Atom("name"@),
            str_t(pin@.name),
            effects_t(),
        ]);
        assert(seq![Tree::Atom("number"@)] + view_all(number@) =~= seq![
            Tree::Atom("number"@),
            str_t(pin@.number),
            effects_t(),
        ]);
        assert(seq![Tree::Atom("pin"@)] + view_all(v@) =~= pin_t(pin@)->List_0);
    }
    r
}

/// A laid-out symbol's coordinates are far from the `i64` limits.
pub proof fn lemma_layout_printable(pins: Seq<PinSpec>)
    requires
        pins.len() <= max_pins(),
    ensures
        printable(layout_spec(pins)),
        -1_000_000_000_000 < layout_spec(pins).y1 < 1_000_000_000_000,
        -1_000_000_000_000 < layout_spec(pins).y2 < 1_000_000_000_000,
        -1_000_000_000_000 < layout_spec(pins).x1 < 1_000_000_000_000,
{
    lemma_sides(pins);
    let m = layout_spec(pins);
    assert(0 <= side_span(pins) <= max_pins());
    assert(0 <= edge_span(pins) <= max_pins());
    assert(2 <= half_width(pins) <= max_pins() + 2);
    assert(1 <= half_height(pins) <= max_pins() + 2);
    assert forall|k: int| 0 <= k < m.pins.len() implies (#[trigger] m.pins[k]).x > i64::MIN && m.pins[k].y
        > i64::MIN && m.pins[k].length > i64::MIN by {
        lemma_grid_bounds(pins, k);
        assert(m.pins[k] == place(pins, k));
    }
}


/// Whether a pin's name marks an exposed or thermal pad or a mechanical
/// feature: in upper case it begins with `EXP`, `EP`, `PAD` or `MECH`.
pub open spec fn pad_or_mech_name(name: Seq<char>) -> bool {
    let u = uppercase(name);
    ||| has_prefix(u, "EXP"@)
    ||| has_prefix(u, "EP"@)
    ||| has_prefix(u, "PAD"@)
    ||| has_prefix(u, "MECH"@)
}

/// Exposed and thermal pads, mechanical pins and ground pins go on the
/// bottom edge: each such pin is placed below the body, pointing up
/// (rotation 90), whatever its role.
pub proof fn law_layout_pads_and_grounds_at_bottom(pins: Seq<PinSpec>)
    requires
        pins.len() <= usize::MAX,
    ensures
        forall|k: int|
            0 <= k < layout_spec(pins).pins.len() && (pad_or_mech_name(pins[source_of(pins, k)].name)
                || pins[source_of(pins, k)].role == Role::Gnd) ==> {
                let p = #[trigger] layout_spec(pins).pins[k];
                p.rotation == 90 && p.y < layout_spec(pins).y2
            },
{
    lemma_slots(pins);
    let m = layout_spec(pins);
    assert forall|k: int|
        0 <= k < m.pins.len() && (pad_or_mech_name(pins[source_of(pins, k)].name)
            || pins[source_of(pins, k)].role == Role::Gnd) implies {
        let p = #[trigger] m.pins[k];
        p.rotation == 90 && p.y < m.y2
    } by {
        lemma_slot_pos(pins, k);
        let (sl, a) = slot_pos(pins, k);
        assert(slot_of(pins[in_slot(pins, sl)[a] as int], converter(pins)) == sl);
        assert(slot_of(pins[source_of(pins, k)], converter(pins)) == Slot::Bottom);
        assert(sl == Slot::Bottom);
        assert(m.pins[k] == place(pins, k));
        assert(half_height(pins) >= 1) by {
            assert(side_span(pins) >= 0);
        }
    }
}

} // verus!
