//! Shared helpers for the KiCad backend emitters.

use vstd::prelude::*;
use vstd::string::StrSliceExecFns;

use crate::kicad::board::{CompiledBoard, CompiledComponent, Role};
use crate::kicad::sexpr::{atom_pair, atom_pair_t, push_node, str_t, tagged, view_all, Sexpr};
use crate::kicad::sym_layout::{
    body_rect_sexpr, pin_t, placed_pin_sexpr, printable, rect_t, LayoutModel, PinPlace, SymbolLayout,
};
use crate::text::{
    alphabetic, char_is_alphabetic, has_prefix, chars_of, decimal, digit_char, digit_of, find_char, index_of,
    last_index_of, lemma_index_of, lemma_last_index_of, push_char, push_str, rfind_char, string_of,
    string_of_range,
    u64_to_string,
};
use crate::tree::Tree;

verus! {

broadcast use vstd::string::group_string_axioms;

/// Nickname of the project-local library written into `symbols/`/`footprints/`.
pub const PROJECT_LIB: &'static str = "copperleaf";

pub open spec fn project_lib() -> Seq<char> {
    seq!['c', 'o', 'p', 'p', 'e', 'r', 'l', 'e', 'a', 'f']
}

/// `copperleaf:<name>`.
pub open spec fn project_ref(name: Seq<char>) -> Seq<char> {
    project_lib() + seq![':'] + name
}

fn push_project_ref(out: &mut String, name: &str)
    ensures
        final(out)@ == old(out)@ + project_ref(name@),
{
    proof {
        reveal_strlit("copperleaf");
    }
    push_str(out, PROJECT_LIB);
    push_char(out, ':');
    push_str(out, name);
    assert(final(out)@ =~= old(out)@ + project_ref(name@)) by {
        assert(PROJECT_LIB@ =~= project_lib());
    }
}

/// Build deterministic 1-based net codes from a compiled board: each net's
/// name with its position in `board.nets` plus one.
pub fn build_net_codes(board: &CompiledBoard) -> (r: Vec<(String, usize)>)
    ensures
        r@.len() == board.nets@.len(),
        forall|i: int| 0 <= i < r@.len() ==> (#[trigger] r@[i]).0@ == board.nets@[i].name@ && r@[i].1 == i + 1,
{
    let mut out: Vec<(String, usize)> = Vec::new();
    let mut i: usize = 0;
    while i < board.nets.len()
        invariant
            i <= board.nets@.len(),
            out@.len() == i,
            forall|k: int| 0 <= k < i ==> (#[trigger] out@[k]).0@ == board.nets@[k].name@ && out@[k].1 == k + 1,
        decreases board.nets@.len() - i,
    {
        out.push((board.nets[i].name.clone(), i + 1));
        i = i + 1;
    }
    out
}

/// What [`footprint_ref`] returns.
pub open spec fn footprint_ref_spec(comp: CompiledComponent) -> Seq<char> {
    match comp.meta.footprint {
        Some(s) => s@,
        None => project_ref(comp.refdes@),
    }
}

/// Full `lib:footprint` reference used in symbol properties and the PCB.
pub fn footprint_ref(comp: &CompiledComponent) -> (r: String)
    ensures
        r@ == footprint_ref_spec(*comp),
{
    match &comp.meta.footprint {
        Some(s) => s.clone(),
        None => {
            let mut out = String::new();
            push_project_ref(&mut out, comp.refdes.as_str());
            out
        },
    }
}

/// What [`local_footprint_name`] returns.
pub open spec fn local_footprint_name_spec(comp: CompiledComponent) -> Option<Seq<char>> {
    match comp.meta.footprint {
        Some(s) => if index_of(s@, ':') is Some {
            None
        } else {
            Some(s@)
        },
        None => Some(comp.refdes@),
    }
}

/// The component's footprint name when it refers to a project-local
/// footprint (`None` for external `lib:name` references).
pub fn local_footprint_name(comp: &CompiledComponent) -> (r: Option<String>)
    ensures
        match local_footprint_name_spec(*comp) {
            Some(n) => r matches Some(s) && s@ == n,
            None => r is None,
        },
{
    match &comp.meta.footprint {
        Some(s) => {
            let cs = chars_of(s.as_str());
            if find_char(&cs, ':').is_some() {
                None
            } else {
                Some(s.clone())
            }
        },
        None => Some(comp.refdes.clone()),
    }
}

/// Length of the run of alphabetic characters that starts `s`.
pub open spec fn alpha_run(s: Seq<char>) -> nat
    decreases s.len(),
{
    if s.len() == 0 || !alphabetic(s[0]) {
        0
    } else {
        1 + alpha_run(s.skip(1))
    }
}

/// What [`refdes_prefix`] returns: the leading alphabetic characters, or
/// `?` when there are none.
pub open spec fn refdes_prefix_spec(refdes: Seq<char>) -> Seq<char> {
    if alpha_run(refdes) == 0 {
        seq!['?']
    } else {
        refdes.take(alpha_run(refdes) as int)
    }
}

proof fn lemma_alpha_run(s: Seq<char>)
    ensures
        alpha_run(s) <= s.len(),
        forall|k: int| 0 <= k < alpha_run(s) ==> alphabetic(#[trigger] s[k]),
        alpha_run(s) < s.len() ==> !alphabetic(s[alpha_run(s) as int]),
    decreases s.len(),
{
    if s.len() > 0 && alphabetic(s[0]) {
        lemma_alpha_run(s.skip(1));
        assert forall|k: int| 0 <= k < alpha_run(s) implies alphabetic(#[trigger] s[k]) by {
            if k > 0 {
                assert(s[k] == s.skip(1)[k - 1]);
            }
        }
    }
}

/// Number of leading alphabetic characters of `cs`.
pub fn alpha_prefix_len(cs: &[char]) -> (n: usize)
    ensures
        n == alpha_run(cs@),
{
    let mut i: usize = 0;
    assert(cs@.skip(0) =~= cs@);
    while i < cs.len()
        invariant
            i <= cs@.len(),
            alpha_run(cs@) == i + alpha_run(cs@.skip(i as int)),
        decreases cs@.len() - i,
    {
        if !char_is_alphabetic(cs[i]) {
            return i;
        }
        assert(cs@.skip(i as int).skip(1) =~= cs@.skip(i + 1));
        i = i + 1;
    }
    i
}

/// Extract refdes prefix (e.g. `U1` -> `U`).
pub fn refdes_prefix(refdes: &str) -> (r: String)
    ensures
        r@ == refdes_prefix_spec(refdes@),
{
    let cs = chars_of(refdes);
    let n = alpha_prefix_len(&cs);
    if n == 0 {
        let mut out = String::new();
        push_char(&mut out, '?');
        assert(out@ =~= seq!['?']);
        out
    } else {
        proof {
            lemma_alpha_run(cs@);
        }
        string_of_range(&cs, 0, n)
    }
}

/// The KiCad pin type of a role.
pub open spec fn pin_type_spec(role: Role) -> Seq<char> {
    match role {
        Role::PowerIn | Role::Gnd => "power_in"@,
        Role::PowerOut => "power_out"@,
        Role::AnalogIn => "input"@,
        Role::AnalogOut => "output"@,
        Role::DigitalIO | Role::DiffPos | Role::DiffNeg => "bidirectional"@,
        Role::Passive => "passive"@,
    }
}

/// Map a Copperleaf pin role to a KiCad pin type string.
pub fn role_to_pin_type(role: Role) -> (r: &'static str)
    ensures
        r@ == pin_type_spec(role),
{
    match role {
        Role::PowerIn | Role::Gnd => "power_in",
        Role::PowerOut => "power_out",
        Role::AnalogIn => "input",
        Role::AnalogOut => "output",
        Role::DigitalIO | Role::DiffPos | Role::DiffNeg => "bidirectional",
        Role::Passive => "passive",
    }
}

/// What [`symbol_lib_id`] returns.
pub open spec fn symbol_lib_id_spec(comp: CompiledComponent) -> Seq<char> {
    match comp.meta.symbol {
        Some(s) => if index_of(s@, ':') is Some {
            s@
        } else {
            project_ref(s@)
        },
        None => project_ref(comp.refdes@),
    }
}

/// Full `lib:symbol` identifier used by schematic instances.
pub fn symbol_lib_id(comp: &CompiledComponent) -> (r: String)
    ensures
        r@ == symbol_lib_id_spec(*comp),
{
    match &comp.meta.symbol {
        Some(s) => {
            let cs = chars_of(s.as_str());
            if find_char(&cs, ':').is_some() {
                s.clone()
            } else {
                let mut out = String::new();
                push_project_ref(&mut out, s.as_str());
                out
            }
        },
        None => {
            let mut out = String::new();
            push_project_ref(&mut out, comp.refdes.as_str());
            out
        },
    }
}

/// What [`symbol_lib_nick`] returns: the part of the symbol before its first
/// `:`, or the project library.
pub open spec fn symbol_lib_nick_spec(comp: CompiledComponent) -> Seq<char> {
    match comp.meta.symbol {
        Some(s) => match index_of(s@, ':') {
            Some(i) => s@.take(i as int),
            None => project_lib(),
        },
        None => project_lib(),
    }
}

/// Symbol library nickname for a component: the prefix of `symbol()` when it
/// contains a `':'`, otherwise the project-local library.
pub fn symbol_lib_nick(comp: &CompiledComponent) -> (r: String)
    ensures
        r@ == symbol_lib_nick_spec(*comp),
{
    proof {
        reveal_strlit("copperleaf");
    }
    match &comp.meta.symbol {
        Some(s) => {
            let cs = chars_of(s.as_str());
            match find_char(&cs, ':') {
                Some(i) => {
                    proof {
                        lemma_index_of(cs@, ':');
                    }
                    string_of_range(&cs, 0, i)
                },
                None => {
                    let r = PROJECT_LIB.to_owned();
                    assert(r@ =~= project_lib());
                    r
                },
            }
        },
        None => {
            let r = PROJECT_LIB.to_owned();
            assert(r@ =~= project_lib());
            r
        },
    }
}

/// What [`symbol_name`] returns: the part of the symbol after its first `:`
/// (the whole symbol when there is none), or the refdes.
pub open spec fn symbol_name_spec(comp: CompiledComponent) -> Seq<char> {
    match comp.meta.symbol {
        Some(s) => match index_of(s@, ':') {
            Some(i) => s@.skip(i + 1 as int),
            None => s@,
        },
        None => comp.refdes@,
    }
}

/// Symbol name (without library prefix) for a component.
pub fn symbol_name(comp: &CompiledComponent) -> (r: &str)
    ensures
        r@ == symbol_name_spec(*comp),
{
    match &comp.meta.symbol {
        Some(s) => {
            let cs = chars_of(s.as_str());
            match find_char(&cs, ':') {
                Some(i) => {
                    proof {
                        lemma_index_of(cs@, ':');
                    }
                    let n = cs.len();
                    let t = s.as_str().substring_char(i + 1, n);
                    assert(t@ =~= s@.skip(i + 1));
                    t
                },
                None => s.as_str(),
            }
        },
        None => comp.refdes.as_str(),
    }
}

/// How a length given in hundredths of a millimetre prints in millimetres:
/// a `-` for negative values, the whole millimetres, and the fraction with
/// trailing zeros (and a bare `.`) dropped, as `format_float(v, 2)` prints
/// `v / 100`.
pub open spec fn fmt_centi(v: int) -> Seq<char> {
    let a: int = if v < 0 {
        -v
    } else {
        v
    };
    let f: int = a % 100;
    let whole = decimal((a / 100) as nat);
    let body = if f == 0 {
        whole
    } else if f % 10 == 0 {
        whole + seq!['.', digit_char((f / 10) as nat)]
    } else {
        whole + seq!['.', digit_char((f / 10) as nat), digit_char((f % 10) as nat)]
    };
    if v < 0 {
        seq!['-'] + body
    } else {
        body
    }
}

/// Formats a length in hundredths of a millimetre as millimetres (see
/// [`fmt_centi`]).
pub fn format_hundredths(v: i64) -> (r: String)
    requires
        v > i64::MIN,
    ensures
        r@ == fmt_centi(v as int),
{
    let a: u64 = if v < 0 {
        (-v) as u64
    } else {
        v as u64
    };
    let mut out = String::new();
    if v < 0 {
        push_char(&mut out, '-');
    }
    let w = u64_to_string(a / 100);
    push_str(&mut out, w.as_str());
    let f = a % 100;
    if f != 0 {
        push_char(&mut out, '.');
        push_char(&mut out, digit_of(f / 10));
        if f % 10 != 0 {
            push_char(&mut out, digit_of(f % 10));
        }
    }
    assert(out@ =~= fmt_centi(v as int));
    out
}

/// `(font (size 1.27 1.27))`.
pub open spec fn font_t() -> Tree {
    Tree::List(
        seq![
            Tree::Atom("font"@),
            Tree::List(seq![Tree::Atom("size"@), Tree::Atom("1.27"@), Tree::Atom("1.27"@)]),
        ],
    )
}

/// `(font (size 1.27 1.27))`.
pub fn font_node() -> (r: Sexpr)
    ensures
        r@ == font_t(),
{
    let mut size: Vec<Sexpr> = Vec::new();
    push_node(&mut size, Sexpr::atom("1.27"));
    push_node(&mut size, Sexpr::atom("1.27"));
    let size_node = tagged("size", size);
    let mut v: Vec<Sexpr> = Vec::new();
    push_node(&mut v, size_node);
    let r = tagged("font", v);
    assert(r@ =~= font_t()) by {
        assert(seq![Tree::Atom("size"@)] + view_all(size@) =~= seq![
            Tree::Atom("size"@),
            Tree::Atom("1.27"@),
            Tree::Atom("1.27"@),
        ]);
        assert(seq![Tree::Atom("font"@)] + view_all(v@) =~= font_t()->List_0);
    }
    r
}

/// A `(property …)` node: key, value, position `(x, y)` in hundredths of a
/// millimetre, `(hide yes)` when hidden, and effects with the 1.27 mm font,
/// left-justified when asked.
pub open spec fn property_t(key: Seq<char>, value: Seq<char>, x: int, y: int, hide: bool, justify_left: bool) -> Tree {
    Tree::List(
        seq![
            Tree::Atom("property"@),
            str_t(key),
            str_t(value),
            Tree::List(seq![Tree::Atom("at"@), Tree::Atom(fmt_centi(x)), Tree::Atom(fmt_centi(y)), Tree::Atom("0"@)]),
        ] + (if hide {
            seq![Tree::List(seq![Tree::Atom("hide"@), Tree::Atom("yes"@)])]
        } else {
            Seq::empty()
        }) + seq![
            Tree::List(
                seq![Tree::Atom("effects"@), font_t()] + (if justify_left {
                    seq![Tree::List(seq![Tree::Atom("justify"@), Tree::Atom("left"@)])]
                } else {
                    Seq::empty()
                }),
            ),
        ],
    )
}

/// Build a `(property …)` node for schematic and symbol-library contexts
/// (see [`property_t`]); `pos` is in hundredths of a millimetre.
///
/// Emitted properties always use 1.27 mm font size.  Pass `justify_left: true`
/// when the property appears at a non-zero position so KiCad left-aligns the
/// text; pass `false` for properties at the origin (hidden metadata).
pub fn property_sym_node(key: &str, value: &str, pos: (i64, i64), hide: bool, justify_left: bool) -> (r: Sexpr)
    requires
        pos.0 > i64::MIN,
        pos.1 > i64::MIN,
    ensures
        r@ == property_t(key@, value@, pos.0 as int, pos.1 as int, hide, justify_left),
{
    let mut effects: Vec<Sexpr> = Vec::new();
    push_node(&mut effects, font_node());
    if justify_left {
        let mut j: Vec<Sexpr> = Vec::new();
        push_node(&mut j, Sexpr::atom("left"));
        let jn = tagged("justify", j);
        assert(seq![Tree::Atom("justify"@)] + view_all(j@) =~= seq![Tree::Atom("justify"@), Tree::Atom("left"@)]);
        push_node(&mut effects, jn);
    }
    let effects_node = tagged("effects", effects);
    let mut at: Vec<Sexpr> = Vec::new();
    let xs = format_hundredths(pos.0);
    let ys = format_hundredths(pos.1);
    push_node(&mut at, Sexpr::atom(xs.as_str()));
    push_node(&mut at, Sexpr::atom(ys.as_str()));
    push_node(&mut at, Sexpr::atom("0"));
    let at_node = tagged("at", at);
    let mut children: Vec<Sexpr> = Vec::new();
    push_node(&mut children, Sexpr::str(key));
    push_node(&mut children, Sexpr::str(value));
    push_node(&mut children, at_node);
    if hide {
        let mut h: Vec<Sexpr> = Vec::new();
        push_node(&mut h, Sexpr::atom("yes"));
        let hn = tagged("hide", h);
        assert(seq![Tree::Atom("hide"@)] + view_all(h@) =~= seq![Tree::Atom("hide"@), Tree::Atom("yes"@)]);
        push_node(&mut children, hn);
    }
    push_node(&mut children, effects_node);
    let r = tagged("property", children);
    assert(r@ =~= property_t(key@, value@, pos.0 as int, pos.1 as int, hide, justify_left)) by {
        assert(effects_node@->List_0 =~= property_t(key@, value@, pos.0 as int, pos.1 as int, hide, justify_left)->List_0.last()->List_0);
        assert(seq![Tree::Atom("at"@)] + view_all(at@) =~= seq![Tree::Atom("at"@), Tree::Atom(fmt_centi(pos.0 as int)), Tree::Atom(fmt_centi(pos.1 as int)), Tree::Atom("0"@)]);
        assert(seq![Tree::Atom("property"@)] + view_all(children@) =~= property_t(key@, value@, pos.0 as int, pos.1 as int, hide, justify_left)->List_0);
    }
    r
}

/// A symbol name without its library prefix (the part after the last `:`).
pub open spec fn bare_name(name: Seq<char>) -> Seq<char> {
    match last_index_of(name, ':') {
        Some(i) => name.skip(i + 1 as int),
        None => name,
    }
}

/// The unit sub-symbol `<bare name>_0_1`: the body, then the pins.
pub open spec fn unit_t(name: Seq<char>, m: LayoutModel) -> Tree {
    Tree::List(
        seq![Tree::Atom("symbol"@), str_t(bare_name(name) + "_0_1"@), rect_t(m)] + m.pins.map_values(
            |p: PinPlace| pin_t(p),
        ),
    )
}

fn unit_node(name: &str, layout: &SymbolLayout) -> (r: Sexpr)
    requires
        printable(layout@),
    ensures
        r@ == unit_t(name@, layout@),
{
    let cs = chars_of(name);
    let n = cs.len();
    let mut unit_name = match rfind_char(&cs, ':') {
        Some(i) => {
            proof {
                lemma_last_index_of(cs@, ':');
            }
            string_of_range(&cs, i + 1, n)
        },
        None => string_of_range(&cs, 0, n),
    };
    assert(cs@.subrange(0, n as int) =~= cs@);
    assert(unit_name@ =~= bare_name(name@));
    push_str(&mut unit_name, "_0_1");
    let mut v: Vec<Sexpr> = Vec::new();
    push_node(&mut v, Sexpr::str(unit_name.as_str()));
    push_node(&mut v, body_rect_sexpr(layout));
    let ghost m = layout@;
    let ghost pts = m.pins.map_values(|p: PinPlace| pin_t(p));
    let mut k: usize = 0;
    while k < layout.pins.len()
        invariant
            printable(layout@),
            m == layout@,
            pts == m.pins.map_values(|p: PinPlace| pin_t(p)),
            k <= layout.pins@.len(),
            view_all(v@) == seq![str_t(bare_name(name@) + "_0_1"@), rect_t(m)] + pts.take(k as int),
        decreases layout.pins@.len() - k,
    {
        assert(m.pins[k as int] == layout.pins@[k as int]@);
        let pn = placed_pin_sexpr(&layout.pins[k]);
        push_node(&mut v, pn);
        k = k + 1;
        assert(view_all(v@) =~= seq![str_t(bare_name(name@) + "_0_1"@), rect_t(m)] + pts.take(k as int));
    }
    assert(pts.take(k as int) =~= pts);
    let r = tagged("symbol", v);
    assert(seq![Tree::Atom("symbol"@)] + view_all(v@) =~= unit_t(name@, m)->List_0);
    r
}

/// Properties passed to [`build_symbol_sexpr`].
pub struct SymbolProps<'a> {
    /// Library identifier (e.g. `"copperleaf:RP2354A"`).
    pub lib_id: &'a str,
    /// KiCad `Reference` property value.
    pub reference: &'a str,
    /// KiCad `Value` property value.
    pub value: &'a str,
    /// KiCad `Footprint` property value.
    pub footprint: &'a str,
    /// Datasheet URL (or `"~"`).
    pub datasheet: &'a str,
    /// Human-readable description.
    pub description: &'a str,
    /// Optional `ki_fp_filters` value.
    pub fp_filter: Option<&'a str>,
}

/// Symbol properties as a mathematical value.
pub struct PropsView {
    pub lib_id: Seq<char>,
    pub reference: Seq<char>,
    pub value: Seq<char>,
    pub footprint: Seq<char>,
    pub datasheet: Seq<char>,
    pub description: Seq<char>,
    pub fp_filter: Option<Seq<char>>,
}

impl<'a> View for SymbolProps<'a> {
    type V = PropsView;

    open spec fn view(&self) -> PropsView {
        PropsView {
            lib_id: self.lib_id@,
            reference: self.reference@,
            value: self.value@,
            footprint: self.footprint@,
            datasheet: self.datasheet@,
            description: self.description@,
            fp_filter: match self.fp_filter {
                Some(f) => Some(f@),
                None => None,
            },
        }
    }
}

/// Whether a layout can be printed with its properties placed 1.27 mm above
/// and below the body.
pub open spec fn symbol_printable(m: LayoutModel) -> bool {
    printable(m) && m.y1 + 127 <= i64::MAX && m.y2 - 127 > i64::MIN
}

/// The properties of a symbol before its footprint filter.
pub open spec fn symbol_head_t(p: PropsView, m: LayoutModel) -> Seq<Tree> {
    seq![
        Tree::Atom("symbol"@),
        str_t(p.lib_id),
        atom_pair_t("exclude_from_sim"@, "no"@),
        atom_pair_t("in_bom"@, "yes"@),
        atom_pair_t("on_board"@, "yes"@),
        property_t("Reference"@, p.reference, m.x1, m.y1 + 127, false, true),
        property_t("Value"@, p.value, m.x1, m.y2 - 127, false, true),
        property_t("Footprint"@, p.footprint, 0, 0, true, false),
        property_t("Datasheet"@, p.datasheet, 0, 0, true, false),
        property_t("Description"@, p.description, 0, 0, true, false),
        property_t("ki_keywords"@, "copperleaf"@, 0, 0, true, false),
    ]
}

/// The complete `(symbol …)` of a symbol definition: its identifier, the
/// flags, the properties (reference above the body's left corner, value
/// below it, the rest hidden at the origin, the footprint filter only when
/// there is one) and the unit sub-symbol with body and pins.
pub open spec fn symbol_t(p: PropsView, m: LayoutModel) -> Tree {
    Tree::List(
        symbol_head_t(p, m) + match p.fp_filter {
            Some(f) => seq![property_t("ki_fp_filters"@, f, 0, 0, true, false)],
            None => Seq::empty(),
        } + seq![unit_t(p.lib_id, m)],
    )
}

/// Build the complete `(symbol …)` S-expression for a symbol definition
/// (see [`symbol_t`]).
///
/// This is the single source of truth for symbol emission: the library
/// emitter calls it with the component's property values.
pub fn build_symbol_sexpr(props: &SymbolProps, layout: &SymbolLayout) -> (r: Sexpr)
    requires
        symbol_printable(layout@),
    ensures
        r@ == symbol_t(props@, layout@),
{
    let mut v: Vec<Sexpr> = Vec::new();
    push_node(&mut v, Sexpr::str(props.lib_id));
    push_node(&mut v, atom_pair("exclude_from_sim", "no"));
    push_node(&mut v, atom_pair("in_bom", "yes"));
    push_node(&mut v, atom_pair("on_board", "yes"));
    push_node(&mut v, property_sym_node("Reference", props.reference, (layout.x1, layout.y1 + 127), false, true));
    push_node(&mut v, property_sym_node("Value", props.value, (layout.x1, layout.y2 - 127), false, true));
    push_node(&mut v, property_sym_node("Footprint", props.footprint, (0, 0), true, false));
    push_node(&mut v, property_sym_node("Datasheet", props.datasheet, (0, 0), true, false));
    push_node(&mut v, property_sym_node("Description", props.description, (0, 0), true, false));
    push_node(&mut v, property_sym_node("ki_keywords", "copperleaf", (0, 0), true, false));
    let ghost head = view_all(v@);
    assert(seq![Tree::Atom("symbol"@)] + head =~= symbol_head_t(props@, layout@));
    if let Some(filter) = props.fp_filter {
        push_node(&mut v, property_sym_node("ki_fp_filters", filter, (0, 0), true, false));
    }
    push_node(&mut v, unit_node(props.lib_id, layout));
    let r = tagged("symbol", v);
    assert(seq![Tree::Atom("symbol"@)] + view_all(v@) =~= symbol_t(props@, layout@)->List_0);
    r
}


/// The reference prefix of a designator is its whole leading run of
/// letters: when the designator starts with a letter, the prefix is a
/// non-empty beginning of it, every character of it is a letter, and the
/// designator's next character, if any, is not; otherwise it is `?`.
pub proof fn law_refdes_prefix_is_leading_letters(refdes: Seq<char>)
    ensures
        refdes.len() > 0 && alphabetic(refdes[0]) ==> {
            let r = refdes_prefix_spec(refdes);
            &&& 0 < r.len() <= refdes.len()
            &&& refdes.take(r.len() as int) == r
            &&& forall|k: int| 0 <= k < r.len() ==> alphabetic(#[trigger] r[k])
            &&& r.len() < refdes.len() ==> !alphabetic(refdes[r.len() as int])
        },
        !(refdes.len() > 0 && alphabetic(refdes[0])) ==> refdes_prefix_spec(refdes) == seq!['?'],
{
    lemma_alpha_run(refdes);
    let n = alpha_run(refdes);
    if refdes.len() > 0 && alphabetic(refdes[0]) {
        assert(n >= 1);
        let r = refdes_prefix_spec(refdes);
        assert(r == refdes.take(n as int));
        assert forall|k: int| 0 <= k < r.len() implies alphabetic(#[trigger] r[k]) by {
            assert(r[k] == refdes[k]);
        }
    }
}

/// Whether a role drives its net (a power or analog output).
pub open spec fn drives(role: Role) -> bool {
    role == Role::PowerOut || role == Role::AnalogOut
}

/// Whether a role only receives from its net (a power, ground or analog
/// input).
pub open spec fn receives(role: Role) -> bool {
    role == Role::PowerIn || role == Role::Gnd || role == Role::AnalogIn
}

/// Whether a role carries power (a power input or output, or ground).
pub open spec fn carries_power(role: Role) -> bool {
    role == Role::PowerIn || role == Role::PowerOut || role == Role::Gnd
}

/// A pin's KiCad type keeps its direction and its power: a driving role is
/// an output (`output`, or `power_out` for power), a receiving role an
/// input (`input`, or `power_in` for power and ground), a role that both
/// drives and receives (digital I/O and differential pairs) is
/// `bidirectional`, a passive role `passive`; and the type is a power type
/// (`power_…`) exactly when the role carries power.
pub proof fn law_pin_type_direction(role: Role)
    ensures
        drives(role) ==> pin_type_spec(role) == (if carries_power(role) {
            "power_out"@
        } else {
            "output"@
        }),
        receives(role) ==> pin_type_spec(role) == (if carries_power(role) {
            "power_in"@
        } else {
            "input"@
        }),
        role == Role::DigitalIO || role == Role::DiffPos || role == Role::DiffNeg ==> pin_type_spec(role)
            == "bidirectional"@,
        role == Role::Passive ==> pin_type_spec(role) == "passive"@,
        carries_power(role) <==> has_prefix(pin_type_spec(role), "power_"@),
{
    reveal_strlit("power_out");
    reveal_strlit("power_in");
    reveal_strlit("output");
    reveal_strlit("input");
    reveal_strlit("bidirectional");
    reveal_strlit("passive");
    reveal_strlit("power_");
    let t = pin_type_spec(role);
    if carries_power(role) {
        assert(t.take(6) =~= "power_"@);
    } else {
        if t.len() >= 6 {
            assert(t.take(6)[0] != 'p' || t.take(6)[1] != 'o');
            assert("power_"@[0] == 'p' && "power_"@[1] == 'o');
            assert(t.take(6) != "power_"@);
        }
    }
}

} // verus!
