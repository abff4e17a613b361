//! The compiled-board data the KiCad emitters read: components with their
//! pins and library references, nets, and pin-to-net connections.

use vstd::prelude::*;

verus! {

/// Electrical role of a pin.
#[derive(Clone, Copy, Debug, PartialEq, Eq, Structural)]
pub enum Role {
    PowerIn,
    PowerOut,
    Gnd,
    AnalogIn,
    AnalogOut,
    DigitalIO,
    DiffPos,
    DiffNeg,
    Passive,
}

/// A component pin: its name, optional pad number and role, and whether
/// it carries a signal specification.
#[derive(Clone, Debug)]
pub struct Pin {
    pub name: String,
    pub number: Option<String>,
    pub role: Role,
    pub has_sig_spec: bool,
}

/// Library references and documentation of a component.
#[derive(Clone, Debug)]
pub struct ComponentMeta {
    /// KiCad symbol (`lib:name` or a project-local name).
    pub symbol: Option<String>,
    /// KiCad footprint (`lib:name` or a project-local name).
    pub footprint: Option<String>,
    pub datasheet: Option<String>,
    pub description: Option<String>,
    /// Path of the 3D model file.
    pub model_3d: Option<String>,
    /// Base64 contents of the 3D model, when embedded.
    pub model_3d_data: Option<String>,
}

/// A design rule attached to a component.
#[derive(Clone, Debug)]
pub enum Constraint {
    /// Decoupling capacitors of the given values (farads, as `f64` bits) on
    /// the first power input pin, or on every one when `per_pin`.
    Decoupling { values: Vec<u64>, per_pin: bool },
}

/// A placed component of a compiled board.
#[derive(Clone, Debug)]
pub struct CompiledComponent {
    pub refdes: String,
    pub meta: ComponentMeta,
    pub pins: Vec<Pin>,
    pub constraints: Vec<Constraint>,
}

/// A net of a compiled board.
#[derive(Clone, Debug)]
pub struct Net {
    pub name: String,
}

/// A pin of a component (by index) attached to a net (by name).
#[derive(Clone, Debug)]
pub struct Connection {
    pub component: usize,
    pub pin: String,
    pub net: String,
}

/// A compiled board.
#[derive(Clone, Debug)]
pub struct CompiledBoard {
    pub components: Vec<CompiledComponent>,
    pub nets: Vec<Net>,
    pub connections: Vec<Connection>,
}

} // verus!
