//! The design model the KiCad 6 emitters read: component instances with
//! their pins, nets, and connections of pins (by refdes and pin name) to
//! nets (by name).

use vstd::prelude::*;

verus! {

/// Electrical role of a pin.
#[derive(Clone, Copy, Debug, PartialEq, Eq, Structural)]
pub enum Role {
    PowerIn,
    PowerOut,
    Gnd,
    AnalogIn,
    AnalogOut,
    DigitalIO,
    DiffPos,
    DiffNeg,
}

/// A pin of a component instance.
#[derive(Clone, Debug)]
pub struct Pin {
    pub name: String,
    pub role: Role,
}

/// A component instance.
#[derive(Clone, Debug)]
pub struct ComponentInst {
    pub refdes: String,
    pub pins: Vec<Pin>,
}

/// A net.
#[derive(Clone, Debug)]
pub struct Net {
    pub name: String,
}

/// A pin (by component refdes and pin name) connected to a net (by name).
#[derive(Clone, Debug)]
pub struct Connection {
    pub refdes: String,
    pub pin: String,
    pub net: String,
}

/// A design.
#[derive(Clone, Debug)]
pub struct Design {
    pub nets: Vec<Net>,
    pub components: Vec<ComponentInst>,
    pub connections: Vec<Connection>,
}

impl Design {
    /// An empty design.
    pub fn new() -> (r: Design)
        ensures
            r.nets@.len() == 0,
            r.components@.len() == 0,
            r.connections@.len() == 0,
    {
        Design { nets: Vec::new(), components: Vec::new(), connections: Vec::new() }
    }

    /// Adds a net.
    pub fn add_net(&mut self, net: Net)
        ensures
            final(self).nets@ == old(self).nets@.push(net),
            final(self).components@ == old(self).components@,
            final(self).connections@ == old(self).connections@,
    {
        self.nets.push(net);
    }

    /// Adds a component instance.
    pub fn add_component(&mut self, comp: ComponentInst)
        ensures
            final(self).components@ == old(self).components@.push(comp),
            final(self).nets@ == old(self).nets@,
            final(self).connections@ == old(self).connections@,
    {
        self.components.push(comp);
    }

    /// Connects pin `pin` of component `refdes` to net `net`.
    pub fn connect(&mut self, refdes: &str, pin: &str, net: &str)
        ensures
            final(self).connections@.len() == old(self).connections@.len() + 1,
            forall|i: int| 0 <= i < old(self).connections@.len() ==> #[trigger] final(self).connections@[i] == old(self).connections@[i],
            final(self).connections@.last().refdes@ == refdes@,
            final(self).connections@.last().pin@ == pin@,
            final(self).connections@.last().net@ == net@,
            final(self).nets@ == old(self).nets@,
            final(self).components@ == old(self).components@,
    {
        self.connections.push(Connection { refdes: refdes.to_string(), pin: pin.to_string(), net: net.to_string() });
    }
}

} // verus!
