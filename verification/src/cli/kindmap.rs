//! Built-in and user-provided mapping from KiCad pin types to Copperleaf
//! pin kinds.
//!
//! Electrical values are held as IEEE 754 bit patterns (`f64::to_bits`), so
//! a value read from a kind-map file is carried through unchanged.

use vstd::prelude::*;

use crate::text::str_eq;

verus! {

broadcast use vstd::string::group_string_axioms;

/// A kind mapping entry, mirroring the optional fields on a manifest pin
/// that a mapping can set.
#[derive(Debug)]
pub struct KindEntry {
    pub kind: String,
    /// Bandwidth in MHz, as `f64` bits.
    pub bw_mhz: Option<u64>,
    /// Voltage, as `f64` bits.
    pub v: Option<u64>,
    pub v_min: Option<u64>,
    pub v_max: Option<u64>,
    /// Current, as `f64` bits.
    pub i: Option<u64>,
    pub i_max: Option<u64>,
    /// Whether the pin must not be connected.
    pub nc: Option<bool>,
}

/// A kind entry as a mathematical value.
pub struct KindView {
    pub kind: Seq<char>,
    pub bw_mhz: Option<u64>,
    pub v: Option<u64>,
    pub v_min: Option<u64>,
    pub v_max: Option<u64>,
    pub i: Option<u64>,
    pub i_max: Option<u64>,
    pub nc: Option<bool>,
}

impl View for KindEntry {
    type V = KindView;

    open spec fn view(&self) -> KindView {
        KindView {
            kind: self.kind@,
            bw_mhz: self.bw_mhz,
            v: self.v,
            v_min: self.v_min,
            v_max: self.v_max,
            i: self.i,
            i_max: self.i_max,
            nc: self.nc,
        }
    }
}

impl KindEntry {
    /// An entry setting only the kind.
    pub fn plain(kind: &str) -> (r: KindEntry)
        ensures
            r@ == plain(kind@),
    {
        KindEntry {
            kind: kind.to_string(),
            bw_mhz: None,
            v: None,
            v_min: None,
            v_max: None,
            i: None,
            i_max: None,
            nc: None,
        }
    }

    /// A copy of the entry.
    pub fn copy(&self) -> (r: KindEntry)
        ensures
            r@ == self@,
    {
        KindEntry {
            kind: self.kind.clone(),
            bw_mhz: self.bw_mhz,
            v: self.v,
            v_min: self.v_min,
            v_max: self.v_max,
            i: self.i,
            i_max: self.i_max,
            nc: self.nc,
        }
    }
}

/// An entry setting only the kind.
pub open spec fn plain(kind: Seq<char>) -> KindView {
    KindView {
        kind,
        bw_mhz: None,
        v: None,
        v_min: None,
        v_max: None,
        i: None,
        i_max: None,
        nc: None,
    }
}

/// `25.0` as `f64` bits: the default clock bandwidth in MHz.
pub const CLOCK_BW_MHZ_BITS: u64 = 0x4039_0000_0000_0000;

/// The built-in pin-type table, in order.
pub open spec fn builtin_list() -> Seq<(Seq<char>, KindView)> {
    seq![
        ("power_in"@, plain("pwr"@)),
        ("power"@, plain("pwr"@)),
        ("power_out"@, plain("pwr_fixed"@)),
        ("gnd"@, plain("gnd"@)),
        ("ground"@, plain("gnd"@)),
        ("passive"@, plain("dio"@)),
        ("unspecified"@, plain("dio"@)),
        ("input"@, plain("dio"@)),
        ("output"@, plain("dio"@)),
        ("bidirectional"@, plain("dio"@)),
        ("3state"@, plain("dio"@)),
        ("open_collector"@, plain("dio"@)),
        ("open_emitter"@, plain("dio"@)),
        ("free"@, plain("dio"@)),
        ("clock"@, KindView { bw_mhz: Some(CLOCK_BW_MHZ_BITS), ..plain("clk"@) }),
        ("no_connect"@, KindView { nc: Some(true), ..plain("dio"@) }),
    ]
}

/// The built-in pin-name table: common ground names that KiCad classifies
/// as `power_in`.
pub open spec fn builtin_name_list() -> Seq<(Seq<char>, KindView)> {
    seq![("GND"@, plain("gnd"@)), ("VSS"@, plain("gnd"@)), ("PGND"@, plain("gnd"@))]
}

/// The views of a table's keys and entries.
pub open spec fn table_views(t: Seq<(String, KindEntry)>) -> Seq<(Seq<char>, KindView)> {
    t.map_values(|e: (String, KindEntry)| (e.0@, e.1@))
}

/// Index of the first entry with key `k` at or after `i`.
pub open spec fn key_index_from(t: Seq<(Seq<char>, KindView)>, k: Seq<char>, i: int) -> Option<int>
    decreases t.len() - i,
{
    if i < 0 || i >= t.len() {
        None
    } else if t[i].0 == k {
        Some(i)
    } else {
        key_index_from(t, k, i + 1)
    }
}

/// Index of the first entry with key `k`.
pub open spec fn key_index(t: Seq<(Seq<char>, KindView)>, k: Seq<char>) -> Option<int> {
    key_index_from(t, k, 0)
}

/// The entry of key `k`: that of its first occurrence.
pub open spec fn lookup(t: Seq<(Seq<char>, KindView)>, k: Seq<char>) -> Option<KindView> {
    match key_index(t, k) {
        Some(i) => Some(t[i].1),
        None => None,
    }
}

/// A table as a map from keys to entries.
pub open spec fn table_map(t: Seq<(Seq<char>, KindView)>) -> Map<Seq<char>, KindView> {
    Map::new(|k: Seq<char>| lookup(t, k) is Some, |k: Seq<char>| lookup(t, k)->Some_0)
}

proof fn lemma_key_index_from(t: Seq<(Seq<char>, KindView)>, k: Seq<char>, i: int)
    requires
        0 <= i,
    ensures
        match key_index_from(t, k, i) {
            Some(j) => i <= j < t.len() && t[j].0 == k && forall|m: int| i <= m < j ==> t[m].0 != k,
            None => forall|m: int| i <= m < t.len() ==> t[m].0 != k,
        },
    decreases t.len() - i,
{
    if i < t.len() && t[i].0 != k {
        lemma_key_index_from(t, k, i + 1);
    }
}

/// The first occurrence of a key is the first index holding it.
pub proof fn lemma_key_index(t: Seq<(Seq<char>, KindView)>, k: Seq<char>)
    ensures
        match key_index(t, k) {
            Some(j) => 0 <= j < t.len() && t[j].0 == k && forall|m: int| 0 <= m < j ==> t[m].0 != k,
            None => forall|m: int| 0 <= m < t.len() ==> t[m].0 != k,
        },
{
    lemma_key_index_from(t, k, 0);
}

/// Characterises the first occurrence of a key.
proof fn lemma_key_index_is(t: Seq<(Seq<char>, KindView)>, k: Seq<char>, j: Option<int>)
    requires
        match j {
            Some(j) => 0 <= j < t.len() && t[j].0 == k && forall|m: int| 0 <= m < j ==> t[m].0 != k,
            None => forall|m: int| 0 <= m < t.len() ==> t[m].0 != k,
        },
    ensures
        key_index(t, k) == j,
{
    lemma_key_index(t, k);
    match key_index(t, k) {
        Some(a) => match j {
            Some(b) => {
                if a < b {
                    assert(t[a].0 != k);
                } else if b < a {
                    assert(t[b].0 != k);
                }
            },
            None => {
                assert(t[a].0 != k);
            },
        },
        None => match j {
            Some(b) => {
                assert(t[b].0 != k);
            },
            None => {},
        },
    }
}

/// Index of the first entry with key `k`.
fn find_key(t: &Vec<(String, KindEntry)>, k: &str) -> (r: Option<usize>)
    ensures
        match r {
            Some(i) => i < t@.len() && key_index(table_views(t@), k@) == Some(i as int),
            None => key_index(table_views(t@), k@) is None,
        },
{
    let ghost tv = table_views(t@);
    let mut i: usize = 0;
    while i < t.len()
        invariant
            i <= t@.len(),
            tv == table_views(t@),
            forall|m: int| 0 <= m < i ==> (#[trigger] tv[m]).0 != k@,
        decreases t@.len() - i,
    {
        assert(tv[i as int] == (t@[i as int].0@, t@[i as int].1@));
        if str_eq(t[i].0.as_str(), k) {
            proof {
                lemma_key_index_is(tv, k@, Some(i as int));
            }
            return Some(i);
        }
        i = i + 1;
    }
    proof {
        lemma_key_index_is(tv, k@, None);
    }
    None
}

/// `t` with key `k` set to `v`: replaces the entry of the first occurrence
/// of `k`, or appends one.
pub open spec fn set_key(t: Seq<(Seq<char>, KindView)>, k: Seq<char>, v: KindView) -> Seq<(Seq<char>, KindView)> {
    match key_index(t, k) {
        Some(i) => t.update(i, (k, v)),
        None => t.push((k, v)),
    }
}

/// Setting a key maps it to the new entry and leaves every other key as it
/// was.
pub proof fn law_set_key(t: Seq<(Seq<char>, KindView)>, k: Seq<char>, v: KindView)
    ensures
        table_map(set_key(t, k, v)) == table_map(t).insert(k, v),
{
    lemma_key_index(t, k);
    let s = set_key(t, k, v);
    assert forall|q: Seq<char>| #[trigger] lookup(s, q) == table_map(t).insert(k, v).get(q) by {
        lemma_key_index(t, q);
        if q == k {
            match key_index(t, k) {
                Some(i) => lemma_key_index_is(s, q, Some(i)),
                None => lemma_key_index_is(s, q, Some(t.len() as int)),
            }
        } else {
            lemma_key_index_is(s, q, key_index(t, q));
        }
    }
    assert(table_map(s) =~= table_map(t).insert(k, v)) by {
        assert forall|q: Seq<char>| #![auto] table_map(s).dom().contains(q) <==> table_map(t).insert(k, v).dom().contains(q) by {
            assert(lookup(s, q) == table_map(t).insert(k, v).get(q));
        }
        assert forall|q: Seq<char>| #![auto] table_map(s).dom().contains(q) implies table_map(s)[q] == table_map(t).insert(k, v)[q] by {
            assert(lookup(s, q) == table_map(t).insert(k, v).get(q));
        }
    }
}

/// Sets key `k` to `v` in a table (see [`set_key`]).
fn set_entry(t: &mut Vec<(String, KindEntry)>, k: &str, v: KindEntry)
    ensures
        table_views(final(t)@) == set_key(table_views(old(t)@), k@, v@),
{
    let ghost v_view = v@;
    match find_key(t, k) {
        Some(i) => {
            t.set(i, (k.to_string(), v));
            assert(table_views(t@) =~= table_views(old(t)@).update(i as int, (k@, v_view)));
        },
        None => {
            t.push((k.to_string(), v));
            assert(table_views(t@) =~= table_views(old(t)@).push((k@, v_view)));
        },
    }
}

/// `t` with `(k, v)` appended when `k` is absent; unchanged otherwise.
pub open spec fn insert_absent(t: Seq<(Seq<char>, KindView)>, k: Seq<char>, v: KindView) -> Seq<(Seq<char>, KindView)> {
    if key_index(t, k) is Some {
        t
    } else {
        t.push((k, v))
    }
}

fn insert_if_absent(t: &mut Vec<(String, KindEntry)>, k: &str, v: KindEntry)
    ensures
        table_views(final(t)@) == insert_absent(table_views(old(t)@), k@, v@),
{
    let ghost v_view = v@;
    if find_key(t, k).is_none() {
        t.push((k.to_string(), v));
        assert(table_views(t@) =~= table_views(old(t)@).push((k@, v_view)));
    }
}

/// A table built from an empty one by inserting each pair when absent.
pub open spec fn fill_absent(t: Seq<(Seq<char>, KindView)>, items: Seq<(Seq<char>, KindView)>) -> Seq<(Seq<char>, KindView)>
    decreases items.len(),
{
    if items.len() == 0 {
        t
    } else {
        insert_absent(fill_absent(t, items.drop_last()), items.last().0, items.last().1)
    }
}

/// Built-in pin-type entries (see [`builtin_list`]).
pub fn builtin_entries() -> (r: Vec<(&'static str, KindEntry)>)
    ensures
        r@.map_values(|e: (&'static str, KindEntry)| (e.0@, e.1@)) == builtin_list(),
{
    let mut v: Vec<(&'static str, KindEntry)> = Vec::new();
    v.push(("power_in", KindEntry::plain("pwr")));
    v.push(("power", KindEntry::plain("pwr")));
    v.push(("power_out", KindEntry::plain("pwr_fixed")));
    v.push(("gnd", KindEntry::plain("gnd")));
    v.push(("ground", KindEntry::plain("gnd")));
    v.push(("passive", KindEntry::plain("dio")));
    v.push(("unspecified", KindEntry::plain("dio")));
    v.push(("input", KindEntry::plain("dio")));
    v.push(("output", KindEntry::plain("dio")));
    v.push(("bidirectional", KindEntry::plain("dio")));
    v.push(("3state", KindEntry::plain("dio")));
    v.push(("open_collector", KindEntry::plain("dio")));
    v.push(("open_emitter", KindEntry::plain("dio")));
    v.push(("free", KindEntry::plain("dio")));
    let mut clock = KindEntry::plain("clk");
    clock.bw_mhz = Some(CLOCK_BW_MHZ_BITS);
    v.push(("clock", clock));
    let mut nc = KindEntry::plain("dio");
    nc.nc = Some(true);
    v.push(("no_connect", nc));
    assert(v@.map_values(|e: (&'static str, KindEntry)| (e.0@, e.1@)) =~= builtin_list());
    v
}

/// Built-in name-based overrides for common pin names that KiCad classifies
/// as `power_in` but should map to `gnd` (see [`builtin_name_list`]).
pub fn builtin_name_entries() -> (r: Vec<(&'static str, KindEntry)>)
    ensures
        r@.map_values(|e: (&'static str, KindEntry)| (e.0@, e.1@)) == builtin_name_list(),
{
    let gnd = KindEntry::plain("gnd");
    let mut v: Vec<(&'static str, KindEntry)> = Vec::new();
    v.push(("GND", gnd.copy()));
    v.push(("VSS", gnd.copy()));
    v.push(("PGND", gnd));
    assert(v@.map_values(|e: (&'static str, KindEntry)| (e.0@, e.1@)) =~= builtin_name_list());
    v
}

/// Entries read from a kind-map file.
#[derive(Debug)]
pub struct KindMapFile {
    pub by_type: Vec<(String, KindEntry)>,
    pub by_name: Vec<(String, KindEntry)>,
}

/// Mapping from KiCad pin types/names to Copperleaf kinds.
#[derive(Debug)]
pub struct KindMap {
    by_type: Vec<(String, KindEntry)>,
    by_name: Vec<(String, KindEntry)>,
}

impl KindMap {
    /// The entries by pin type.
    pub closed spec fn by_type_table(&self) -> Seq<(Seq<char>, KindView)> {
        table_views(self.by_type@)
    }

    /// The entries by pin name.
    pub closed spec fn by_name_table(&self) -> Seq<(Seq<char>, KindView)> {
        table_views(self.by_name@)
    }

    /// An empty map.
    pub fn new() -> (r: KindMap)
        ensures
            r.by_type_table() == Seq::<(Seq<char>, KindView)>::empty(),
            r.by_name_table() == Seq::<(Seq<char>, KindView)>::empty(),
    {
        let r = KindMap { by_type: Vec::new(), by_name: Vec::new() };
        assert(table_views(r.by_type@) =~= Seq::<(Seq<char>, KindView)>::empty());
        assert(table_views(r.by_name@) =~= Seq::<(Seq<char>, KindView)>::empty());
        r
    }

    /// Adds the built-in entries for types and names that have none yet.
    pub fn populate_builtins(&mut self)
        ensures
            final(self).by_type_table() == fill_absent(old(self).by_type_table(), builtin_list()),
            final(self).by_name_table() == fill_absent(old(self).by_name_table(), builtin_name_list()),
    {
        let types = builtin_entries();
        let ghost tv = types@.map_values(|e: (&'static str, KindEntry)| (e.0@, e.1@));
        let mut k: usize = 0;
        while k < types.len()
            invariant
                k <= types@.len(),
                tv == types@.map_values(|e: (&'static str, KindEntry)| (e.0@, e.1@)),
                self.by_type_table() == fill_absent(old(self).by_type_table(), tv.take(k as int)),
                self.by_name_table() == old(self).by_name_table(),
            decreases types@.len() - k,
        {
            let (ty, entry) = &types[k];
            insert_if_absent(&mut self.by_type, ty, entry.copy());
            k = k + 1;
            assert(tv.take(k as int).drop_last() =~= tv.take(k - 1));
        }
        assert(tv.take(k as int) =~= tv);
        let names = builtin_name_entries();
        let ghost nv = names@.map_values(|e: (&'static str, KindEntry)| (e.0@, e.1@));
        let mut k: usize = 0;
        while k < names.len()
            invariant
                k <= names@.len(),
                nv == names@.map_values(|e: (&'static str, KindEntry)| (e.0@, e.1@)),
                self.by_name_table() == fill_absent(old(self).by_name_table(), nv.take(k as int)),
                self.by_type_table() == fill_absent(old(self).by_type_table(), builtin_list()),
            decreases names@.len() - k,
        {
            let (name, entry) = &names[k];
            insert_if_absent(&mut self.by_name, name, entry.copy());
            k = k + 1;
            assert(nv.take(k as int).drop_last() =~= nv.take(k - 1));
        }
        assert(nv.take(k as int) =~= nv);
    }

    /// Sets the entry for a pin type.
    pub fn set_by_type(&mut self, pin_type: &str, entry: KindEntry)
        ensures
            final(self).by_type_table() == set_key(old(self).by_type_table(), pin_type@, entry@),
            final(self).by_name_table() == old(self).by_name_table(),
    {
        set_entry(&mut self.by_type, pin_type, entry);
    }

    /// Sets the entry for a pin name.
    pub fn set_by_name(&mut self, name: &str, entry: KindEntry)
        ensures
            final(self).by_name_table() == set_key(old(self).by_name_table(), name@, entry@),
            final(self).by_type_table() == old(self).by_type_table(),
    {
        set_entry(&mut self.by_name, name, entry);
    }

    /// A kind map with the built-in defaults, overridden by the entries of
    /// a kind-map file when there is one (each file entry replaces the entry
    /// of its type or name).
    pub fn load(file: Option<KindMapFile>) -> (r: KindMap)
        ensures
            match file {
                None => r.by_type_table() == fill_absent(Seq::empty(), builtin_list())
                    && r.by_name_table() == fill_absent(Seq::empty(), builtin_name_list()),
                Some(f) => r.by_type_table() == set_all(fill_absent(Seq::empty(), builtin_list()), table_views(f.by_type@))
                    && r.by_name_table() == set_all(fill_absent(Seq::empty(), builtin_name_list()), table_views(f.by_name@)),
            },
    {
        let mut map = KindMap::new();
        map.populate_builtins();
        match file {
            None => map,
            Some(f) => {
                let ghost t0 = map.by_type_table();
                let ghost n0 = map.by_name_table();
                let ghost ft = table_views(f.by_type@);
                let ghost fname = table_views(f.by_name@);
                let mut k: usize = 0;
                while k < f.by_type.len()
                    invariant
                        k <= f.by_type@.len(),
                        ft == table_views(f.by_type@),
                        map.by_type_table() == set_all(t0, ft.take(k as int)),
                        map.by_name_table() == n0,
                    decreases f.by_type@.len() - k,
                {
                    let (ty, entry) = &f.by_type[k];
                    assert(ft[k as int] == (ty@, entry@));
                    map.set_by_type(ty.as_str(), entry.copy());
                    k = k + 1;
                    assert(ft.take(k as int).drop_last() =~= ft.take(k - 1));
                }
                assert(ft.take(k as int) =~= ft);
                let mut k: usize = 0;
                while k < f.by_name.len()
                    invariant
                        k <= f.by_name@.len(),
                        fname == table_views(f.by_name@),
                        map.by_name_table() == set_all(n0, fname.take(k as int)),
                        map.by_type_table() == set_all(t0, ft),
                    decreases f.by_name@.len() - k,
                {
                    let (name, entry) = &f.by_name[k];
                    assert(fname[k as int] == (name@, entry@));
                    map.set_by_name(name.as_str(), entry.copy());
                    k = k + 1;
                    assert(fname.take(k as int).drop_last() =~= fname.take(k - 1));
                }
                assert(fname.take(k as int) =~= fname);
                map
            },
        }
    }

    /// Resolve the kind for a pin: the entry for its name, else the entry
    /// for its pin type, else the built-in entry for its pin type, else a
    /// plain `default_kind` entry. The flag is `true` exactly when the
    /// default was used.
    pub fn resolve(&self, name: &str, pin_type: &str, default_kind: &str) -> (r: (KindEntry, bool))
        ensures
            (r.0@, r.1) == resolved(self.by_name_table(), self.by_type_table(), name@, pin_type@, default_kind@),
    {
        if let Some(i) = find_key(&self.by_name, name) {
            assert(self.by_name_table()[i as int] == (self.by_name@[i as int].0@, self.by_name@[i as int].1@));
            return (self.by_name[i].1.copy(), false);
        }
        if let Some(i) = find_key(&self.by_type, pin_type) {
            assert(self.by_type_table()[i as int] == (self.by_type@[i as int].0@, self.by_type@[i as int].1@));
            return (self.by_type[i].1.copy(), false);
        }
        if let Some(e) = self.builtin(pin_type) {
            return (e, false);
        }
        (KindEntry::plain(default_kind), true)
    }

    /// The built-in entry for a pin type.
    fn builtin(&self, pin_type: &str) -> (r: Option<KindEntry>)
        ensures
            match lookup(builtin_list(), pin_type@) {
                Some(e) => r matches Some(x) && x@ == e,
                None => r is None,
            },
    {
        let entries = builtin_entries();
        let ghost bv = entries@.map_values(|e: (&'static str, KindEntry)| (e.0@, e.1@));
        let mut i: usize = 0;
        while i < entries.len()
            invariant
                i <= entries@.len(),
                bv == builtin_list(),
                bv == entries@.map_values(|e: (&'static str, KindEntry)| (e.0@, e.1@)),
                forall|m: int| 0 <= m < i ==> (#[trigger] bv[m]).0 != pin_type@,
            decreases entries@.len() - i,
        {
            assert(bv[i as int] == (entries@[i as int].0@, entries@[i as int].1@));
            if str_eq(entries[i].0, pin_type) {
                proof {
                    lemma_key_index_is(bv, pin_type@, Some(i as int));
                }
                return Some(entries[i].1.copy());
            }
            i = i + 1;
        }
        proof {
            lemma_key_index_is(bv, pin_type@, None);
        }
        None
    }
}

/// `t` with each pair of `items` set in turn (see [`set_key`]).
pub open spec fn set_all(t: Seq<(Seq<char>, KindView)>, items: Seq<(Seq<char>, KindView)>) -> Seq<(Seq<char>, KindView)>
    decreases items.len(),
{
    if items.len() == 0 {
        t
    } else {
        set_key(set_all(t, items.drop_last()), items.last().0, items.last().1)
    }
}

/// Entries set in turn: a key set by some item maps to the entry of the
/// last item that sets it; any other key keeps its entry.
pub proof fn law_set_all(t: Seq<(Seq<char>, KindView)>, items: Seq<(Seq<char>, KindView)>, k: Seq<char>)
    ensures
        (forall|j: int| 0 <= j < items.len() ==> (#[trigger] items[j]).0 != k) ==> lookup(set_all(t, items), k)
            == lookup(t, k),
        forall|j: int|
            0 <= j < items.len() && (#[trigger] items[j]).0 == k && (forall|m: int|
                j < m < items.len() ==> items[m].0 != k) ==> lookup(set_all(t, items), k) == Some(
                items[j].1,
            ),
    decreases items.len(),
{
    if items.len() > 0 {
        let init = items.drop_last();
        law_set_all(t, init, k);
        let last = items.last();
        law_set_key(set_all(t, init), last.0, last.1);
        let before = table_map(set_all(t, init));
        assert(table_map(set_all(t, items)) == before.insert(last.0, last.1));
        assert(lookup(set_all(t, items), k) == table_map(set_all(t, items)).get(k));
        assert(lookup(set_all(t, init), k) == before.get(k));
        assert forall|j: int|
            0 <= j < items.len() && (#[trigger] items[j]).0 == k && (forall|m: int|
                j < m < items.len() ==> items[m].0 != k) implies lookup(set_all(t, items), k) == Some(
            items[j].1,
        ) by {
            if j < items.len() - 1 {
                assert(items[items.len() - 1].0 != k);
                assert(init[j] == items[j]);
                assert forall|m: int| j < m < init.len() implies init[m].0 != k by {
                    assert(init[m] == items[m]);
                }
            }
        }
        if forall|j: int| 0 <= j < items.len() ==> (#[trigger] items[j]).0 != k {
            assert(items[items.len() - 1].0 != k);
            assert forall|j: int| 0 <= j < init.len() implies (#[trigger] init[j]).0 != k by {
                assert(init[j] == items[j]);
            }
        }
    }
}


proof fn lemma_lookup_push(t: Seq<(Seq<char>, KindView)>, x: (Seq<char>, KindView), k: Seq<char>)
    ensures
        lookup(t.push(x), k) == match lookup(t, k) {
            Some(v) => Some(v),
            None => if x.0 == k {
                Some(x.1)
            } else {
                None
            },
        },
{
    lemma_key_index(t, k);
    let s = t.push(x);
    match key_index(t, k) {
        Some(i) => {
            lemma_key_index_is(s, k, Some(i));
        },
        None => {
            if x.0 == k {
                lemma_key_index_is(s, k, Some(t.len() as int));
            } else {
                lemma_key_index_is(s, k, None);
            }
        },
    }
}

/// Filling a table with entries for absent keys keeps its own entries and
/// takes, for any other key, the first entry given for it.
proof fn lemma_lookup_fill_absent(t: Seq<(Seq<char>, KindView)>, items: Seq<(Seq<char>, KindView)>, k: Seq<char>)
    ensures
        lookup(fill_absent(t, items), k) == match lookup(t, k) {
            Some(v) => Some(v),
            None => lookup(items, k),
        },
    decreases items.len(),
{
    if items.len() == 0 {
        lemma_key_index_is(items, k, None);
    } else {
        let init = items.drop_last();
        let x = items.last();
        lemma_lookup_fill_absent(t, init, k);
        let f = fill_absent(t, init);
        assert(items == init.push(x));
        lemma_lookup_push(init, x, k);
        if key_index(f, x.0) is Some {
            if x.0 == k {
                assert(lookup(f, k) is Some);
            }
        } else {
            lemma_lookup_push(f, x, k);
            lemma_key_index(f, x.0);
            if x.0 == k {
                assert(lookup(f, k) is None);
            }
        }
    }
}

/// The kind a pin resolves to with name table `by_name` and type table
/// `by_type` (see [`KindMap::resolve`]).
pub open spec fn resolved(
    by_name: Seq<(Seq<char>, KindView)>,
    by_type: Seq<(Seq<char>, KindView)>,
    name: Seq<char>,
    pin_type: Seq<char>,
    default_kind: Seq<char>,
) -> (KindView, bool) {
    match lookup(by_name, name) {
        Some(e) => (e, false),
        None => match lookup(by_type, pin_type) {
            Some(e) => (e, false),
            None => match lookup(builtin_list(), pin_type) {
                Some(e) => (e, false),
                None => (plain(default_kind), true),
            },
        },
    }
}

/// With the built-in tables and no file, a pin resolves by its KiCad type
/// unless its name is a ground name: power inputs (`power_in`, `power`) are
/// `pwr`, power outputs (`power_out`) `pwr_fixed`, grounds (`gnd`,
/// `ground`) `gnd`, clocks `clk` at 25 MHz, no-connects a no-connect
/// `dio`, and every other signal type `dio`; none of them falls back to
/// the default, and any other type falls back to a plain default kind,
/// flagged as such. The ground names `GND`, `VSS` and `PGND` are `gnd` whatever
/// their type.
pub proof fn law_builtin_kinds(name: Seq<char>, pin_type: Seq<char>, default_kind: Seq<char>)
    ensures
        ({
            let n = fill_absent(Seq::empty(), builtin_name_list());
            let t = fill_absent(Seq::empty(), builtin_list());
            let r = resolved(n, t, name, pin_type, default_kind);
            &&& (name == "GND"@ || name == "VSS"@ || name == "PGND"@) ==> r == (plain("gnd"@), false)
            &&& !(name == "GND"@ || name == "VSS"@ || name == "PGND"@) ==> {
                &&& (pin_type == "power_in"@ || pin_type == "power"@) ==> r == (plain("pwr"@), false)
                &&& pin_type == "power_out"@ ==> r == (plain("pwr_fixed"@), false)
                &&& (pin_type == "gnd"@ || pin_type == "ground"@) ==> r == (plain("gnd"@), false)
                &&& pin_type == "clock"@ ==> r == (KindView { bw_mhz: Some(CLOCK_BW_MHZ_BITS), ..plain("clk"@) }, false)
                &&& pin_type == "no_connect"@ ==> r == (KindView { nc: Some(true), ..plain("dio"@) }, false)
                &&& (pin_type == "passive"@ || pin_type == "unspecified"@ || pin_type == "input"@ || pin_type
                    == "output"@ || pin_type == "bidirectional"@ || pin_type == "3state"@ || pin_type
                    == "open_collector"@ || pin_type == "open_emitter"@ || pin_type == "free"@) ==> r == (
                    plain("dio"@),
                    false,
                )
                &&& (pin_type != "power_in"@ && pin_type != "power"@ && pin_type != "power_out"@ && pin_type != "gnd"@ && pin_type != "ground"@ && pin_type != "passive"@ && pin_type != "unspecified"@ && pin_type != "input"@ && pin_type != "output"@ && pin_type != "bidirectional"@ && pin_type != "3state"@ && pin_type != "open_collector"@ && pin_type != "open_emitter"@ && pin_type != "free"@ && pin_type != "clock"@ && pin_type != "no_connect"@) ==> r == (plain(default_kind), true)
            }
        }),
{
    let e = Seq::<(Seq<char>, KindView)>::empty();
    lemma_key_index_is(e, name, None);
    lemma_key_index_is(e, pin_type, None);
    lemma_lookup_fill_absent(e, builtin_name_list(), name);
    lemma_lookup_fill_absent(e, builtin_list(), pin_type);
    reveal_strlit("GND");
    reveal_strlit("VSS");
    reveal_strlit("PGND");
    reveal_strlit("power_in");
    reveal_strlit("power");
    reveal_strlit("power_out");
    reveal_strlit("gnd");
    reveal_strlit("ground");
    reveal_strlit("passive");
    reveal_strlit("unspecified");
    reveal_strlit("input");
    reveal_strlit("output");
    reveal_strlit("bidirectional");
    reveal_strlit("3state");
    reveal_strlit("open_collector");
    reveal_strlit("open_emitter");
    reveal_strlit("free");
    reveal_strlit("clock");
    reveal_strlit("no_connect");
    assert("power_in"@.len() == 8 && "power_in"@[0] == 'p');
    assert("power"@.len() == 5 && "power"@[0] == 'p');
    assert("power_out"@.len() == 9 && "power_out"@[0] == 'p');
    assert("gnd"@.len() == 3 && "gnd"@[0] == 'g');
    assert("ground"@.len() == 6 && "ground"@[0] == 'g');
    assert("passive"@.len() == 7 && "passive"@[0] == 'p');
    assert("unspecified"@.len() == 11 && "unspecified"@[0] == 'u');
    assert("input"@.len() == 5 && "input"@[0] == 'i');
    assert("output"@.len() == 6 && "output"@[0] == 'o');
    assert("bidirectional"@.len() == 13 && "bidirectional"@[0] == 'b');
    assert("3state"@.len() == 6 && "3state"@[0] == '3');
    assert("open_collector"@.len() == 14 && "open_collector"@[0] == 'o');
    assert("open_emitter"@.len() == 12 && "open_emitter"@[0] == 'o');
    assert("free"@.len() == 4 && "free"@[0] == 'f');
    assert("clock"@.len() == 5 && "clock"@[0] == 'c');
    assert("no_connect"@.len() == 10 && "no_connect"@[0] == 'n');
    assert("GND"@.len() == 3 && "GND"@[0] == 'G');
    assert("VSS"@.len() == 3 && "VSS"@[0] == 'V');
    assert("PGND"@.len() == 4 && "PGND"@[0] == 'P');
    assert("VSS"@[1] == 'S' && "GND"@[1] == 'N');
    let nl = builtin_name_list();
    let bl = builtin_list();
    if name == "GND"@ {
        lemma_key_index_is(nl, name, Some(0));
    } else if name == "VSS"@ {
        lemma_key_index_is(nl, name, Some(1));
    } else if name == "PGND"@ {
        lemma_key_index_is(nl, name, Some(2));
    } else {
        lemma_key_index_is(nl, name, None);
        if pin_type == "power_in"@ {
            lemma_key_index_is(bl, pin_type, Some(0));
        } else if pin_type == "power"@ {
            lemma_key_index_is(bl, pin_type, Some(1));
        } else if pin_type == "power_out"@ {
            lemma_key_index_is(bl, pin_type, Some(2));
        } else if pin_type == "gnd"@ {
            lemma_key_index_is(bl, pin_type, Some(3));
        } else if pin_type == "ground"@ {
            lemma_key_index_is(bl, pin_type, Some(4));
        } else if pin_type == "passive"@ {
            lemma_key_index_is(bl, pin_type, Some(5));
        } else if pin_type == "unspecified"@ {
            lemma_key_index_is(bl, pin_type, Some(6));
        } else if pin_type == "input"@ {
            lemma_key_index_is(bl, pin_type, Some(7));
        } else if pin_type == "output"@ {
            lemma_key_index_is(bl, pin_type, Some(8));
        } else if pin_type == "bidirectional"@ {
            lemma_key_index_is(bl, pin_type, Some(9));
        } else if pin_type == "3state"@ {
            lemma_key_index_is(bl, pin_type, Some(10));
        } else if pin_type == "open_collector"@ {
            lemma_key_index_is(bl, pin_type, Some(11));
        } else if pin_type == "open_emitter"@ {
            lemma_key_index_is(bl, pin_type, Some(12));
        } else if pin_type == "free"@ {
            lemma_key_index_is(bl, pin_type, Some(13));
        } else if pin_type == "clock"@ {
            lemma_key_index_is(bl, pin_type, Some(14));
        } else if pin_type == "no_connect"@ {
            lemma_key_index_is(bl, pin_type, Some(15));
        } else {
            lemma_key_index_is(bl, pin_type, None);
        }
    }
}

} // verus!
