//! Output management: turns connector state reported by the graphics stack
//! into desktop-facing concepts (position in the extended desktop, scale,
//! orientation, which output is primary). It only keeps its own
//! bookkeeping; it never drives display hardware.
//!
//! Scale factors are fixed-point thousandths (`1000` is `1.0`).

use vstd::prelude::*;
use crate::common::{ObjectId, Error, is_device_error, device_error};
use crate::idmap::{
    IdMap, has_key, lookup, key_index, unique_keys, without_key, set_value, values_of, derefs,
    lemma_index_unique, lemma_remove,
};
use crate::text::{join_number, decimal};

verus! {

/// A display mode of a connector.
#[derive(Clone, Copy, Debug, PartialEq, Eq, Structural)]
pub struct DisplayMode {
    pub width: u32,
    pub height: u32,
    pub refresh_rate: u32,
    pub clock: u32,
}

/// The kind of a display connector.
#[derive(Clone, Copy, Debug, PartialEq, Eq, Structural)]
pub enum ConnectorType {
    HDMI,
    DisplayPort,
    EDP,
    DVI,
    VGA,
    Virtual,
}

/// Whether something is plugged into a connector.
#[derive(Clone, Copy, Debug, PartialEq, Eq, Structural)]
pub enum ConnectorStatus {
    Connected,
    Disconnected,
    Unknown,
}

/// A display connector as the graphics stack reports it.
#[derive(Clone, Debug)]
pub struct Connector {
    pub id: ObjectId,
    pub connector_type: ConnectorType,
    pub status: ConnectorStatus,
    pub supported_modes: Vec<DisplayMode>,
    pub current_mode: Option<DisplayMode>,
}

/// The rotation of an output.
#[derive(Clone, Copy, Debug, PartialEq, Eq, Structural)]
pub enum Orientation {
    Landscape,
    Portrait,
    LandscapeFlipped,
    PortraitFlipped,
}

/// An output as the desktop sees it.
#[derive(Debug)]
pub struct LogicalOutput {
    pub connector_id: ObjectId,
    pub name: String,
    /// Position in the extended desktop's global coordinate space.
    pub position: (i32, i32),
    pub scale_milli: i64,
    pub orientation: Orientation,
    pub primary: bool,
    pub mirror_of: Option<ObjectId>,
    pub mode: Option<DisplayMode>,
}

impl Clone for LogicalOutput {
    fn clone(&self) -> (o: LogicalOutput)
        ensures
            o == *self,
    {
        LogicalOutput {
            connector_id: self.connector_id,
            name: self.name.clone(),
            position: self.position,
            scale_milli: self.scale_milli,
            orientation: self.orientation,
            primary: self.primary,
            mirror_of: self.mirror_of,
            mode: self.mode,
        }
    }
}

/// The name of the virtual output that stands in while no connector is
/// observed.
pub open spec fn fallback_name() -> Seq<char> {
    "fallback-virtual"@
}

/// The mode of the virtual fallback output.
pub open spec fn fallback_mode() -> DisplayMode {
    DisplayMode { width: 1280, height: 720, refresh_rate: 60, clock: 74250 }
}

/// The name a connector type is written with.
pub open spec fn connector_type_name(t: ConnectorType) -> Seq<char> {
    match t {
        ConnectorType::HDMI => "HDMI"@,
        ConnectorType::DisplayPort => "DisplayPort"@,
        ConnectorType::EDP => "EDP"@,
        ConnectorType::DVI => "DVI"@,
        ConnectorType::VGA => "VGA"@,
        ConnectorType::Virtual => "Virtual"@,
    }
}

impl ConnectorType {
    /// The name the connector type is written with.
    pub fn name(&self) -> (s: &'static str)
        ensures
            s@ == connector_type_name(*self),
    {
        match self {
            ConnectorType::HDMI => "HDMI",
            ConnectorType::DisplayPort => "DisplayPort",
            ConnectorType::EDP => "EDP",
            ConnectorType::DVI => "DVI",
            ConnectorType::VGA => "VGA",
            ConnectorType::Virtual => "Virtual",
        }
    }
}

/// The outputs of `s` flagged primary are exactly one.
pub open spec fn exactly_one_primary(s: Seq<(ObjectId, LogicalOutput)>) -> bool {
    &&& exists|i: int| 0 <= i < s.len() && (#[trigger] s[i]).1.primary
    &&& forall|i: int, j: int| 0 <= i < s.len() && 0 <= j < s.len() && (#[trigger] s[i]).1.primary && (#[trigger] s[j]).1.primary ==> i == j
}

/// `s` with output `id` alone flagged primary.
pub open spec fn with_primary(s: Seq<(ObjectId, LogicalOutput)>, id: ObjectId) -> Seq<(ObjectId, LogicalOutput)> {
    s.map_values(|e: (ObjectId, LogicalOutput)| (e.0, LogicalOutput { primary: e.0 == id, ..e.1 }))
}

/// `o` is a logical output that mirrors `c`: named after its type and
/// handle, at the origin, scale one, landscape, not mirroring, in the
/// connector's current mode, primary as given.
pub open spec fn output_for_connector(o: LogicalOutput, c: Connector, primary: bool) -> bool {
    &&& o.connector_id == c.id
    &&& o.name@ == connector_type_name(c.connector_type) + "-"@ + decimal(c.id.0 as nat) + ""@
    &&& o.position == (0i32, 0i32)
    &&& o.scale_milli == 1000
    &&& o.orientation == Orientation::Landscape
    &&& o.primary == primary
    &&& o.mirror_of is None
    &&& o.mode == c.current_mode
}

/// `o` is the virtual fallback output with handle `id`.
pub open spec fn is_fallback_output(o: LogicalOutput, id: ObjectId) -> bool {
    &&& o.connector_id == id
    &&& o.name@ == fallback_name()
    &&& o.position == (0i32, 0i32)
    &&& o.scale_milli == 1000
    &&& o.orientation == Orientation::Landscape
    &&& o.primary
    &&& o.mirror_of is None
    &&& o.mode == Some(fallback_mode())
}

/// An output made for a connector mirrors the connector: it carries the
/// connector's handle and current mode (whatever that mode is, including
/// none), is named after the connector's type and handle, and starts at the
/// origin at scale one, in landscape, mirroring nothing.
pub proof fn lemma_observed_output_mirrors_connector(o: LogicalOutput, c: Connector, primary: bool)
    requires
        output_for_connector(o, c, primary),
    ensures
        o.connector_id == c.id,
        o.mode == c.current_mode,
        c.current_mode matches Some(m) ==> o.mode == Some(m),
        o.name@ == connector_type_name(c.connector_type) + "-"@ + decimal(c.id.0 as nat),
        o.position == (0i32, 0i32),
        o.scale_milli == 1000,
        o.orientation == Orientation::Landscape,
        o.mirror_of is None,
        o.primary == primary,
{
    reveal_strlit("");
    assert(connector_type_name(c.connector_type) + "-"@ + decimal(c.id.0 as nat) + ""@
        =~= connector_type_name(c.connector_type) + "-"@ + decimal(c.id.0 as nat));
}

/// The logical outputs, keyed by connector handle.
pub struct OutputManager {
    logical: IdMap<LogicalOutput>,
    fallback_active: bool,
    next_serial: u64,
}

impl OutputManager {
    /// The outputs and their handles, in the order they were observed.
    pub closed spec fn view(&self) -> Seq<(ObjectId, LogicalOutput)> {
        self.logical@
    }

    /// The virtual fallback output stands in for missing connectors.
    pub closed spec fn fallback(&self) -> bool {
        self.fallback_active
    }

    /// Handles are distinct; while the fallback stands in, it is the only
    /// output.
    pub open spec fn wf(&self) -> bool {
        &&& unique_keys(self@)
        &&& self.fallback() ==> self@.len() == 1 && self@[0].1.name@ == fallback_name() && self@[0].1.primary
    }

    /// The session has at least one output, and exactly one of them is
    /// primary.
    pub open spec fn sound(&self) -> bool {
        &&& self@.len() >= 1
        &&& exactly_one_primary(self@)
    }

    /// A manager holding only the virtual fallback output, primary.
    pub fn new() -> (m: OutputManager)
        ensures
            m.wf(),
            m.sound(),
            m.fallback(),
            m@.len() == 1,
            is_fallback_output(m@[0].1, m@[0].0),
    {
        let mut mgr = OutputManager { logical: IdMap::new(), fallback_active: false, next_serial: 1 };
        mgr.ensure_fallback(None);
        mgr
    }

    /// Mirrors connector `connector`, already known to the graphics stack,
    /// into a logical output under the connector's handle, and returns that
    /// handle. The output is primary when it is the first one, or when it
    /// replaces the fallback output, which is dropped.
    pub fn observe_connector(&mut self, connector: &Connector) -> (id: ObjectId)
        requires
            old(self).wf(),
        ensures
            final(self).wf(),
            !final(self).fallback(),
            id == connector.id,
            ({
                let primary = old(self)@.len() == 0 || old(self).fallback();
                let base = if old(self).fallback() { Seq::<(ObjectId, LogicalOutput)>::empty() } else { old(self)@ };
                &&& has_key(final(self)@, id)
                &&& output_for_connector(lookup(final(self)@, id), *connector, primary)
                &&& if has_key(base, id) {
                    &&& final(self)@.len() == base.len()
                    &&& forall|i: int| 0 <= i < base.len() && i != key_index(base, id) ==> #[trigger] final(self)@[i] == base[i]
                    &&& key_index(final(self)@, id) == key_index(base, id)
                } else {
                    &&& final(self)@.len() == base.len() + 1
                    &&& final(self)@.drop_last() == base
                    &&& final(self)@.last().0 == id
                }
            }),
            old(self).sound() && !has_key(old(self)@, connector.id) ==> final(self).sound(),
    {
        let id = connector.id;
        let name = join_number(connector.connector_type.name(), "-", id.0, "");
        let primary = self.logical.is_empty() || self.fallback_active;
        self.drop_fallback();
        let ghost base = self.logical@;
        let output = LogicalOutput {
            connector_id: id,
            name,
            position: (0, 0),
            scale_milli: 1000,
            orientation: Orientation::Landscape,
            primary,
            mirror_of: None,
            mode: connector.current_mode,
        };
        let prev = self.logical.insert(id, output);
        proof {
            let f = self.logical@;
            match prev {
                Some(_) => {
                    lemma_index_unique(f, key_index(base, id));
                },
                None => {
                    lemma_index_unique(f, base.len() as int);
                },
            }
            if old(self).sound() && !has_key(old(self)@, id) {
                assert(!has_key(base, id));
                if primary {
                    assert(base.len() == 0);
                    assert(f[0].1.primary);
                    assert forall|i: int, j: int| 0 <= i < f.len() && 0 <= j < f.len() && (#[trigger] f[i]).1.primary && (#[trigger] f[j]).1.primary implies i == j by {}
                } else {
                    assert(base == old(self)@);
                    let p = choose|p: int| 0 <= p < base.len() && (#[trigger] base[p]).1.primary;
                    assert(f[p] == base[p]);
                    assert forall|i: int, j: int| 0 <= i < f.len() && 0 <= j < f.len() && (#[trigger] f[i]).1.primary && (#[trigger] f[j]).1.primary implies i == j by {
                        if i < base.len() && j < base.len() {
                            assert(f[i] == base[i] && f[j] == base[j]);
                        } else if i < base.len() {
                            assert(f[i] == base[i]);
                        } else if j < base.len() {
                            assert(f[j] == base[j]);
                        }
                    }
                }
            }
        }
        id
    }

    /// Records that the mode of output `output_id` changed to `mode`.
    pub fn update_mode(&mut self, output_id: &ObjectId, mode: DisplayMode) -> (r: Result<(), Error>)
        requires
            old(self).wf(),
        ensures
            final(self).wf(),
            final(self).fallback() == old(self).fallback(),
            r is Ok <==> has_key(old(self)@, *output_id),
            r is Ok ==> final(self)@ == set_value(old(self)@, *output_id, LogicalOutput { mode: Some(mode), ..lookup(old(self)@, *output_id) }),
            r matches Err(e) ==> final(self)@ == old(self)@ && is_device_error(e, "output not found"@),
            old(self).sound() ==> final(self).sound(),
    {
        match self.logical.get_mut(*output_id) {
            Some(o) => {
                o.mode = Some(mode);
                proof { lemma_same_flags(old(self)@, self.logical@, key_index(old(self)@, *output_id)); }
                Ok(())
            },
            None => Err(device_error("output not found")),
        }
    }

    /// Sets the scale of output `output_id`, in thousandths; a scale that is
    /// not positive is refused.
    pub fn set_scale(&mut self, output_id: &ObjectId, scale_milli: i64) -> (r: Result<(), Error>)
        requires
            old(self).wf(),
        ensures
            final(self).wf(),
            final(self).fallback() == old(self).fallback(),
            r is Ok <==> scale_milli > 0 && has_key(old(self)@, *output_id),
            r is Ok ==> final(self)@ == set_value(old(self)@, *output_id, LogicalOutput { scale_milli, ..lookup(old(self)@, *output_id) }),
            r matches Err(e) ==> final(self)@ == old(self)@ && (if scale_milli <= 0 {
                is_device_error(e, "scale must be positive"@)
            } else {
                is_device_error(e, "output not found"@)
            }),
            old(self).sound() ==> final(self).sound(),
    {
        if scale_milli <= 0 {
            return Err(device_error("scale must be positive"));
        }
        match self.logical.get_mut(*output_id) {
            Some(o) => {
                o.scale_milli = scale_milli;
                proof { lemma_same_flags(old(self)@, self.logical@, key_index(old(self)@, *output_id)); }
                Ok(())
            },
            None => Err(device_error("output not found")),
        }
    }

    /// Places output `output_id` in the extended desktop.
    pub fn set_position(&mut self, output_id: &ObjectId, position: (i32, i32)) -> (r: Result<(), Error>)
        requires
            old(self).wf(),
        ensures
            final(self).wf(),
            final(self).fallback() == old(self).fallback(),
            r is Ok <==> has_key(old(self)@, *output_id),
            r is Ok ==> final(self)@ == set_value(old(self)@, *output_id, LogicalOutput { position, ..lookup(old(self)@, *output_id) }),
            r matches Err(e) ==> final(self)@ == old(self)@ && is_device_error(e, "output not found"@),
            old(self).sound() ==> final(self).sound(),
    {
        match self.logical.get_mut(*output_id) {
            Some(o) => {
                o.position = position;
                proof { lemma_same_flags(old(self)@, self.logical@, key_index(old(self)@, *output_id)); }
                Ok(())
            },
            None => Err(device_error("output not found")),
        }
    }

    /// Rotates output `output_id`.
    pub fn set_orientation(&mut self, output_id: &ObjectId, orientation: Orientation) -> (r: Result<(), Error>)
        requires
            old(self).wf(),
        ensures
            final(self).wf(),
            final(self).fallback() == old(self).fallback(),
            r is Ok <==> has_key(old(self)@, *output_id),
            r is Ok ==> final(self)@ == set_value(old(self)@, *output_id, LogicalOutput { orientation, ..lookup(old(self)@, *output_id) }),
            r matches Err(e) ==> final(self)@ == old(self)@ && is_device_error(e, "output not found"@),
            old(self).sound() ==> final(self).sound(),
    {
        match self.logical.get_mut(*output_id) {
            Some(o) => {
                o.orientation = orientation;
                proof { lemma_same_flags(old(self)@, self.logical@, key_index(old(self)@, *output_id)); }
                Ok(())
            },
            None => Err(device_error("output not found")),
        }
    }

    /// Makes output `output_id` the one primary output.
    pub fn set_primary(&mut self, output_id: &ObjectId) -> (r: Result<(), Error>)
        requires
            old(self).wf(),
        ensures
            final(self).wf(),
            final(self).fallback() == old(self).fallback(),
            r is Ok <==> has_key(old(self)@, *output_id),
            r is Ok ==> final(self)@ == with_primary(old(self)@, *output_id) && final(self).sound(),
            r matches Err(e) ==> final(self)@ == old(self)@ && is_device_error(e, "output not found"@),
    {
        if !self.logical.contains_key(*output_id) {
            return Err(device_error("output not found"));
        }
        let mut i: usize = 0;
        while i < self.logical.len()
            invariant
                unique_keys(self.logical@),
                self.fallback_active == old(self).fallback_active,
                i <= self.logical@.len(),
                self.logical@.len() == old(self)@.len(),
                forall|j: int| 0 <= j < i ==> #[trigger] self.logical@[j] == with_primary(old(self)@, *output_id)[j],
                forall|j: int| i <= j < self.logical@.len() ==> #[trigger] self.logical@[j] == old(self)@[j],
            decreases self.logical@.len() - i,
        {
            let is_it = self.logical.key_at(i) == *output_id;
            let o = self.logical.value_at_mut(i);
            o.primary = is_it;
            i = i + 1;
        }
        proof {
            let f = self.logical@;
            assert(f =~= with_primary(old(self)@, *output_id));
            let k = key_index(old(self)@, *output_id);
            assert(f[k].1.primary);
            assert forall|a: int, b: int| 0 <= a < f.len() && 0 <= b < f.len() && (#[trigger] f[a]).1.primary && (#[trigger] f[b]).1.primary implies a == b by {
                assert(f[a].0 == *output_id && f[b].0 == *output_id);
            }
            if self.fallback_active {
                assert(f[0].0 == old(self)@[0].0);
            }
        }
        Ok(())
    }

    /// Makes output `output_id` mirror output `source_id`.
    pub fn mirror(&mut self, output_id: &ObjectId, source_id: ObjectId) -> (r: Result<(), Error>)
        requires
            old(self).wf(),
        ensures
            final(self).wf(),
            final(self).fallback() == old(self).fallback(),
            r is Ok <==> has_key(old(self)@, source_id) && has_key(old(self)@, *output_id),
            r is Ok ==> final(self)@ == set_value(old(self)@, *output_id, LogicalOutput { mirror_of: Some(source_id), ..lookup(old(self)@, *output_id) }),
            r matches Err(e) ==> final(self)@ == old(self)@ && (if !has_key(old(self)@, source_id) {
                is_device_error(e, "mirror source output not found"@)
            } else {
                is_device_error(e, "output not found"@)
            }),
            old(self).sound() ==> final(self).sound(),
    {
        if !self.logical.contains_key(source_id) {
            return Err(device_error("mirror source output not found"));
        }
        match self.logical.get_mut(*output_id) {
            Some(o) => {
                o.mirror_of = Some(source_id);
                proof { lemma_same_flags(old(self)@, self.logical@, key_index(old(self)@, *output_id)); }
                Ok(())
            },
            None => Err(device_error("output not found")),
        }
    }

    /// Reacts to a hotplug event for output `output_id`. A disconnected
    /// output is forgotten; if it was primary, the first remaining output
    /// becomes primary, or, if none remains, the virtual fallback output
    /// stands in. A connect event changes nothing here (the connector is
    /// observed separately).
    pub fn handle_hotplug(&mut self, output_id: &ObjectId, connected: bool) -> (r: Result<(), Error>)
        requires
            old(self).wf(),
        ensures
            final(self).wf(),
            r is Ok,
            connected ==> final(self)@ == old(self)@ && final(self).fallback() == old(self).fallback(),
            !connected ==> {
                let rest = crate::wayland::removed_key(old(self)@, *output_id);
                let was_primary = has_key(old(self)@, *output_id) && lookup(old(self)@, *output_id).primary;
                if !was_primary {
                    final(self)@ == rest
                } else if rest.len() > 0 {
                    final(self)@ == with_primary(rest, rest[0].0)
                } else {
                    &&& final(self)@.len() == 1
                    &&& final(self).fallback()
                    &&& is_fallback_output(final(self)@[0].1, final(self)@[0].0)
                    &&& final(self)@[0].0 != *output_id
                }
            },
            old(self).sound() ==> final(self).sound(),
    {
        if !connected {
            let was_primary = match self.logical.get(*output_id) {
                Some(o) => o.primary,
                None => false,
            };
            let ghost before = self.logical@;
            let removed = self.logical.remove(*output_id);
            proof {
                if removed is Some {
                    lemma_remove(before, key_index(before, *output_id));
                    lemma_index_unique(before, key_index(before, *output_id));
                }
                let rest = self.logical@;
                if old(self).sound() && !was_primary {
                    let p = choose|p: int| 0 <= p < before.len() && (#[trigger] before[p]).1.primary;
                    if removed is Some {
                        let k = key_index(before, *output_id);
                        assert(p != k);
                        let p2 = if p < k { p } else { p - 1 };
                        assert(rest[p2] == before[p]);
                        assert forall|a: int, b: int| 0 <= a < rest.len() && 0 <= b < rest.len() && (#[trigger] rest[a]).1.primary && (#[trigger] rest[b]).1.primary implies a == b by {
                            let a0 = if a < k { a } else { a + 1 };
                            let b0 = if b < k { b } else { b + 1 };
                            assert(rest[a] == before[a0] && rest[b] == before[b0]);
                        }
                    }
                }
                if self.fallback_active && removed is Some {
                    assert(before.len() == 1);
                }
            }
            if was_primary {
                if self.logical.len() > 0 {
                    let next = self.logical.key_at(0);
                    proof {
                        if self.fallback_active {
                            assert(before.len() == 1);
                        }
                    }
                    match self.set_primary(&next) {
                        Ok(()) => {},
                        Err(e) => {
                            return Err(e);
                        },
                    }
                } else {
                    self.ensure_fallback(Some(*output_id));
                    proof {
                        let f = self.logical@;
                        assert forall|a: int, b: int| 0 <= a < f.len() && 0 <= b < f.len() && (#[trigger] f[a]).1.primary && (#[trigger] f[b]).1.primary implies a == b by {}
                        assert(f[0].1.primary);
                    }
                }
            } else {
                proof {
                    if self.fallback_active && removed is Some {
                        assert(false);
                    }
                }
            }
        }
        Ok(())
    }

    /// The output under `output_id`.
    pub fn get(&self, output_id: &ObjectId) -> (r: Option<&LogicalOutput>)
        requires
            self.wf(),
        ensures
            r is None <==> !has_key(self@, *output_id),
            r matches Some(o) ==> *o == lookup(self@, *output_id),
    {
        self.logical.get(*output_id)
    }

    /// Every output, in the order they were observed.
    pub fn list(&self) -> (r: Vec<&LogicalOutput>)
        requires
            self.wf(),
        ensures
            derefs(r@) == values_of(self@),
    {
        let mut out: Vec<&LogicalOutput> = Vec::new();
        let mut i: usize = 0;
        while i < self.logical.len()
            invariant
                i <= self@.len(),
                derefs(out@) == values_of(self@.take(i as int)),
            decreases self@.len() - i,
        {
            let o = self.logical.value_at(i);
            proof {
                assert(derefs(out@.push(o)) =~= derefs(out@).push(*o));
                assert(values_of(self@.take(i + 1)) =~= values_of(self@.take(i as int)).push(*o));
            }
            out.push(o);
            i = i + 1;
        }
        proof {
            assert(self@.take(self@.len() as int) =~= self@);
        }
        out
    }

    /// The primary output (the first flagged primary).
    pub fn primary(&self) -> (r: Option<&LogicalOutput>)
        requires
            self.wf(),
        ensures
            r is None <==> forall|i: int| 0 <= i < self@.len() ==> !(#[trigger] self@[i]).1.primary,
            r matches Some(o) ==> exists|i: int| 0 <= i < self@.len() && (#[trigger] self@[i]).1 == *o && o.primary
                && forall|j: int| 0 <= j < i ==> !(#[trigger] self@[j]).1.primary,
            self.sound() ==> r is Some,
    {
        let mut i: usize = 0;
        while i < self.logical.len()
            invariant
                i <= self@.len(),
                forall|j: int| 0 <= j < i ==> !(#[trigger] self@[j]).1.primary,
            decreases self@.len() - i,
        {
            let o = self.logical.value_at(i);
            if o.primary {
                return Some(o);
            }
            i = i + 1;
        }
        None
    }

    /// Adds the virtual fallback output when there is no output at all,
    /// under a handle from the manager's counter that is not `avoid` (the
    /// handle of an output that was just unplugged).
    fn ensure_fallback(&mut self, avoid: Option<ObjectId>)
        requires
            unique_keys(old(self)@),
            old(self)@.len() > 0 ==> old(self).wf(),
        ensures
            final(self).wf(),
            old(self)@.len() > 0 ==> final(self)@ == old(self)@ && final(self).fallback() == old(self).fallback(),
            old(self)@.len() == 0 ==> final(self)@.len() == 1 && final(self).fallback()
                && is_fallback_output(final(self)@[0].1, final(self)@[0].0)
                && (avoid matches Some(a) ==> final(self)@[0].0 != a),
    {
        if !self.logical.is_empty() {
            return;
        }
        let mut raw: u64 = self.next_serial;
        if let Some(a) = avoid {
            if a.0 == raw {
                raw = if raw == u64::MAX { raw - 1 } else { raw + 1 };
            }
        }
        let id = ObjectId(raw);
        self.next_serial = raw.saturating_add(1);
        let output = LogicalOutput {
            connector_id: id,
            name: "fallback-virtual".to_string(),
            position: (0, 0),
            scale_milli: 1000,
            orientation: Orientation::Landscape,
            primary: true,
            mirror_of: None,
            mode: Some(DisplayMode { width: 1280, height: 720, refresh_rate: 60, clock: 74250 }),
        };
        self.logical.insert(id, output);
        self.fallback_active = true;
    }

    /// Removes the virtual fallback output, if it stands in.
    fn drop_fallback(&mut self)
        requires
            old(self).wf(),
        ensures
            final(self).wf(),
            !final(self).fallback(),
            old(self).fallback() ==> final(self)@ == Seq::<(ObjectId, LogicalOutput)>::empty(),
            !old(self).fallback() ==> final(self)@ == old(self)@,
    {
        if self.fallback_active {
            // The fallback is the only output; drop every output carrying
            // its name.
            let ghost orig = self.logical@;
            let mut i: usize = 0;
            let ghost mut j: int = 0;
            proof {
                reveal_with_fuel(Seq::<_>::filter, 1);
                assert(self.logical@.take(0) =~= orig.take(0).filter(|e: (ObjectId, LogicalOutput)| e.1.name@ != fallback_name()));
                assert(self.logical@.skip(0) =~= orig.skip(0));
            }
            while i < self.logical.len()
                invariant
                    unique_keys(self.logical@),
                    orig == old(self).logical@,
                    0 <= j <= orig.len(),
                    i <= self.logical@.len(),
                    self.logical@.take(i as int) == orig.take(j).filter(|e: (ObjectId, LogicalOutput)| e.1.name@ != fallback_name()),
                    self.logical@.skip(i as int) == orig.skip(j),
                decreases self.logical@.len() - i,
            {
                proof {
                    reveal_with_fuel(Seq::<_>::filter, 1);
                    assert(self.logical@.skip(i as int).len() == self.logical@.len() - i);
                    assert(orig.skip(j).len() == orig.len() - j);
                    assert(self.logical@[i as int] == orig[j]) by {
                        assert(self.logical@.skip(i as int)[0] == orig.skip(j)[0]);
                    }
                    assert(orig.take(j + 1).drop_last() =~= orig.take(j));
                }
                if str_eq(self.logical.value_at(i).name.as_str(), "fallback-virtual") {
                    let ghost before = self.logical@;
                    self.logical.remove_at(i);
                    proof {
                        assert(self.logical@.take(i as int) =~= before.take(i as int));
                        assert(self.logical@.skip(i as int) =~= before.skip(i as int).skip(1));
                        assert(orig.skip(j + 1) =~= orig.skip(j).skip(1));
                        j = j + 1;
                    }
                } else {
                    let ghost before = self.logical@;
                    proof {
                        assert(self.logical@.take(i + 1) =~= before.take(i as int).push(before[i as int]));
                        assert(self.logical@.skip(i + 1) =~= before.skip(i as int).skip(1));
                        assert(orig.skip(j + 1) =~= orig.skip(j).skip(1));
                        j = j + 1;
                    }
                    i = i + 1;
                }
            }
            proof {
                reveal_with_fuel(Seq::<_>::filter, 1);
                assert(self.logical@.skip(i as int).len() == 0);
                assert(orig.take(j) =~= orig);
                assert(self.logical@.take(i as int) =~= self.logical@);
                assert(orig.drop_last() =~= Seq::<(ObjectId, LogicalOutput)>::empty());
                assert(self.logical@ =~= Seq::<(ObjectId, LogicalOutput)>::empty());
            }
            self.fallback_active = false;
        }
    }
}

/// Changing one output's fields other than its handle and primary flag
/// keeps the manager well formed and sound.
proof fn lemma_same_flags(a: Seq<(ObjectId, LogicalOutput)>, b: Seq<(ObjectId, LogicalOutput)>, k: int)
    requires
        unique_keys(a),
        0 <= k < a.len(),
        b == a.update(k, (a[k].0, b[k].1)),
        b[k].1.primary == a[k].1.primary,
        b[k].1.name == a[k].1.name,
    ensures
        exactly_one_primary(a) ==> exactly_one_primary(b),
        forall|i: int| 0 <= i < a.len() ==> (#[trigger] b[i]).1.primary == a[i].1.primary && b[i].1.name == a[i].1.name,
{
    assert forall|i: int| 0 <= i < a.len() implies (#[trigger] b[i]).1.primary == a[i].1.primary && b[i].1.name == a[i].1.name by {
        if i != k {
            assert(b[i] == a[i]);
        }
    }
    if exactly_one_primary(a) {
        let p = choose|p: int| 0 <= p < a.len() && (#[trigger] a[p]).1.primary;
        assert(b[p].1.primary);
    }
}

/// True when `a` and `b` are the same text.
fn str_eq(a: &str, b: &str) -> (r: bool)
    ensures
        r == (a@ == b@),
{
    a.to_string() == b.to_string()
}

impl Default for OutputManager {
    fn default() -> (m: OutputManager)
        ensures
            m.wf(),
            m.sound(),
            m@.len() == 1,
    {
        OutputManager::new()
    }
}

} // verus!
