//! Window management: a window wraps a surface with desktop-level semantics
//! (title, layout, activation, modality) that an application never sees.

use vstd::prelude::*;
use crate::common::{ObjectId, Error, is_device_error, device_error};
use crate::idmap::{
    IdMap, has_key, lookup, key_index, set_value, without_key, values_of, derefs, keys_below,
    lemma_fresh_key, lemma_keys_below_remove, lemma_index_unique, unique_keys,
};
use crate::scene::{Point, Size};

verus! {

/// How a window is laid out.
#[derive(Clone, Copy, Debug, PartialEq, Eq, Structural)]
pub enum LayoutMode {
    Floating,
    Tiled,
    Maximized,
    Fullscreen,
}

/// The edge of an output a window is snapped to.
#[derive(Clone, Copy, Debug, PartialEq, Eq, Structural)]
pub enum SnapEdge {
    Left,
    Right,
    Top,
    Bottom,
}

/// Per-window policy overrides.
#[derive(Clone, Copy, Debug, PartialEq, Eq, Structural)]
pub struct WindowRules {
    pub force_floating: bool,
    pub always_on_top: bool,
    pub skip_taskbar: bool,
}

impl Default for WindowRules {
    fn default() -> (r: WindowRules)
        ensures
            !r.force_floating && !r.always_on_top && !r.skip_taskbar,
    {
        WindowRules { force_floating: false, always_on_top: false, skip_taskbar: false }
    }
}

/// The state of one window.
#[derive(Clone, Debug)]
pub struct WindowState {
    pub id: ObjectId,
    pub surface_id: ObjectId,
    pub app_id: String,
    pub title: String,
    pub layout: LayoutMode,
    pub position: Point,
    pub size: Size,
    pub minimized: bool,
    pub active: bool,
    pub modal: bool,
    pub transient_for: Option<ObjectId>,
    pub always_on_top: bool,
    pub rules: WindowRules,
}

/// A window as created: floating, at the origin, of zero size, shown,
/// inactive, not modal, not transient, not on top, default rules.
pub open spec fn fresh_window(w: WindowState, id: ObjectId, surface_id: ObjectId, app_id: Seq<char>, title: Seq<char>) -> bool {
    &&& w.id == id
    &&& w.surface_id == surface_id
    &&& w.app_id@ == app_id
    &&& w.title@ == title
    &&& w.layout == LayoutMode::Floating
    &&& w.position == Point { x: 0, y: 0 }
    &&& w.size == Size { width: 0, height: 0 }
    &&& !w.minimized
    &&& !w.active
    &&& !w.modal
    &&& w.transient_for is None
    &&& !w.always_on_top
    &&& w.rules == WindowRules { force_floating: false, always_on_top: false, skip_taskbar: false }
}

impl WindowState {
    /// A floating, inactive, unminimized window `id` around `surface_id`, at
    /// the origin with no size and default rules.
    fn new(id: ObjectId, surface_id: ObjectId, app_id: &str, title: &str) -> (w: WindowState)
        ensures
            fresh_window(w, id, surface_id, app_id@, title@),
    {
        WindowState {
            id,
            surface_id,
            app_id: app_id.to_string(),
            title: title.to_string(),
            layout: LayoutMode::Floating,
            position: Point::default(),
            size: Size::default(),
            minimized: false,
            active: false,
            modal: false,
            transient_for: None,
            always_on_top: false,
            rules: WindowRules::default(),
        }
    }
}

/// Half of an extent, rounded toward zero.
pub open spec fn half_extent(w: i64) -> i64 {
    if w >= 0 {
        (w / 2) as i64
    } else {
        -((-w) / 2) as i64
    }
}

/// Where a window snapped to `edge` of an output of size `output` goes.
pub open spec fn snap_position(edge: SnapEdge, output: Size) -> Point {
    match edge {
        SnapEdge::Right => Point { x: half_extent(output.width), y: 0 },
        _ => Point { x: 0, y: 0 },
    }
}

/// The windows of `s` whose application is `app_id`, in order.
pub open spec fn app_windows(s: Seq<(ObjectId, WindowState)>, app_id: Seq<char>) -> Seq<WindowState> {
    values_of(s).filter(|w: WindowState| w.app_id@ == app_id)
}

/// Owns every window, keyed by handle, and which one is active.
pub struct WindowManager {
    windows: IdMap<WindowState>,
    active_window: Option<ObjectId>,
    next_serial: u64,
}

impl WindowManager {
    /// The windows and their handles, in creation order.
    pub closed spec fn view(&self) -> Seq<(ObjectId, WindowState)> {
        self.windows@
    }

    /// The active window, if any.
    pub closed spec fn active(&self) -> Option<ObjectId> {
        self.active_window
    }

    /// Handles are distinct and below the next handle to be issued; every
    /// window carries its own handle; the active window exists, and a window
    /// is flagged active exactly when it is the active one.
    pub open spec fn wf(&self) -> bool {
        &&& unique_keys(self@)
        &&& self.consistent()
    }

    /// Handles are below the next one to be issued; every window carries its
    /// own handle; the active window exists, and a window is flagged active
    /// exactly when it is the active one.
    pub closed spec fn consistent(&self) -> bool {
        &&& keys_below(self.windows@, self.next_serial)
        &&& forall|i: int| 0 <= i < self.windows@.len() ==> (#[trigger] self.windows@[i]).1.id == self.windows@[i].0
        &&& forall|i: int| 0 <= i < self.windows@.len() ==>
            ((#[trigger] self.windows@[i]).1.active <==> self.active_window == Some(self.windows@[i].0))
        &&& (self.active_window matches Some(a) ==> has_key(self.windows@, a))
    }

    /// The manager can still issue a handle.
    pub open spec fn can_create(&self) -> bool {
        self.handles_left() > 0
    }

    /// How many more handles the counter can issue.
    pub closed spec fn handles_left(&self) -> nat {
        (u64::MAX - self.next_serial) as nat
    }

    /// A manager with no window.
    pub fn new() -> (m: WindowManager)
        ensures
            m.wf(),
            m.handles_left() == u64::MAX - 1,
            m@ == Seq::<(ObjectId, WindowState)>::empty(),
            m.active() is None,
    {
        WindowManager { windows: IdMap::new(), active_window: None, next_serial: 1 }
    }

    /// Creates a window around `surface_id` under a handle the manager has
    /// never issued, and returns that handle.
    pub fn create_window(&mut self, surface_id: ObjectId, app_id: &str, title: &str) -> (id: ObjectId)
        requires
            old(self).wf(),
            old(self).can_create(),
        ensures
            final(self).wf(),
            final(self).handles_left() == old(self).handles_left() - 1,
            !has_key(old(self)@, id),
            final(self)@.len() == old(self)@.len() + 1,
            final(self)@.drop_last() == old(self)@,
            final(self)@.last().0 == id,
            fresh_window(final(self)@.last().1, id, surface_id, app_id@, title@),
            final(self).active() == old(self).active(),
    {
        let id = ObjectId(self.next_serial);
        proof {
            lemma_fresh_key(self.windows@, self.next_serial, id);
        }
        let window = WindowState::new(id, surface_id, app_id, title);
        self.windows.insert(id, window);
        self.next_serial = self.next_serial + 1;
        proof {
            assert(self.windows@.drop_last() =~= old(self)@);
            assert forall|i: int| 0 <= i < self.windows@.len() implies
                ((#[trigger] self.windows@[i]).1.active <==> self.active_window == Some(self.windows@[i].0)) by {
                if i < old(self)@.len() {
                    assert(self.windows@[i] == old(self)@[i]);
                }
            }
            assert forall|i: int| 0 <= i < self.windows@.len() implies (#[trigger] self.windows@[i]).1.id == self.windows@[i].0 by {
                if i < old(self)@.len() {
                    assert(self.windows@[i] == old(self)@[i]);
                }
            }
            if let Some(a) = self.active_window {
                let k = choose|k: int| 0 <= k < old(self)@.len() && #[trigger] old(self)@[k].0 == a;
                assert(self.windows@[k] == old(self)@[k]);
            }
        }
        id
    }

    /// Destroys the window under `id`; if it was the active one, no window is
    /// active any more.
    pub fn destroy_window(&mut self, id: &ObjectId) -> (r: Result<(), Error>)
        requires
            old(self).wf(),
        ensures
            final(self).wf(),
            final(self).handles_left() == old(self).handles_left(),
            r is Ok <==> has_key(old(self)@, *id),
            r is Ok ==> final(self)@ == without_key(old(self)@, *id) && final(self).active() == (
                if old(self).active() == Some(*id) { None } else { old(self).active() }),
            r matches Err(e) ==> final(self)@ == old(self)@ && final(self).active() == old(self).active()
                && is_device_error(e, "window not found"@),
    {
        match self.windows.remove(*id) {
            Some(_) => {
                let ghost k = key_index(old(self)@, *id);
                proof {
                    lemma_keys_below_remove(old(self)@, self.next_serial, k);
                    lemma_index_unique(old(self)@, k);
                }
                if self.active_window == Some(*id) {
                    self.active_window = None;
                }
                proof {
                    assert forall|i: int| 0 <= i < self.windows@.len() implies
                        ((#[trigger] self.windows@[i]).1.active <==> self.active_window == Some(self.windows@[i].0))
                        && self.windows@[i].1.id == self.windows@[i].0 by {
                        if i < k {
                            assert(self.windows@[i] == old(self)@[i]);
                        } else {
                            assert(self.windows@[i] == old(self)@[i + 1]);
                            assert(old(self)@[i + 1].0 != old(self)@[k].0);
                        }
                    }
                    if let Some(a) = self.active_window {
                        let j = choose|j: int| 0 <= j < old(self)@.len() && #[trigger] old(self)@[j].0 == a;
                        assert(j != k);
                        if j < k {
                            assert(self.windows@[j] == old(self)@[j]);
                        } else {
                            assert(self.windows@[j - 1] == old(self)@[j]);
                        }
                    }
                }
                Ok(())
            },
            None => Err(device_error("window not found")),
        }
    }

    /// The window under `id`.
    pub fn get(&self, id: &ObjectId) -> (r: Option<&WindowState>)
        requires
            self.wf(),
        ensures
            r is None <==> !has_key(self@, *id),
            r matches Some(w) ==> *w == lookup(self@, *id),
    {
        self.windows.get(*id)
    }

    /// Makes the window under `id` the active one: it alone is flagged
    /// active afterwards.
    pub fn activate(&mut self, id: &ObjectId) -> (r: Result<(), Error>)
        requires
            old(self).wf(),
        ensures
            final(self).wf(),
            final(self).handles_left() == old(self).handles_left(),
            r is Ok <==> has_key(old(self)@, *id),
            r is Ok ==> final(self).active() == Some(*id) && final(self)@.len() == old(self)@.len()
                && forall|i: int| 0 <= i < old(self)@.len() ==> (#[trigger] final(self)@[i]).0 == old(self)@[i].0
                    && final(self)@[i].1 == (WindowState { active: old(self)@[i].0 == *id, ..old(self)@[i].1 }),
            r matches Err(e) ==> final(self)@ == old(self)@ && final(self).active() == old(self).active()
                && is_device_error(e, "window not found"@),
    {
        if !self.windows.contains_key(*id) {
            return Err(device_error("window not found"));
        }
        let ghost mid = self.windows@;
        match self.active_window {
            Some(prev) => {
                match self.windows.get_mut(prev) {
                    Some(w) => {
                        w.active = false;
                    },
                    None => {},
                }
            },
            None => {},
        }
        let ghost after_prev = self.windows@;
        let target = self.windows.get_mut(*id);
        match target {
            Some(w) => {
                w.active = true;
            },
            None => {},
        }
        self.active_window = Some(*id);
        proof {
            assert forall|i: int| 0 <= i < old(self)@.len() implies (#[trigger] self.windows@[i]).0 == old(self)@[i].0
                && self.windows@[i].1 == (WindowState { active: old(self)@[i].0 == *id, ..old(self)@[i].1 }) by {
                lemma_index_unique(old(self)@, i);
                if let Some(prev) = old(self).active_window {
                    lemma_index_unique(after_prev, i);
                }
            }
            assert forall|i: int| 0 <= i < self.windows@.len() implies
                ((#[trigger] self.windows@[i]).1.active <==> self.active_window == Some(self.windows@[i].0))
                && self.windows@[i].1.id == self.windows@[i].0 by {
                assert(self.windows@[i].0 == old(self)@[i].0);
            }
            assert(has_key(self.windows@, *id)) by {
                let k = key_index(old(self)@, *id);
                assert(self.windows@[k].0 == *id);
            }
        }
        Ok(())
    }

    /// The active window, if any.
    pub fn active_window(&self) -> (r: Option<ObjectId>)
        ensures
            r == self.active(),
    {
        self.active_window
    }

    /// Minimizes the window under `id`.
    pub fn minimize(&mut self, id: &ObjectId) -> (r: Result<(), Error>)
        requires
            old(self).wf(),
        ensures
            final(self).wf(),
            final(self).handles_left() == old(self).handles_left(),
            final(self).active() == old(self).active(),
            r is Ok <==> has_key(old(self)@, *id),
            r is Ok ==> final(self)@ == set_value(old(self)@, *id, WindowState { minimized: true, ..lookup(old(self)@, *id) }),
            r matches Err(e) ==> final(self)@ == old(self)@ && is_device_error(e, "window not found"@),
    {
        match self.windows.get_mut(*id) {
            Some(w) => {
                w.minimized = true;
                proof { self.lemma_update_keeps_wf(old(self)@); }
                Ok(())
            },
            None => Err(device_error("window not found")),
        }
    }

    /// Un-minimizes the window under `id`.
    pub fn restore(&mut self, id: &ObjectId) -> (r: Result<(), Error>)
        requires
            old(self).wf(),
        ensures
            final(self).wf(),
            final(self).handles_left() == old(self).handles_left(),
            final(self).active() == old(self).active(),
            r is Ok <==> has_key(old(self)@, *id),
            r is Ok ==> final(self)@ == set_value(old(self)@, *id, WindowState { minimized: false, ..lookup(old(self)@, *id) }),
            r matches Err(e) ==> final(self)@ == old(self)@ && is_device_error(e, "window not found"@),
    {
        match self.windows.get_mut(*id) {
            Some(w) => {
                w.minimized = false;
                proof { self.lemma_update_keeps_wf(old(self)@); }
                Ok(())
            },
            None => Err(device_error("window not found")),
        }
    }

    /// Sets the layout of the window under `id`.
    pub fn set_layout(&mut self, id: &ObjectId, layout: LayoutMode) -> (r: Result<(), Error>)
        requires
            old(self).wf(),
        ensures
            final(self).wf(),
            final(self).handles_left() == old(self).handles_left(),
            final(self).active() == old(self).active(),
            r is Ok <==> has_key(old(self)@, *id),
            r is Ok ==> final(self)@ == set_value(old(self)@, *id, WindowState { layout, ..lookup(old(self)@, *id) }),
            r matches Err(e) ==> final(self)@ == old(self)@ && is_device_error(e, "window not found"@),
    {
        match self.windows.get_mut(*id) {
            Some(w) => {
                w.layout = layout;
                proof { self.lemma_update_keeps_wf(old(self)@); }
                Ok(())
            },
            None => Err(device_error("window not found")),
        }
    }

    /// Moves the window under `id`; a fullscreen or maximized window does not
    /// move.
    pub fn move_to(&mut self, id: &ObjectId, position: Point) -> (r: Result<(), Error>)
        requires
            old(self).wf(),
        ensures
            final(self).wf(),
            final(self).handles_left() == old(self).handles_left(),
            final(self).active() == old(self).active(),
            r is Ok <==> has_key(old(self)@, *id) && lookup(old(self)@, *id).layout != LayoutMode::Fullscreen
                && lookup(old(self)@, *id).layout != LayoutMode::Maximized,
            r is Ok ==> final(self)@ == set_value(old(self)@, *id, WindowState { position, ..lookup(old(self)@, *id) }),
            r matches Err(e) ==> final(self)@ == old(self)@ && (if has_key(old(self)@, *id) {
                is_device_error(e, "cannot move a fullscreen or maximized window"@)
            } else {
                is_device_error(e, "window not found"@)
            }),
    {
        match self.windows.get_mut(*id) {
            Some(w) => {
                if w.layout == LayoutMode::Fullscreen || w.layout == LayoutMode::Maximized {
                    proof { self.lemma_update_keeps_wf(old(self)@); }
                    return Err(device_error("cannot move a fullscreen or maximized window"));
                }
                w.position = position;
                proof { self.lemma_update_keeps_wf(old(self)@); }
                Ok(())
            },
            None => Err(device_error("window not found")),
        }
    }

    /// Resizes the window under `id`.
    pub fn resize_to(&mut self, id: &ObjectId, size: Size) -> (r: Result<(), Error>)
        requires
            old(self).wf(),
        ensures
            final(self).wf(),
            final(self).handles_left() == old(self).handles_left(),
            final(self).active() == old(self).active(),
            r is Ok <==> has_key(old(self)@, *id),
            r is Ok ==> final(self)@ == set_value(old(self)@, *id, WindowState { size, ..lookup(old(self)@, *id) }),
            r matches Err(e) ==> final(self)@ == old(self)@ && is_device_error(e, "window not found"@),
    {
        match self.windows.get_mut(*id) {
            Some(w) => {
                w.size = size;
                proof { self.lemma_update_keeps_wf(old(self)@); }
                Ok(())
            },
            None => Err(device_error("window not found")),
        }
    }

    /// Tiles the window under `id` into the half of an output of size
    /// `output_size` at `edge`: half the output's width, its full height,
    /// placed at the left (or, for `Right`, at the middle).
    pub fn snap(&mut self, id: &ObjectId, edge: SnapEdge, output_size: Size) -> (r: Result<(), Error>)
        requires
            old(self).wf(),
        ensures
            final(self).wf(),
            final(self).handles_left() == old(self).handles_left(),
            final(self).active() == old(self).active(),
            r is Ok <==> has_key(old(self)@, *id),
            r is Ok ==> final(self)@ == set_value(
                old(self)@,
                *id,
                WindowState {
                    layout: LayoutMode::Tiled,
                    size: Size { width: half_extent(output_size.width), height: output_size.height },
                    position: snap_position(edge, output_size),
                    ..lookup(old(self)@, *id)
                },
            ),
            r matches Err(e) ==> final(self)@ == old(self)@ && is_device_error(e, "window not found"@),
    {
        let half = Size { width: output_size.width / 2, height: output_size.height };
        match self.windows.get_mut(*id) {
            Some(w) => {
                w.layout = LayoutMode::Tiled;
                w.size = half;
                w.position = match edge {
                    SnapEdge::Left => Point { x: 0, y: 0 },
                    SnapEdge::Right => Point { x: half.width, y: 0 },
                    SnapEdge::Top | SnapEdge::Bottom => Point { x: 0, y: 0 },
                };
                proof { self.lemma_update_keeps_wf(old(self)@); }
                Ok(())
            },
            None => Err(device_error("window not found")),
        }
    }

    /// Makes the window under `id` modal for `transient_for`.
    pub fn set_modal(&mut self, id: &ObjectId, transient_for: ObjectId) -> (r: Result<(), Error>)
        requires
            old(self).wf(),
        ensures
            final(self).wf(),
            final(self).handles_left() == old(self).handles_left(),
            final(self).active() == old(self).active(),
            r is Ok <==> has_key(old(self)@, *id),
            r is Ok ==> final(self)@ == set_value(
                old(self)@,
                *id,
                WindowState { modal: true, transient_for: Some(transient_for), ..lookup(old(self)@, *id) },
            ),
            r matches Err(e) ==> final(self)@ == old(self)@ && is_device_error(e, "window not found"@),
    {
        match self.windows.get_mut(*id) {
            Some(w) => {
                w.modal = true;
                w.transient_for = Some(transient_for);
                proof { self.lemma_update_keeps_wf(old(self)@); }
                Ok(())
            },
            None => Err(device_error("window not found")),
        }
    }

    /// The windows of application `app_id`, in creation order.
    pub fn windows_for_app(&self, app_id: &str) -> (r: Vec<&WindowState>)
        requires
            self.wf(),
        ensures
            derefs(r@) == app_windows(self@, app_id@),
    {
        let wanted = app_id.to_string();
        let mut out: Vec<&WindowState> = Vec::new();
        let mut i: usize = 0;
        proof {
            reveal_with_fuel(Seq::<_>::filter, 1);
            assert(values_of(self@.take(0)) =~= Seq::<WindowState>::empty());
            assert(derefs(out@) =~= Seq::<WindowState>::empty());
        }
        while i < self.windows.len()
            invariant
                i <= self@.len(),
                wanted@ == app_id@,
                derefs(out@) == app_windows(self@.take(i as int), app_id@),
            decreases self@.len() - i,
        {
            let w = self.windows.value_at(i);
            proof {
                reveal_with_fuel(Seq::<_>::filter, 1);
                assert(values_of(self@.take(i + 1)).drop_last() =~= values_of(self@.take(i as int)));
                assert(values_of(self@.take(i + 1)).last() == *w);
            }
            if w.app_id == wanted {
                proof {
                    assert(derefs(out@.push(w)) =~= derefs(out@).push(*w));
                }
                out.push(w);
            }
            i = i + 1;
        }
        proof {
            assert(self@.take(self@.len() as int) =~= self@);
        }
        out
    }

    /// The number of windows.
    pub fn len(&self) -> (n: usize)
        ensures
            n == self@.len(),
    {
        self.windows.len()
    }

    /// After a field of one window other than its handle and activity changed
    /// in place, the manager is still well formed.
    proof fn lemma_update_keeps_wf(&self, before: Seq<(ObjectId, WindowState)>)
        requires
            self.windows.wf(),
            keys_below(before, self.next_serial),
            before.len() == self.windows@.len(),
            forall|i: int| 0 <= i < before.len() ==> (#[trigger] before[i]).1.id == before[i].0,
            forall|i: int| 0 <= i < before.len() ==>
                ((#[trigger] before[i]).1.active <==> self.active_window == Some(before[i].0)),
            self.active_window matches Some(a) ==> has_key(before, a),
            forall|i: int| 0 <= i < before.len() ==> (#[trigger] self.windows@[i]).0 == before[i].0
                && self.windows@[i].1.id == before[i].1.id && self.windows@[i].1.active == before[i].1.active,
        ensures
            self.wf(),
    {
        assert forall|i: int| 0 <= i < self.windows@.len() implies (#[trigger] self.windows@[i]).0.0 < self.next_serial by {
            assert(before[i].0.0 < self.next_serial);
        }
        if let Some(a) = self.active_window {
            let k = choose|k: int| 0 <= k < before.len() && #[trigger] before[k].0 == a;
            assert(self.windows@[k].0 == a);
        }
        assert forall|i: int| 0 <= i < self.windows@.len() implies
            ((#[trigger] self.windows@[i]).1.active <==> self.active_window == Some(self.windows@[i].0))
            && self.windows@[i].1.id == self.windows@[i].0 by {
            assert(before[i].1.active <==> self.active_window == Some(before[i].0));
        }
    }
}

impl Default for WindowManager {
    fn default() -> (m: WindowManager)
        ensures
            m.wf(),
            m.handles_left() == u64::MAX - 1,
            m@ == Seq::<(ObjectId, WindowState)>::empty(),
            m.active() is None,
    {
        WindowManager::new()
    }
}

/// At most one window is flagged active, and it is the active window.
pub proof fn lemma_single_active_window(m: &WindowManager, i: int, j: int)
    requires
        m.wf(),
        0 <= i < m@.len(),
        0 <= j < m@.len(),
        m@[i].1.active,
        m@[j].1.active,
    ensures
        i == j,
        m.active() == Some(m@[i].0),
{
    lemma_index_unique(m@, i);
    lemma_index_unique(m@, j);
}

} // verus!
