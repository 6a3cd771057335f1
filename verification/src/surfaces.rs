//! Application surfaces: the compositor's view of a client's drawable
//! content. Tracks buffer attachment, damage, clipping and per-surface frame
//! callbacks; window semantics live in `windows`.

use vstd::prelude::*;
use crate::common::{ObjectId, Error, is_device_error, device_error};
use crate::idmap::{
    IdMap, has_key, lookup, key_index, set_value, without_key, values_of, derefs, keys_below,
    lemma_fresh_key, lemma_keys_below_remove, lemma_remove, unique_keys,
};
use crate::scene::Rect;

verus! {

/// The role a client gave a surface.
#[derive(Clone, Copy, Debug, PartialEq, Eq, Structural)]
pub enum SurfaceRole {
    Toplevel,
    Popup,
    Cursor,
    Subsurface,
}

/// The state of one surface. `scale_milli` and `opacity_milli` are in
/// thousandths (`1000` is `1.0`).
#[derive(Clone, Debug)]
pub struct SurfaceState {
    pub id: ObjectId,
    pub client_id: ObjectId,
    pub role: SurfaceRole,
    pub buffer_id: Option<ObjectId>,
    pub width: u32,
    pub height: u32,
    pub scale_milli: i64,
    pub opacity_milli: u16,
    pub clip: Option<Rect>,
    pub visible: bool,
    pub damage: Vec<Rect>,
    /// Set once per commit; cleared after the compositor delivers the frame
    /// callback so the client knows it can draw the next frame.
    pub frame_callback_pending: bool,
}

/// A surface as created: no buffer, zero size, scale one, opaque, unclipped,
/// visible, undamaged, no frame callback pending.
pub open spec fn fresh_surface(s: SurfaceState, id: ObjectId, client_id: ObjectId, role: SurfaceRole) -> bool {
    &&& s.id == id
    &&& s.client_id == client_id
    &&& s.role == role
    &&& s.buffer_id is None
    &&& s.width == 0
    &&& s.height == 0
    &&& s.scale_milli == 1000
    &&& s.opacity_milli == 1000
    &&& s.clip is None
    &&& s.visible
    &&& s.damage@ == Seq::<Rect>::empty()
    &&& !s.frame_callback_pending
}

impl SurfaceState {
    /// A fresh surface `id` of `client_id` in role `role`: no buffer, no
    /// size, scale and opacity one, unclipped, visible, undamaged.
    fn new(id: ObjectId, client_id: ObjectId, role: SurfaceRole) -> (s: SurfaceState)
        ensures
            fresh_surface(s, id, client_id, role),
    {
        SurfaceState {
            id,
            client_id,
            role,
            buffer_id: None,
            width: 0,
            height: 0,
            scale_milli: 1000,
            opacity_milli: 1000,
            clip: None,
            visible: true,
            damage: Vec::new(),
            frame_callback_pending: false,
        }
    }
}

/// The surfaces of `s` that belong to `client`, in order.
pub open spec fn client_surfaces(s: Seq<(ObjectId, SurfaceState)>, client: ObjectId) -> Seq<SurfaceState> {
    values_of(s).filter(|v: SurfaceState| v.client_id == client)
}

/// The entries of `s` that do not belong to `client`, in order.
pub open spec fn entries_not_of_client(s: Seq<(ObjectId, SurfaceState)>, client: ObjectId) -> Seq<(ObjectId, SurfaceState)> {
    s.filter(|e: (ObjectId, SurfaceState)| e.1.client_id != client)
}

/// The opacity, in thousandths, that a requested opacity is clamped to.
pub open spec fn clamped_opacity(opacity_milli: i32) -> u16 {
    if opacity_milli < 0 {
        0
    } else if opacity_milli > 1000 {
        1000
    } else {
        opacity_milli as u16
    }
}

/// Owns every surface, keyed by handle.
pub struct SurfaceManager {
    surfaces: IdMap<SurfaceState>,
    next_serial: u64,
}

impl SurfaceManager {
    /// The surfaces and their handles, in creation order.
    pub closed spec fn view(&self) -> Seq<(ObjectId, SurfaceState)> {
        self.surfaces@
    }

    /// Handles are distinct and below the next handle to be issued.
    pub open spec fn wf(&self) -> bool {
        &&& unique_keys(self@)
        &&& self.serials_below()
    }

    /// Every handle is below the next handle to be issued.
    pub closed spec fn serials_below(&self) -> bool {
        keys_below(self.surfaces@, self.next_serial)
    }

    /// The manager can still issue a handle.
    pub open spec fn can_create(&self) -> bool {
        self.handles_left() > 0
    }

    /// How many more handles the counter can issue.
    pub closed spec fn handles_left(&self) -> nat {
        (u64::MAX - self.next_serial) as nat
    }

    /// An empty manager.
    pub fn new() -> (m: SurfaceManager)
        ensures
            m.wf(),
            m.handles_left() == u64::MAX - 1,
            m@ == Seq::<(ObjectId, SurfaceState)>::empty(),
    {
        SurfaceManager { surfaces: IdMap::new(), next_serial: 1 }
    }

    /// Creates a surface for `client_id` under a handle the manager has never
    /// issued, and returns that handle.
    pub fn create_surface(&mut self, client_id: ObjectId, role: SurfaceRole) -> (id: ObjectId)
        requires
            old(self).wf(),
            old(self).can_create(),
        ensures
            final(self).wf(),
            final(self).handles_left() == old(self).handles_left() - 1,
            !has_key(old(self)@, id),
            final(self)@.len() == old(self)@.len() + 1,
            final(self)@.drop_last() == old(self)@,
            final(self)@.last().0 == id,
            fresh_surface(final(self)@.last().1, id, client_id, role),
    {
        let id = ObjectId(self.next_serial);
        proof {
            lemma_fresh_key(self.surfaces@, self.next_serial, id);
        }
        let surface = SurfaceState::new(id, client_id, role);
        self.surfaces.insert(id, surface);
        self.next_serial = self.next_serial + 1;
        proof {
            assert(self.surfaces@.drop_last() =~= old(self)@);
        }
        id
    }

    /// Destroys the surface under `id`.
    pub fn destroy_surface(&mut self, id: &ObjectId) -> (r: Result<(), Error>)
        requires
            old(self).wf(),
        ensures
            final(self).wf(),
            final(self).handles_left() == old(self).handles_left(),
            r is Ok <==> has_key(old(self)@, *id),
            r is Ok ==> final(self)@ == without_key(old(self)@, *id),
            r matches Err(e) ==> final(self)@ == old(self)@ && is_device_error(e, "surface not found"@),
    {
        match self.surfaces.remove(*id) {
            Some(_) => {
                proof {
                    lemma_keys_below_remove(old(self)@, self.next_serial, key_index(old(self)@, *id));
                }
                Ok(())
            },
            None => Err(device_error("surface not found")),
        }
    }

    /// The surface under `id`.
    pub fn get(&self, id: &ObjectId) -> (r: Option<&SurfaceState>)
        requires
            self.wf(),
        ensures
            r is None <==> !has_key(self@, *id),
            r matches Some(s) ==> *s == lookup(self@, *id),
    {
        self.surfaces.get(*id)
    }

    /// Sets the size of the surface under `id`.
    pub fn resize(&mut self, id: &ObjectId, width: u32, height: u32) -> (r: Result<(), Error>)
        requires
            old(self).wf(),
        ensures
            final(self).wf(),
            final(self).handles_left() == old(self).handles_left(),
            r is Ok <==> has_key(old(self)@, *id),
            r is Ok ==> final(self)@ == set_value(
                old(self)@,
                *id,
                SurfaceState { width, height, ..lookup(old(self)@, *id) },
            ),
            r matches Err(e) ==> final(self)@ == old(self)@ && is_device_error(e, "surface not found"@),
    {
        match self.surfaces.get_mut(*id) {
            Some(surface) => {
                surface.width = width;
                surface.height = height;
                Ok(())
            },
            None => Err(device_error("surface not found")),
        }
    }

    /// Attaches `buffer_id` to the surface under `id`.
    pub fn attach_buffer(&mut self, id: &ObjectId, buffer_id: ObjectId) -> (r: Result<(), Error>)
        requires
            old(self).wf(),
        ensures
            final(self).wf(),
            final(self).handles_left() == old(self).handles_left(),
            r is Ok <==> has_key(old(self)@, *id),
            r is Ok ==> final(self)@ == set_value(
                old(self)@,
                *id,
                SurfaceState { buffer_id: Some(buffer_id), ..lookup(old(self)@, *id) },
            ),
            r matches Err(e) ==> final(self)@ == old(self)@ && is_device_error(e, "surface not found"@),
    {
        match self.surfaces.get_mut(*id) {
            Some(surface) => {
                surface.buffer_id = Some(buffer_id);
                Ok(())
            },
            None => Err(device_error("surface not found")),
        }
    }

    /// Records `region` as damaged on the surface under `id`.
    pub fn damage(&mut self, id: &ObjectId, region: Rect) -> (r: Result<(), Error>)
        requires
            old(self).wf(),
        ensures
            final(self).wf(),
            final(self).handles_left() == old(self).handles_left(),
            r is Ok <==> has_key(old(self)@, *id),
            r is Ok ==> final(self)@.len() == old(self)@.len() && final(self)@[key_index(old(self)@, *id)].0 == *id
                && final(self)@[key_index(old(self)@, *id)].1.damage@ == lookup(old(self)@, *id).damage@.push(region)
                && same_except_damage(final(self)@[key_index(old(self)@, *id)].1, lookup(old(self)@, *id))
                && (forall|i: int| 0 <= i < old(self)@.len() && i != key_index(old(self)@, *id)
                    ==> #[trigger] final(self)@[i] == old(self)@[i]),
            r matches Err(e) ==> final(self)@ == old(self)@ && is_device_error(e, "surface not found"@),
    {
        match self.surfaces.get_mut(*id) {
            Some(surface) => {
                surface.damage.push(region);
                Ok(())
            },
            None => Err(device_error("surface not found")),
        }
    }

    /// Commits the surface under `id`: hands back the damage accumulated since
    /// the last commit, in order, clears the accumulated damage and the buffer
    /// attachment, and arms its frame callback.
    pub fn commit(&mut self, id: &ObjectId) -> (r: Result<Vec<Rect>, Error>)
        requires
            old(self).wf(),
        ensures
            final(self).wf(),
            final(self).handles_left() == old(self).handles_left(),
            r is Ok <==> has_key(old(self)@, *id),
            r matches Ok(d) ==> d@ == lookup(old(self)@, *id).damage@
                && final(self)@.len() == old(self)@.len() && final(self)@[key_index(old(self)@, *id)].0 == *id
                && final(self)@[key_index(old(self)@, *id)].1.damage@ == Seq::<Rect>::empty()
                && final(self)@[key_index(old(self)@, *id)].1.frame_callback_pending
                && final(self)@[key_index(old(self)@, *id)].1.buffer_id is None
                && same_but_pending_state(final(self)@[key_index(old(self)@, *id)].1, lookup(old(self)@, *id))
                && (forall|i: int| 0 <= i < old(self)@.len() && i != key_index(old(self)@, *id)
                    ==> #[trigger] final(self)@[i] == old(self)@[i]),
            r matches Err(e) ==> final(self)@ == old(self)@ && is_device_error(e, "surface not found"@),
    {
        match self.surfaces.get_mut(*id) {
            Some(surface) => {
                let mut drained: Vec<Rect> = Vec::new();
                std::mem::swap(&mut drained, &mut surface.damage);
                surface.buffer_id = None;
                surface.frame_callback_pending = true;
                Ok(drained)
            },
            None => Err(device_error("surface not found")),
        }
    }

    /// Marks the frame callback of the surface under `id` as delivered.
    pub fn ack_frame_callback(&mut self, id: &ObjectId) -> (r: Result<(), Error>)
        requires
            old(self).wf(),
        ensures
            final(self).wf(),
            final(self).handles_left() == old(self).handles_left(),
            r is Ok <==> has_key(old(self)@, *id),
            r is Ok ==> final(self)@.len() == old(self)@.len() && final(self)@[key_index(old(self)@, *id)].0 == *id
                && !final(self)@[key_index(old(self)@, *id)].1.frame_callback_pending
                && final(self)@[key_index(old(self)@, *id)].1.damage@ == lookup(old(self)@, *id).damage@
                && same_except_damage_and_callback(final(self)@[key_index(old(self)@, *id)].1, lookup(old(self)@, *id))
                && (forall|i: int| 0 <= i < old(self)@.len() && i != key_index(old(self)@, *id)
                    ==> #[trigger] final(self)@[i] == old(self)@[i]),
            r matches Err(e) ==> final(self)@ == old(self)@ && is_device_error(e, "surface not found"@),
    {
        match self.surfaces.get_mut(*id) {
            Some(surface) => {
                surface.frame_callback_pending = false;
                Ok(())
            },
            None => Err(device_error("surface not found")),
        }
    }

    /// Sets the opacity of the surface under `id`, in thousandths, clamped to
    /// `0..=1000`.
    pub fn set_opacity(&mut self, id: &ObjectId, opacity_milli: i32) -> (r: Result<(), Error>)
        requires
            old(self).wf(),
        ensures
            final(self).wf(),
            final(self).handles_left() == old(self).handles_left(),
            r is Ok <==> has_key(old(self)@, *id),
            r is Ok ==> final(self)@ == set_value(
                old(self)@,
                *id,
                SurfaceState { opacity_milli: clamped_opacity(opacity_milli), ..lookup(old(self)@, *id) },
            ),
            r matches Err(e) ==> final(self)@ == old(self)@ && is_device_error(e, "surface not found"@),
    {
        let clamped: u16 = if opacity_milli < 0 {
            0
        } else if opacity_milli > 1000 {
            1000
        } else {
            opacity_milli as u16
        };
        match self.surfaces.get_mut(*id) {
            Some(surface) => {
                surface.opacity_milli = clamped;
                Ok(())
            },
            None => Err(device_error("surface not found")),
        }
    }

    /// Shows or hides the surface under `id`.
    pub fn set_visible(&mut self, id: &ObjectId, visible: bool) -> (r: Result<(), Error>)
        requires
            old(self).wf(),
        ensures
            final(self).wf(),
            final(self).handles_left() == old(self).handles_left(),
            r is Ok <==> has_key(old(self)@, *id),
            r is Ok ==> final(self)@ == set_value(
                old(self)@,
                *id,
                SurfaceState { visible, ..lookup(old(self)@, *id) },
            ),
            r matches Err(e) ==> final(self)@ == old(self)@ && is_device_error(e, "surface not found"@),
    {
        match self.surfaces.get_mut(*id) {
            Some(surface) => {
                surface.visible = visible;
                Ok(())
            },
            None => Err(device_error("surface not found")),
        }
    }

    /// The surfaces that belong to `client_id`, in creation order.
    pub fn surfaces_for_client(&self, client_id: &ObjectId) -> (r: Vec<&SurfaceState>)
        requires
            self.wf(),
        ensures
            derefs(r@) == client_surfaces(self@, *client_id),
    {
        let mut out: Vec<&SurfaceState> = Vec::new();
        let mut i: usize = 0;
        proof {
            reveal_with_fuel(Seq::<_>::filter, 1);
            assert(values_of(self@.take(0)) =~= Seq::<SurfaceState>::empty());
            assert(derefs(out@) =~= Seq::<SurfaceState>::empty());
        }
        while i < self.surfaces.len()
            invariant
                i <= self@.len(),
                derefs(out@) == client_surfaces(self@.take(i as int), *client_id),
            decreases self@.len() - i,
        {
            let s = self.surfaces.value_at(i);
            proof {
                reveal_with_fuel(Seq::<_>::filter, 1);
                assert(values_of(self@.take(i + 1)).drop_last() =~= values_of(self@.take(i as int)));
                assert(values_of(self@.take(i + 1)).last() == *s);
            }
            if s.client_id == *client_id {
                proof {
                    assert(derefs(out@.push(s)) =~= derefs(out@).push(*s));
                }
                out.push(s);
            }
            i = i + 1;
        }
        proof {
            assert(self@.take(self@.len() as int) =~= self@);
        }
        out
    }

    /// Destroys every surface that belongs to `client_id`, keeping the others
    /// in order.
    pub fn destroy_surfaces_for_client(&mut self, client_id: &ObjectId)
        requires
            old(self).wf(),
        ensures
            final(self).wf(),
            final(self).handles_left() == old(self).handles_left(),
            final(self)@ == entries_not_of_client(old(self)@, *client_id),
    {
        let ghost orig = self@;
        let mut i: usize = 0;
        let ghost mut j: int = 0;
        proof {
            reveal_with_fuel(Seq::<_>::filter, 1);
            assert(self@.take(0) =~= entries_not_of_client(orig.take(0), *client_id));
            assert(self@.skip(0) =~= orig.skip(0));
        }
        while i < self.surfaces.len()
            invariant
                self.wf(),
                self.next_serial == old(self).next_serial,
                orig == old(self)@,
                0 <= j <= orig.len(),
                i <= self@.len(),
                self@.take(i as int) == entries_not_of_client(orig.take(j), *client_id),
                self@.skip(i as int) == orig.skip(j),
            decreases self@.len() - i,
        {
            proof {
                reveal_with_fuel(Seq::<_>::filter, 1);
                assert(self@.skip(i as int).len() == self@.len() - i);
                assert(orig.skip(j).len() == orig.len() - j);
                assert(j < orig.len());
                assert(self@[i as int] == orig[j]) by {
                    assert(self@.skip(i as int)[0] == orig.skip(j)[0]);
                }
                assert(orig.take(j + 1).drop_last() =~= orig.take(j));
            }
            if self.surfaces.value_at(i).client_id == *client_id {
                let ghost before = self@;
                proof {
                    lemma_keys_below_remove(self@, self.next_serial, i as int);
                }
                self.surfaces.remove_at(i);
                proof {
                    assert(self@.take(i as int) =~= before.take(i as int));
                    assert(self@.skip(i as int) =~= before.skip(i as int).skip(1));
                    assert(orig.skip(j + 1) =~= orig.skip(j).skip(1));
                    j = j + 1;
                }
            } else {
                let ghost before = self@;
                proof {
                    assert(self@.take(i + 1) =~= before.take(i as int).push(before[i as int]));
                    assert(self@.skip(i + 1) =~= before.skip(i as int).skip(1));
                    assert(orig.skip(j + 1) =~= orig.skip(j).skip(1));
                    j = j + 1;
                }
                i = i + 1;
            }
        }
        proof {
            assert(self@.skip(i as int).len() == 0);
            assert(j == orig.len());
            assert(orig.take(j) =~= orig);
            assert(self@.take(i as int) =~= self@);
        }
    }

    /// The number of surfaces.
    pub fn len(&self) -> (n: usize)
        ensures
            n == self@.len(),
    {
        self.surfaces.len()
    }

    /// True when there is no surface.
    pub fn is_empty(&self) -> (b: bool)
        ensures
            b == (self@.len() == 0),
    {
        self.surfaces.is_empty()
    }
}

/// `a` and `b` agree on every field but the damage list.
pub open spec fn same_except_damage(a: SurfaceState, b: SurfaceState) -> bool {
    &&& a.id == b.id
    &&& a.client_id == b.client_id
    &&& a.role == b.role
    &&& a.buffer_id == b.buffer_id
    &&& a.width == b.width
    &&& a.height == b.height
    &&& a.scale_milli == b.scale_milli
    &&& a.opacity_milli == b.opacity_milli
    &&& a.clip == b.clip
    &&& a.visible == b.visible
    &&& a.frame_callback_pending == b.frame_callback_pending
}

/// `a` and `b` agree on every field but the damage list and the pending
/// frame callback.
pub open spec fn same_except_damage_and_callback(a: SurfaceState, b: SurfaceState) -> bool {
    &&& a.id == b.id
    &&& a.client_id == b.client_id
    &&& a.role == b.role
    &&& a.buffer_id == b.buffer_id
    &&& a.width == b.width
    &&& a.height == b.height
    &&& a.scale_milli == b.scale_milli
    &&& a.opacity_milli == b.opacity_milli
    &&& a.clip == b.clip
    &&& a.visible == b.visible
}

/// `a` and `b` agree on every field but the pending state a commit
/// consumes: the damage list, the attached buffer and the frame callback.
pub open spec fn same_but_pending_state(a: SurfaceState, b: SurfaceState) -> bool {
    &&& a.id == b.id
    &&& a.client_id == b.client_id
    &&& a.role == b.role
    &&& a.width == b.width
    &&& a.height == b.height
    &&& a.scale_milli == b.scale_milli
    &&& a.opacity_milli == b.opacity_milli
    &&& a.clip == b.clip
    &&& a.visible == b.visible
}

impl Default for SurfaceManager {
    fn default() -> (m: SurfaceManager)
        ensures
            m.wf(),
            m.handles_left() == u64::MAX - 1,
            m@ == Seq::<(ObjectId, SurfaceState)>::empty(),
    {
        SurfaceManager::new()
    }
}

} // verus!
