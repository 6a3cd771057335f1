//! The XWayland compatibility boundary: the mapping between X11 windows
//! (named by their 32-bit XIDs) and the Wayland surfaces that XWayland
//! created to back them.
//!
//! This is only the mapping table. XWayland itself is an ordinary Wayland
//! client; creating its surfaces is the Wayland bridge's business, and
//! `map_window` only records a mapping for a surface that already exists.

use vstd::prelude::*;
use std::collections::HashMap;
use crate::common::{ObjectId, Error, is_device_error};
use crate::idmap::{IdMap, has_key, key_index, lookup, as_map, lemma_index_unique, lemma_as_map_push,
    lemma_as_map_update, lemma_as_map_remove};
use crate::text::{decimal, join_number};

verus! {

broadcast use vstd::std_specs::hash::group_hash_axioms;

/// An X11 window identifier (an XID).
pub type X11WindowId = u32;

/// The message of the error for mapping window `xid` a second time.
pub open spec fn already_mapped_message(xid: u32) -> Seq<char> {
    "X11 window "@ + decimal(xid as nat) + " is already mapped"@
}

/// The message of the error for unmapping window `xid` that is not mapped.
pub open spec fn not_mapped_message(xid: u32) -> Seq<char> {
    "X11 window "@ + decimal(xid as nat) + " is not mapped"@
}

/// The two directions of the XID / surface mapping.
pub struct XWaylandBridge {
    window_to_surface: HashMap<u32, ObjectId>,
    surface_to_window: IdMap<u32>,
}

impl XWaylandBridge {
    /// The surface each mapped X11 window is backed by.
    pub closed spec fn windows(&self) -> Map<u32, ObjectId> {
        self.window_to_surface@
    }

    /// The X11 window each backing surface stands for.
    pub closed spec fn surfaces(&self) -> Map<ObjectId, u32> {
        as_map(self.surface_to_window@)
    }

    /// The internal tables are well formed.
    pub closed spec fn wf(&self) -> bool {
        self.surface_to_window.wf()
    }

    /// The two directions agree: each mapped window's surface maps back to
    /// that window, and each recorded surface's window maps to that surface.
    pub open spec fn consistent(&self) -> bool {
        &&& forall|xid: u32| #[trigger] self.windows().contains_key(xid)
            ==> self.surfaces().contains_key(self.windows()[xid]) && self.surfaces()[self.windows()[xid]] == xid
        &&& forall|sid: ObjectId| #[trigger] self.surfaces().contains_key(sid)
            ==> self.windows().contains_key(self.surfaces()[sid]) && self.windows()[self.surfaces()[sid]] == sid
    }

    /// A bridge with no window mapped.
    pub fn new() -> (b: XWaylandBridge)
        ensures
            b.wf(),
            b.consistent(),
            b.windows() == Map::<u32, ObjectId>::empty(),
            b.surfaces() == Map::<ObjectId, u32>::empty(),
    {
        let b = XWaylandBridge { window_to_surface: HashMap::new(), surface_to_window: IdMap::new() };
        assert(b.surfaces() =~= Map::<ObjectId, u32>::empty());
        b
    }

    /// Records that X11 window `xid` is backed by `surface_id`. A window
    /// can be mapped only once until it is unmapped.
    pub fn map_window(&mut self, xid: X11WindowId, surface_id: ObjectId) -> (r: Result<(), Error>)
        requires
            old(self).wf(),
        ensures
            final(self).wf(),
            r is Ok <==> !old(self).windows().contains_key(xid),
            r is Ok ==> final(self).windows() == old(self).windows().insert(xid, surface_id)
                && final(self).surfaces() == old(self).surfaces().insert(surface_id, xid),
            r matches Err(e) ==> is_device_error(e, already_mapped_message(xid))
                && final(self).windows() == old(self).windows()
                && final(self).surfaces() == old(self).surfaces(),
            old(self).consistent() && !old(self).surfaces().contains_key(surface_id) ==> final(self).consistent(),
    {
        if self.window_to_surface.contains_key(&xid) {
            let msg = join_number("X11 window ", "", xid as u64, " is already mapped");
            proof {
                reveal_strlit("");
                assert(msg@ =~= already_mapped_message(xid));
            }
            return Err(Error::Device(msg));
        }
        self.window_to_surface.insert(xid, surface_id);
        let ghost before = self.surface_to_window@;
        let replaced = self.surface_to_window.insert(surface_id, xid);
        proof {
            match replaced {
                Some(_) => {
                    let i = key_index(before, surface_id);
                    lemma_as_map_update(before, i, xid);
                },
                None => {
                    lemma_as_map_push(before, surface_id, xid);
                },
            }
        }
        Ok(())
    }

    /// Forgets the mapping of X11 window `xid`, in both directions.
    pub fn unmap_window(&mut self, xid: X11WindowId) -> (r: Result<(), Error>)
        requires
            old(self).wf(),
        ensures
            final(self).wf(),
            r is Ok <==> old(self).windows().contains_key(xid),
            r is Ok ==> final(self).windows() == old(self).windows().remove(xid)
                && final(self).surfaces() == old(self).surfaces().remove(old(self).windows()[xid]),
            r matches Err(e) ==> is_device_error(e, not_mapped_message(xid))
                && final(self).windows() == old(self).windows()
                && final(self).surfaces() == old(self).surfaces(),
            old(self).consistent() ==> final(self).consistent(),
    {
        let ghost old_windows = self.windows();
        let ghost old_surfaces = self.surfaces();
        match self.window_to_surface.remove(&xid) {
            Some(surface_id) => {
                let ghost before = self.surface_to_window@;
                let removed = self.surface_to_window.remove(surface_id);
                proof {
                    if removed is Some {
                        let i = key_index(before, surface_id);
                        lemma_as_map_remove(before, i);
                    } else {
                        assert(as_map(before).remove(surface_id) =~= as_map(before));
                    }
                    if old_windows.contains_key(xid) && old_surfaces.contains_key(old_windows[xid])
                        && old_surfaces[old_windows[xid]] == xid
                        && (forall|x: u32| #[trigger] old_windows.contains_key(x)
                            ==> old_surfaces.contains_key(old_windows[x]) && old_surfaces[old_windows[x]] == x)
                        && (forall|t: ObjectId| #[trigger] old_surfaces.contains_key(t)
                            ==> old_windows.contains_key(old_surfaces[t]) && old_windows[old_surfaces[t]] == t) {
                        assert forall|x: u32| #[trigger] self.windows().contains_key(x) implies
                            self.surfaces().contains_key(self.windows()[x]) && self.surfaces()[self.windows()[x]] == x by {
                            assert(old_windows.contains_key(x));
                            assert(old_windows[x] != surface_id);
                        }
                        assert forall|t: ObjectId| #[trigger] self.surfaces().contains_key(t) implies
                            self.windows().contains_key(self.surfaces()[t]) && self.windows()[self.surfaces()[t]] == t by {
                            assert(old_surfaces.contains_key(t));
                            assert(old_surfaces[t] != xid);
                        }
                    }
                }
                Ok(())
            },
            None => {
                let msg = join_number("X11 window ", "", xid as u64, " is not mapped");
                proof {
                    reveal_strlit("");
                    assert(msg@ =~= not_mapped_message(xid));
                }
                Err(Error::Device(msg))
            },
        }
    }

    /// The surface backing X11 window `xid`, if it is mapped.
    pub fn surface_for_window(&self, xid: X11WindowId) -> (r: Option<ObjectId>)
        ensures
            r == (if self.windows().contains_key(xid) {
                Some(self.windows()[xid])
            } else {
                None
            }),
    {
        match self.window_to_surface.get(&xid) {
            Some(s) => Some(*s),
            None => None,
        }
    }

    /// The X11 window that `surface_id` backs, if any.
    pub fn window_for_surface(&self, surface_id: &ObjectId) -> (r: Option<X11WindowId>)
        requires
            self.wf(),
        ensures
            r == (if self.surfaces().contains_key(*surface_id) {
                Some(self.surfaces()[*surface_id])
            } else {
                None
            }),
    {
        match self.surface_to_window.get(*surface_id) {
            Some(x) => Some(*x),
            None => None,
        }
    }

    /// The number of mapped X11 windows.
    pub fn len(&self) -> (n: usize)
        ensures
            n == self.windows().len(),
    {
        self.window_to_surface.len()
    }

    /// True when no X11 window is mapped.
    pub fn is_empty(&self) -> (b: bool)
        ensures
            b == (self.windows().len() == 0),
    {
        proof {
            if self.windows().len() == 0 {
                assert(self.windows() =~= Map::<u32, ObjectId>::empty());
            } else {
                assert(self.windows().dom().len() > 0);
                if self.windows().is_empty() {
                    assert(self.windows().dom() =~= Set::<u32>::empty());
                }
            }
        }
        self.window_to_surface.is_empty()
    }
}

impl Default for XWaylandBridge {
    fn default() -> (b: XWaylandBridge)
        ensures
            b.wf(),
            b.consistent(),
            b.windows() == Map::<u32, ObjectId>::empty(),
            b.surfaces() == Map::<ObjectId, u32>::empty(),
    {
        XWaylandBridge::new()
    }
}

/// After `xid` is mapped to a surface that backs no other window, each
/// direction of the mapping answers with the other: the window names the
/// surface and the surface names the window.
pub proof fn lemma_mapping_is_bidirectional(before: XWaylandBridge, after: XWaylandBridge, xid: u32, sid: ObjectId)
    requires
        before.consistent(),
        !before.windows().contains_key(xid),
        !before.surfaces().contains_key(sid),
        after.windows() == before.windows().insert(xid, sid),
        after.surfaces() == before.surfaces().insert(sid, xid),
    ensures
        after.consistent(),
        after.windows().contains_key(xid) && after.windows()[xid] == sid,
        after.surfaces().contains_key(sid) && after.surfaces()[sid] == xid,
{
}

} // verus!
