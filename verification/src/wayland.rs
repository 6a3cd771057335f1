//! The Wayland compatibility boundary: translates Wayland-shaped protocol
//! steps (connect, create surface, attach buffer, commit, destroy) into calls
//! against the display server's own state.
//!
//! The bridge does not own a `Compositor` or a `WindowManager`: every step
//! that touches scene, surface or window state takes them as parameters. What
//! it owns is protocol bookkeeping only: which surfaces belong to which
//! client, and which scene node and window each surface maps to. Client
//! connections and buffer allocation belong to the Wayland transport, which
//! the embedding program drives; the bridge takes their results.

use vstd::prelude::*;
use crate::common::{ObjectId, Error, is_device_error, device_error};
use crate::idmap::{
    IdMap, has_key, lookup, key_index, unique_keys, without_key, keys_below, lemma_fresh_key,
    lemma_keys_below_remove, lemma_index_unique, set_value,
};
use crate::scene::{NodeKind, Rect, SceneNode, SceneGraph, fresh_node};
use crate::surfaces::{SurfaceRole, SurfaceState, SurfaceManager};
use crate::windows::{WindowManager, WindowState};
use crate::compositor::Compositor;

verus! {

/// What the bridge records about one client.
#[derive(Debug)]
pub struct ClientBookkeeping {
    /// The surfaces the client created, in creation order.
    pub surfaces: Vec<ObjectId>,
}

/// The scene-node kind that stands for a surface of the given role.
pub open spec fn node_kind_for(role: SurfaceRole) -> NodeKind {
    match role {
        SurfaceRole::Toplevel => NodeKind::Window,
        SurfaceRole::Popup => NodeKind::Popover,
        SurfaceRole::Cursor => NodeKind::Cursor,
        SurfaceRole::Subsurface => NodeKind::Window,
    }
}

/// `s` without the entry under `k`, if there is one.
pub open spec fn removed_key<V>(s: Seq<(ObjectId, V)>, k: ObjectId) -> Seq<(ObjectId, V)> {
    if has_key(s, k) { without_key(s, k) } else { s }
}

/// Everything that tearing surfaces down reads and changes: the bridge's
/// tables, and the scene nodes, surfaces and windows they point into.
pub struct TeardownState {
    pub clients: Seq<(ObjectId, ClientBookkeeping)>,
    pub surface_nodes: Seq<(ObjectId, ObjectId)>,
    pub surface_windows: Seq<(ObjectId, ObjectId)>,
    pub surface_clients: Seq<(ObjectId, ObjectId)>,
    pub scene: Seq<(ObjectId, SceneNode)>,
    pub surfaces: Seq<(ObjectId, SurfaceState)>,
    pub windows: Seq<(ObjectId, WindowState)>,
    pub active_window: Option<ObjectId>,
}

/// The outcome of tearing down surface `sid` from state `st`: the state
/// after, and the message of the error it stopped at, if any.
///
/// In order: the surface's window is unmapped and destroyed; its scene node
/// is unmapped and removed; its owner is forgotten; the surface itself is
/// destroyed. A window, node or surface that cannot be found stops the
/// teardown there.
pub open spec fn teardown_step(st: TeardownState, sid: ObjectId) -> (TeardownState, Option<Seq<char>>) {
    let st1 = TeardownState { surface_windows: removed_key(st.surface_windows, sid), ..st };
    if has_key(st.surface_windows, sid) && !has_key(st.windows, lookup(st.surface_windows, sid)) {
        (st1, Some("window not found"@))
    } else {
        let st2 = if has_key(st.surface_windows, sid) {
            let w = lookup(st.surface_windows, sid);
            TeardownState {
                windows: without_key(st.windows, w),
                active_window: if st.active_window == Some(w) { None } else { st.active_window },
                ..st1
            }
        } else {
            st1
        };
        let st3 = TeardownState { surface_nodes: removed_key(st2.surface_nodes, sid), ..st2 };
        if has_key(st2.surface_nodes, sid) && !has_key(st2.scene, lookup(st2.surface_nodes, sid)) {
            (st3, Some("scene node not found"@))
        } else {
            let st4 = if has_key(st2.surface_nodes, sid) {
                TeardownState { scene: without_key(st3.scene, lookup(st2.surface_nodes, sid)), ..st3 }
            } else {
                st3
            };
            let st5 = TeardownState { surface_clients: removed_key(st4.surface_clients, sid), ..st4 };
            if !has_key(st5.surfaces, sid) {
                (st5, Some("surface not found"@))
            } else {
                (TeardownState { surfaces: without_key(st5.surfaces, sid), ..st5 }, None)
            }
        }
    }
}

/// The outcome of tearing down the surfaces of `sids`, in order, stopping at
/// the first error.
pub open spec fn teardown_all(st: TeardownState, sids: Seq<ObjectId>) -> (TeardownState, Option<Seq<char>>)
    decreases sids.len(),
{
    if sids.len() == 0 {
        (st, None)
    } else {
        let prev = teardown_all(st, sids.drop_last());
        if prev.1 is Some {
            prev
        } else {
            teardown_step(prev.0, sids.last())
        }
    }
}

/// Once tearing down a prefix of `sids` has stopped at an error, tearing
/// down all of `sids` stops at the same place.
pub proof fn lemma_teardown_stops(st: TeardownState, sids: Seq<ObjectId>, n: int)
    requires
        0 <= n <= sids.len(),
        teardown_all(st, sids.take(n)).1 is Some,
    ensures
        teardown_all(st, sids) == teardown_all(st, sids.take(n)),
    decreases sids.len() - n,
{
    if n == sids.len() {
        assert(sids.take(n) =~= sids);
    } else {
        assert(sids.take(n + 1).drop_last() =~= sids.take(n));
        lemma_teardown_stops(st, sids, n + 1);
    }
}

/// All the tables of `st` have distinct handles.
pub open spec fn tables_unique(st: TeardownState) -> bool {
    &&& unique_keys(st.clients)
    &&& unique_keys(st.surface_nodes)
    &&& unique_keys(st.surface_windows)
    &&& unique_keys(st.surface_clients)
    &&& unique_keys(st.scene)
    &&& unique_keys(st.surfaces)
    &&& unique_keys(st.windows)
}

/// `b` has no handle that `a` lacks, and keeps the value of every handle
/// it kept.
pub open spec fn shrunk<V>(a: Seq<(ObjectId, V)>, b: Seq<(ObjectId, V)>) -> bool {
    forall|k: ObjectId| #[trigger] has_key(b, k) ==> has_key(a, k) && lookup(b, k) == lookup(a, k)
}

/// Removing under `k`, if present, only shrinks a table, and leaves no
/// entry under `k`.
proof fn lemma_removed_key<V>(s: Seq<(ObjectId, V)>, k: ObjectId)
    requires
        unique_keys(s),
    ensures
        unique_keys(removed_key(s, k)),
        shrunk(s, removed_key(s, k)),
        !has_key(removed_key(s, k), k),
        forall|k2: ObjectId| k2 != k && has_key(s, k2) ==> #[trigger] has_key(removed_key(s, k), k2),
{
    if has_key(s, k) {
        crate::idmap::lemma_remove(s, key_index(s, k));
        lemma_index_unique(s, key_index(s, k));
    }
}

proof fn lemma_shrunk_trans<V>(a: Seq<(ObjectId, V)>, b: Seq<(ObjectId, V)>, c: Seq<(ObjectId, V)>)
    requires
        shrunk(a, b),
        shrunk(b, c),
    ensures
        shrunk(a, c),
{
}

proof fn lemma_shrunk_refl<V>(a: Seq<(ObjectId, V)>)
    ensures
        shrunk(a, a),
{
}

/// One teardown step only shrinks the tables; when it succeeds, nothing is
/// left under the surface's handle, nor under its node's and window's.
proof fn lemma_step_shrinks(st: TeardownState, sid: ObjectId)
    requires
        tables_unique(st),
    ensures
        ({
            let out = teardown_step(st, sid);
            &&& tables_unique(out.0)
            &&& out.0.clients == st.clients
            &&& shrunk(st.surface_nodes, out.0.surface_nodes)
            &&& shrunk(st.surface_windows, out.0.surface_windows)
            &&& shrunk(st.surface_clients, out.0.surface_clients)
            &&& shrunk(st.scene, out.0.scene)
            &&& shrunk(st.surfaces, out.0.surfaces)
            &&& shrunk(st.windows, out.0.windows)
            &&& (forall|k: ObjectId| k != sid && has_key(st.surface_nodes, k) ==> #[trigger] has_key(out.0.surface_nodes, k))
            &&& (forall|k: ObjectId| k != sid && has_key(st.surface_windows, k) ==> #[trigger] has_key(out.0.surface_windows, k))
            &&& (out.1 is None ==> {
                &&& !has_key(out.0.surfaces, sid)
                &&& !has_key(out.0.surface_nodes, sid)
                &&& !has_key(out.0.surface_windows, sid)
                &&& !has_key(out.0.surface_clients, sid)
                &&& (has_key(st.surface_nodes, sid) ==> !has_key(out.0.scene, lookup(st.surface_nodes, sid)))
                &&& (has_key(st.surface_windows, sid) ==> !has_key(out.0.windows, lookup(st.surface_windows, sid)))
            })
        }),
{
    lemma_removed_key(st.surface_windows, sid);
    lemma_removed_key(st.surface_nodes, sid);
    lemma_removed_key(st.surface_clients, sid);
    lemma_removed_key(st.surfaces, sid);
    lemma_shrunk_refl(st.scene);
    lemma_shrunk_refl(st.windows);
    lemma_shrunk_refl(st.surfaces);
    lemma_shrunk_refl(st.surface_nodes);
    lemma_shrunk_refl(st.surface_clients);
    if has_key(st.surface_windows, sid) {
        lemma_removed_key(st.windows, lookup(st.surface_windows, sid));
    }
    if has_key(st.surface_nodes, sid) {
        lemma_removed_key(st.scene, lookup(st.surface_nodes, sid));
    }
}

/// Once a handle is gone from a table, shrinking keeps it gone.
proof fn lemma_gone_stays_gone<V>(a: Seq<(ObjectId, V)>, b: Seq<(ObjectId, V)>, k: ObjectId)
    requires
        shrunk(a, b),
        !has_key(a, k),
    ensures
        !has_key(b, k),
{
}

/// A successful teardown of the surfaces `sids` leaves no trace of any of
/// them: each surface is gone from the compositor and from every table of
/// the bridge, and the scene node and window it was mapped to at the start
/// are gone too.
pub proof fn lemma_teardown_leaves_no_orphans(st: TeardownState, sids: Seq<ObjectId>)
    requires
        tables_unique(st),
        teardown_all(st, sids).1 is None,
    ensures
        tables_unique(teardown_all(st, sids).0),
        shrunk(st.surface_nodes, teardown_all(st, sids).0.surface_nodes),
        shrunk(st.surface_windows, teardown_all(st, sids).0.surface_windows),
        shrunk(st.surface_clients, teardown_all(st, sids).0.surface_clients),
        shrunk(st.scene, teardown_all(st, sids).0.scene),
        shrunk(st.surfaces, teardown_all(st, sids).0.surfaces),
        shrunk(st.windows, teardown_all(st, sids).0.windows),
        forall|k: ObjectId| !sids.contains(k) && has_key(st.surface_nodes, k)
            ==> #[trigger] has_key(teardown_all(st, sids).0.surface_nodes, k),
        forall|k: ObjectId| !sids.contains(k) && has_key(st.surface_windows, k)
            ==> #[trigger] has_key(teardown_all(st, sids).0.surface_windows, k),
        forall|j: int| 0 <= j < sids.len() ==> {
            let f = teardown_all(st, sids).0;
            &&& !has_key(f.surfaces, #[trigger] sids[j])
            &&& !has_key(f.surface_nodes, sids[j])
            &&& !has_key(f.surface_windows, sids[j])
            &&& !has_key(f.surface_clients, sids[j])
            &&& (has_key(st.surface_nodes, sids[j]) ==> !has_key(f.scene, lookup(st.surface_nodes, sids[j])))
            &&& (has_key(st.surface_windows, sids[j]) ==> !has_key(f.windows, lookup(st.surface_windows, sids[j])))
        },
    decreases sids.len(),
{
    if sids.len() == 0 {
        lemma_shrunk_refl(st.scene);
        lemma_shrunk_refl(st.windows);
        lemma_shrunk_refl(st.surfaces);
        lemma_shrunk_refl(st.surface_nodes);
        lemma_shrunk_refl(st.surface_windows);
        lemma_shrunk_refl(st.surface_clients);
    } else {
        let init = sids.drop_last();
        let last = sids.last();
        lemma_teardown_leaves_no_orphans(st, init);
        let mid = teardown_all(st, init).0;
        lemma_step_shrinks(mid, last);
        let f = teardown_all(st, sids).0;
        lemma_shrunk_trans(st.surface_nodes, mid.surface_nodes, f.surface_nodes);
        lemma_shrunk_trans(st.surface_windows, mid.surface_windows, f.surface_windows);
        lemma_shrunk_trans(st.surface_clients, mid.surface_clients, f.surface_clients);
        lemma_shrunk_trans(st.scene, mid.scene, f.scene);
        lemma_shrunk_trans(st.surfaces, mid.surfaces, f.surfaces);
        lemma_shrunk_trans(st.windows, mid.windows, f.windows);
        assert forall|j: int| 0 <= j < sids.len() implies {
            &&& !has_key(f.surfaces, #[trigger] sids[j])
            &&& !has_key(f.surface_nodes, sids[j])
            &&& !has_key(f.surface_windows, sids[j])
            &&& !has_key(f.surface_clients, sids[j])
            &&& (has_key(st.surface_nodes, sids[j]) ==> !has_key(f.scene, lookup(st.surface_nodes, sids[j])))
            &&& (has_key(st.surface_windows, sids[j]) ==> !has_key(f.windows, lookup(st.surface_windows, sids[j])))
        } by {
            if j < init.len() {
                assert(init[j] == sids[j]);
                lemma_gone_stays_gone(mid.surfaces, f.surfaces, sids[j]);
                lemma_gone_stays_gone(mid.surface_nodes, f.surface_nodes, sids[j]);
                lemma_gone_stays_gone(mid.surface_windows, f.surface_windows, sids[j]);
                lemma_gone_stays_gone(mid.surface_clients, f.surface_clients, sids[j]);
                if has_key(st.surface_nodes, sids[j]) {
                    lemma_gone_stays_gone(mid.scene, f.scene, lookup(st.surface_nodes, sids[j]));
                }
                if has_key(st.surface_windows, sids[j]) {
                    lemma_gone_stays_gone(mid.windows, f.windows, lookup(st.surface_windows, sids[j]));
                }
            } else {
                assert(sids[j] == last);
                if init.contains(last) {
                    let m = choose|m: int| 0 <= m < init.len() && init[m] == last;
                    assert(!has_key(mid.surfaces, init[m]));
                }
            }
        }
        assert forall|k: ObjectId| !sids.contains(k) && has_key(st.surface_nodes, k)
            implies #[trigger] has_key(f.surface_nodes, k) by {
            assert(!init.contains(k)) by {
                if init.contains(k) {
                    let m = choose|m: int| 0 <= m < init.len() && init[m] == k;
                    assert(sids[m] == k);
                }
            }
            assert(k != last) by {
                assert(sids[sids.len() - 1] == last);
            }
        }
        assert forall|k: ObjectId| !sids.contains(k) && has_key(st.surface_windows, k)
            implies #[trigger] has_key(f.surface_windows, k) by {
            assert(!init.contains(k)) by {
                if init.contains(k) {
                    let m = choose|m: int| 0 <= m < init.len() && init[m] == k;
                    assert(sids[m] == k);
                }
            }
            assert(k != last) by {
                assert(sids[sids.len() - 1] == last);
            }
        }
    }
}

/// Holds of every handle but `sid`.
pub open spec fn other_than(sid: ObjectId) -> spec_fn(ObjectId) -> bool {
    |x: ObjectId| x != sid
}

/// `after` is the client table `before` with surface `sid` taken off the
/// list of client `owner` (when `owner` is connected), every other entry
/// unchanged.
pub open spec fn detached(
    before: Seq<(ObjectId, ClientBookkeeping)>,
    after: Seq<(ObjectId, ClientBookkeeping)>,
    owner: ObjectId,
    sid: ObjectId,
) -> bool {
    &&& after.len() == before.len()
    &&& forall|i: int| 0 <= i < before.len() ==> (#[trigger] after[i]).0 == before[i].0
    &&& forall|i: int| 0 <= i < before.len() ==> (#[trigger] after[i]).1.surfaces@ == (
        if has_key(before, owner) && i == key_index(before, owner) {
            before[i].1.surfaces@.filter(other_than(sid))
        } else {
            before[i].1.surfaces@
        })
}

/// Surface `sid` left no trace in going from `before` to `after`: the
/// surface, its entries in the bridge's tables, and the scene node and
/// window it was mapped to in `before` are all gone.
pub open spec fn left_no_trace(before: TeardownState, after: TeardownState, sid: ObjectId) -> bool {
    &&& !has_key(after.surfaces, sid)
    &&& !has_key(after.surface_nodes, sid)
    &&& !has_key(after.surface_windows, sid)
    &&& !has_key(after.surface_clients, sid)
    &&& (has_key(before.surface_nodes, sid) ==> !has_key(after.scene, lookup(before.surface_nodes, sid)))
    &&& (has_key(before.surface_windows, sid) ==> !has_key(after.windows, lookup(before.surface_windows, sid)))
}

/// Translates Wayland protocol steps into display-server state changes.
pub struct WaylandBridge {
    clients: IdMap<ClientBookkeeping>,
    /// Surface handle -> its scene node.
    surface_nodes: IdMap<ObjectId>,
    /// Surface handle -> the window wrapping it, if any.
    surface_windows: IdMap<ObjectId>,
    /// Surface handle -> its owning client.
    surface_clients: IdMap<ObjectId>,
    next_serial: u64,
}

impl WaylandBridge {
    /// The connected clients and what is recorded about them.
    pub closed spec fn clients_view(&self) -> Seq<(ObjectId, ClientBookkeeping)> {
        self.clients@
    }

    /// Surface handle -> scene node handle.
    pub closed spec fn nodes_view(&self) -> Seq<(ObjectId, ObjectId)> {
        self.surface_nodes@
    }

    /// Surface handle -> window handle.
    pub closed spec fn windows_view(&self) -> Seq<(ObjectId, ObjectId)> {
        self.surface_windows@
    }

    /// Surface handle -> client handle.
    pub closed spec fn owners_view(&self) -> Seq<(ObjectId, ObjectId)> {
        self.surface_clients@
    }

    /// The tables have distinct handles, and client handles are below the
    /// next one to be issued.
    pub open spec fn wf(&self) -> bool {
        &&& unique_keys(self.clients_view())
        &&& unique_keys(self.nodes_view())
        &&& unique_keys(self.windows_view())
        &&& unique_keys(self.owners_view())
        &&& self.serials_below()
    }

    /// Every client handle is below the next one to be issued.
    pub closed spec fn serials_below(&self) -> bool {
        keys_below(self.clients@, self.next_serial)
    }

    /// The bridge can still issue a client handle.
    pub open spec fn can_connect(&self) -> bool {
        self.handles_left() > 0
    }

    /// How many more handles the counter can issue.
    pub closed spec fn handles_left(&self) -> nat {
        (u64::MAX - self.next_serial) as nat
    }

    /// The state that tearing surfaces down works on.
    pub open spec fn teardown_state(&self, c: &Compositor, w: &WindowManager) -> TeardownState {
        TeardownState {
            clients: self.clients_view(),
            surface_nodes: self.nodes_view(),
            surface_windows: self.windows_view(),
            surface_clients: self.owners_view(),
            scene: c.scene_graph()@,
            surfaces: c.surface_manager()@,
            windows: w@,
            active_window: w.active(),
        }
    }

    /// A bridge with no client.
    pub fn new() -> (b: WaylandBridge)
        ensures
            b.wf(),
            b.handles_left() == u64::MAX - 1,
            b.clients_view().len() == 0,
            b.nodes_view().len() == 0,
            b.windows_view().len() == 0,
            b.owners_view().len() == 0,
    {
        WaylandBridge {
            clients: IdMap::new(),
            surface_nodes: IdMap::new(),
            surface_windows: IdMap::new(),
            surface_clients: IdMap::new(),
            next_serial: 1,
        }
    }

    /// Records a newly connected client under a handle the bridge has never
    /// issued, with no surfaces, and returns that handle.
    pub fn connect_client(&mut self) -> (id: ObjectId)
        requires
            old(self).wf(),
            old(self).can_connect(),
        ensures
            final(self).wf(),
            final(self).handles_left() == old(self).handles_left() - 1,
            !has_key(old(self).clients_view(), id),
            final(self).clients_view().len() == old(self).clients_view().len() + 1,
            final(self).clients_view().drop_last() == old(self).clients_view(),
            final(self).clients_view().last().0 == id,
            final(self).clients_view().last().1.surfaces@ == Seq::<ObjectId>::empty(),
            final(self).nodes_view() == old(self).nodes_view(),
            final(self).windows_view() == old(self).windows_view(),
            final(self).owners_view() == old(self).owners_view(),
    {
        let id = ObjectId(self.next_serial);
        proof {
            lemma_fresh_key(self.clients@, self.next_serial, id);
        }
        self.clients.insert(id, ClientBookkeeping { surfaces: Vec::new() });
        self.next_serial = self.next_serial + 1;
        proof {
            assert(self.clients@.drop_last() =~= old(self).clients@);
        }
        id
    }

    /// Forgets `client_id` after tearing down every surface it created, in
    /// creation order, so that no surface of it is left behind. Stops at the
    /// first surface whose teardown fails.
    pub fn disconnect_client(
        &mut self,
        compositor: &mut Compositor,
        windows: &mut WindowManager,
        client_id: &ObjectId,
    ) -> (r: Result<(), Error>)
        requires
            old(self).wf(),
            old(compositor).wf(),
            old(windows).wf(),
        ensures
            final(self).wf(),
            final(compositor).wf(),
            final(windows).wf(),
            final(compositor).schedules_view() == old(compositor).schedules_view(),
            final(compositor).scene_graph().handles_left() == old(compositor).scene_graph().handles_left(),
            final(compositor).surface_manager().handles_left() == old(compositor).surface_manager().handles_left(),
            final(windows).handles_left() == old(windows).handles_left(),
            final(self).handles_left() == old(self).handles_left(),
            !has_key(old(self).clients_view(), *client_id) ==> {
                &&& r matches Err(e) && is_device_error(e, "client not found"@)
                &&& final(self).teardown_state(final(compositor), final(windows))
                    == old(self).teardown_state(old(compositor), old(windows))
            },
            has_key(old(self).clients_view(), *client_id) ==> {
                let st0 = old(self).teardown_state(old(compositor), old(windows));
                let st1 = TeardownState { clients: without_key(st0.clients, *client_id), ..st0 };
                let out = teardown_all(st1, lookup(old(self).clients_view(), *client_id).surfaces@);
                &&& final(self).teardown_state(final(compositor), final(windows)) == out.0
                &&& (r is Ok <==> out.1 is None)
                &&& (r matches Err(e) ==> out.1 matches Some(m) && is_device_error(e, m))
            },
            r is Ok ==> !has_key(final(self).clients_view(), *client_id),
            r is Ok ==> forall|j: int| 0 <= j < lookup(old(self).clients_view(), *client_id).surfaces@.len() ==> left_no_trace(
                old(self).teardown_state(old(compositor), old(windows)),
                final(self).teardown_state(final(compositor), final(windows)),
                #[trigger] lookup(old(self).clients_view(), *client_id).surfaces@[j],
            ),
    {
        let bookkeeping = match self.clients.remove(*client_id) {
            Some(b) => b,
            None => {
                return Err(device_error("client not found"));
            },
        };
        proof {
            lemma_keys_below_remove(old(self).clients@, self.next_serial, key_index(old(self).clients@, *client_id));
        }
        let ghost st1 = self.teardown_state(compositor, windows);
        let ghost sids = bookkeeping.surfaces@;
        let mut i: usize = 0;
        proof {
            assert(sids.take(0) =~= Seq::<ObjectId>::empty());
        }
        while i < bookkeeping.surfaces.len()
            invariant
                self.wf(),
                compositor.wf(),
                windows.wf(),
                compositor.schedules_view() == old(compositor).schedules_view(),
                compositor.scene_graph().handles_left() == old(compositor).scene_graph().handles_left(),
                compositor.surface_manager().handles_left() == old(compositor).surface_manager().handles_left(),
                windows.handles_left() == old(windows).handles_left(),
                self.handles_left() == old(self).handles_left(),
                sids == bookkeeping.surfaces@,
                has_key(old(self).clients_view(), *client_id),
                self.clients_view() == without_key(old(self).clients_view(), *client_id),
                sids == lookup(old(self).clients_view(), *client_id).surfaces@,
                st1 == (TeardownState {
                    clients: without_key(old(self).clients_view(), *client_id),
                    ..old(self).teardown_state(old(compositor), old(windows))
                }),
                i <= sids.len(),
                teardown_all(st1, sids.take(i as int)) == (self.teardown_state(compositor, windows), None::<Seq<char>>),
            decreases sids.len() - i,
        {
            let sid = bookkeeping.surfaces[i];
            let ghost before = self.teardown_state(compositor, windows);
            let res = self.teardown_surface(compositor, windows, &sid);
            proof {
                assert(sids.take(i + 1).drop_last() =~= sids.take(i as int));
                assert(sids.take(i + 1).last() == sid);
            }
            match res {
                Ok(()) => {},
                Err(e) => {
                    proof {
                        lemma_teardown_stops(st1, sids, i + 1);
                    }
                    return Err(e);
                },
            }
            i = i + 1;
        }
        proof {
            assert(sids.take(sids.len() as int) =~= sids);
            crate::idmap::lemma_remove(old(self).clients@, key_index(old(self).clients@, *client_id));
            lemma_teardown_leaves_no_orphans(st1, sids);
            lemma_index_unique(old(self).clients@, key_index(old(self).clients@, *client_id));
            assert(!has_key(self.clients@, *client_id));
        }
        Ok(())
    }

    /// Creates a surface for client `client_id`, and a scene node for it on
    /// output `output_id`, mirroring `wl_compositor.create_surface`. The new
    /// surface starts without a window: an entry left in the window table
    /// under its handle (possible only when a surface was destroyed through
    /// the compositor behind the bridge's back) is dropped.
    pub fn create_surface(
        &mut self,
        compositor: &mut Compositor,
        client_id: ObjectId,
        output_id: ObjectId,
        role: SurfaceRole,
    ) -> (r: Result<ObjectId, Error>)
        requires
            old(self).wf(),
            old(compositor).wf(),
            old(compositor).surface_manager().can_create(),
            old(compositor).scene_graph().can_insert(),
        ensures
            final(self).wf(),
            final(compositor).wf(),
            final(compositor).schedules_view() == old(compositor).schedules_view(),
            final(self).handles_left() == old(self).handles_left(),
            !has_key(old(self).clients_view(), client_id) ==> {
                &&& r matches Err(e) && is_device_error(e, "client not found"@)
                &&& final(self).windows_view() == old(self).windows_view()
                &&& final(self).clients_view() == old(self).clients_view()
                &&& final(self).nodes_view() == old(self).nodes_view()
                &&& final(self).owners_view() == old(self).owners_view()
                &&& final(compositor).scene_graph() == old(compositor).scene_graph()
                &&& final(compositor).surface_manager() == old(compositor).surface_manager()
            },
            has_key(old(self).clients_view(), client_id) ==> {
                let ss = old(compositor).surface_manager()@;
                let g = old(compositor).scene_graph()@;
                let fs = final(compositor).surface_manager()@;
                let fg = final(compositor).scene_graph()@;
                r matches Ok(sid) && {
                    let nid = fg.last().0;
                    &&& !has_key(ss, sid)
                    &&& fs.drop_last() == ss && fs.len() == ss.len() + 1 && fs.last().0 == sid
                    &&& crate::surfaces::fresh_surface(fs.last().1, sid, client_id, role)
                    &&& !has_key(g, nid)
                    &&& fg == g.push((nid, SceneNode { id: nid, output_id: Some(output_id), ..fresh_node(node_kind_for(role)) }))
                    &&& final(self).nodes_view() == inserted(old(self).nodes_view(), sid, nid)
                    &&& final(self).owners_view() == inserted(old(self).owners_view(), sid, client_id)
                    &&& final(self).windows_view() == removed_key(old(self).windows_view(), sid)
                    &&& !has_key(final(self).windows_view(), sid)
                    &&& final(compositor).surface_manager().handles_left() == old(compositor).surface_manager().handles_left() - 1
                    &&& final(compositor).scene_graph().handles_left() == old(compositor).scene_graph().handles_left() - 1
                    &&& client_gained(old(self).clients_view(), final(self).clients_view(), client_id, sid)
                }
            },
    {
        if !self.clients.contains_key(client_id) {
            return Err(device_error("client not found"));
        }
        let surface_id = compositor.surfaces_mut().create_surface(client_id, role);
        let mut node = SceneNode::new(
            match role {
                SurfaceRole::Toplevel => NodeKind::Window,
                SurfaceRole::Popup => NodeKind::Popover,
                SurfaceRole::Cursor => NodeKind::Cursor,
                SurfaceRole::Subsurface => NodeKind::Window,
            },
        );
        node.output_id = Some(output_id);
        let node_id = compositor.scene_mut().insert(node);
        self.surface_nodes.insert(surface_id, node_id);
        self.surface_clients.insert(surface_id, client_id);
        self.surface_windows.remove(surface_id);
        proof {
            if has_key(old(self).windows_view(), surface_id) {
                crate::idmap::lemma_remove(old(self).windows_view(), key_index(old(self).windows_view(), surface_id));
                lemma_index_unique(old(self).windows_view(), key_index(old(self).windows_view(), surface_id));
            }
        }
        let ghost before = self.clients@;
        match self.clients.get_mut(client_id) {
            Some(bookkeeping) => {
                bookkeeping.surfaces.push(surface_id);
            },
            None => {},
        }
        proof {
            lemma_index_unique(before, key_index(before, client_id));
            assert forall|i: int| 0 <= i < self.clients@.len() implies (#[trigger] self.clients@[i]).0.0 < self.next_serial by {
                assert(self.clients@[i].0 == before[i].0);
            }
        }
        Ok(surface_id)
    }

    /// Wraps the surface under `surface_id` with window semantics (the
    /// xdg-toplevel step): creates a window for it and records the mapping.
    pub fn create_toplevel_window(
        &mut self,
        windows: &mut WindowManager,
        surface_id: ObjectId,
        app_id: &str,
        title: &str,
    ) -> (r: Result<ObjectId, Error>)
        requires
            old(self).wf(),
            old(windows).wf(),
            old(windows).can_create(),
        ensures
            final(self).wf(),
            final(windows).wf(),
            final(self).clients_view() == old(self).clients_view(),
            final(self).nodes_view() == old(self).nodes_view(),
            final(self).owners_view() == old(self).owners_view(),
            final(self).handles_left() == old(self).handles_left(),
            !has_key(old(self).nodes_view(), surface_id) ==> {
                &&& r matches Err(e) && is_device_error(e, "surface not found"@)
                &&& final(self).windows_view() == old(self).windows_view()
                &&& final(windows)@ == old(windows)@
                &&& final(windows).handles_left() == old(windows).handles_left()
                &&& final(windows).active() == old(windows).active()
            },
            has_key(old(self).nodes_view(), surface_id) ==> (r matches Ok(wid) && {
                &&& !has_key(old(windows)@, wid)
                &&& final(windows)@.drop_last() == old(windows)@
                &&& final(windows)@.len() == old(windows)@.len() + 1
                &&& final(windows)@.last().0 == wid
                &&& final(windows).handles_left() == old(windows).handles_left() - 1
                &&& crate::windows::fresh_window(final(windows)@.last().1, wid, surface_id, app_id@, title@)
                &&& final(windows).active() == old(windows).active()
                &&& final(self).windows_view() == inserted(old(self).windows_view(), surface_id, wid)
            }),
    {
        if !self.surface_nodes.contains_key(surface_id) {
            return Err(device_error("surface not found"));
        }
        let window_id = windows.create_window(surface_id, app_id, title);
        self.surface_windows.insert(surface_id, window_id);
        Ok(window_id)
    }

    /// `wl_surface.attach` with a resize: gives the surface under
    /// `surface_id` the size of the buffer `buffer_id` (allocated by the
    /// transport), then attaches that buffer. Returns the buffer's handle.
    pub fn attach_buffer(
        &mut self,
        compositor: &mut Compositor,
        surface_id: &ObjectId,
        buffer_id: ObjectId,
        width: u32,
        height: u32,
    ) -> (r: Result<ObjectId, Error>)
        requires
            old(compositor).wf(),
        ensures
            *final(self) == *old(self),
            final(compositor).wf(),
            final(compositor).scene_graph() == old(compositor).scene_graph(),
            final(compositor).schedules_view() == old(compositor).schedules_view(),
            final(compositor).surface_manager().handles_left() == old(compositor).surface_manager().handles_left(),
            !has_key(old(compositor).surface_manager()@, *surface_id) ==> {
                &&& r matches Err(e) && is_device_error(e, "surface not found"@)
                &&& final(compositor).surface_manager()@ == old(compositor).surface_manager()@
            },
            has_key(old(compositor).surface_manager()@, *surface_id) ==> {
                &&& r == Ok::<ObjectId, Error>(buffer_id)
                &&& final(compositor).surface_manager()@ == set_value(
                    old(compositor).surface_manager()@,
                    *surface_id,
                    SurfaceState {
                        width,
                        height,
                        buffer_id: Some(buffer_id),
                        ..lookup(old(compositor).surface_manager()@, *surface_id)
                    },
                )
            },
    {
        match compositor.surfaces_mut().resize(surface_id, width, height) {
            Ok(()) => {},
            Err(e) => {
                return Err(e);
            },
        }
        let ghost mid = compositor.surface_manager()@;
        proof {
            let k = key_index(old(compositor).surface_manager()@, *surface_id);
            assert(mid[k].0 == *surface_id);
            assert(has_key(mid, *surface_id));
        }
        match compositor.surfaces_mut().attach_buffer(surface_id, buffer_id) {
            Ok(()) => {},
            Err(e) => {
                return Err(e);
            },
        }
        proof {
            let k = key_index(old(compositor).surface_manager()@, *surface_id);
            lemma_index_unique(old(compositor).surface_manager()@, k);
            lemma_index_unique(mid, k);
        }
        Ok(buffer_id)
    }

    /// Records damage on the surface under `surface_id`.
    pub fn damage(&mut self, compositor: &mut Compositor, surface_id: &ObjectId, region: Rect) -> (r: Result<(), Error>)
        requires
            old(compositor).wf(),
        ensures
            *final(self) == *old(self),
            final(compositor).wf(),
            final(compositor).scene_graph() == old(compositor).scene_graph(),
            final(compositor).schedules_view() == old(compositor).schedules_view(),
            final(compositor).surface_manager().handles_left() == old(compositor).surface_manager().handles_left(),
            r is Ok <==> has_key(old(compositor).surface_manager()@, *surface_id),
            r matches Err(e) ==> is_device_error(e, "surface not found"@)
                && final(compositor).surface_manager()@ == old(compositor).surface_manager()@,
            r is Ok ==> {
                let ss = old(compositor).surface_manager()@;
                let fs = final(compositor).surface_manager()@;
                let k = key_index(ss, *surface_id);
                &&& fs.len() == ss.len()
                &&& fs[k].0 == *surface_id
                &&& fs[k].1.damage@ == ss[k].1.damage@.push(region)
                &&& crate::surfaces::same_except_damage(fs[k].1, ss[k].1)
                &&& forall|i: int| 0 <= i < ss.len() && i != k ==> #[trigger] fs[i] == ss[i]
            },
    {
        let r = compositor.surfaces_mut().damage(surface_id, region);
        proof {
            if r is Ok {
                lemma_index_unique(old(compositor).surface_manager()@, key_index(old(compositor).surface_manager()@, *surface_id));
            }
        }
        r
    }

    /// `wl_surface.commit`: drains the surface's damage into its scene node,
    /// so that the next compositor tick picks it up.
    pub fn commit(&mut self, compositor: &mut Compositor, surface_id: &ObjectId) -> (r: Result<(), Error>)
        requires
            old(self).wf(),
            old(compositor).wf(),
        ensures
            *final(self) == *old(self),
            final(compositor).wf(),
            final(compositor).scene_graph().handles_left() == old(compositor).scene_graph().handles_left(),
            final(compositor).surface_manager().handles_left() == old(compositor).surface_manager().handles_left(),
            !has_key(old(self).nodes_view(), *surface_id) ==> {
                &&& r matches Err(e) && is_device_error(e, "surface not found"@)
                &&& *final(compositor) == *old(compositor)
            },
            has_key(old(self).nodes_view(), *surface_id) ==> crate::compositor::surface_committed(
                *old(compositor),
                *final(compositor),
                *surface_id,
                lookup(old(self).nodes_view(), *surface_id),
                r,
            ),
    {
        let node_id = match self.surface_nodes.get(*surface_id) {
            Some(n) => *n,
            None => {
                return Err(device_error("surface not found"));
            },
        };
        compositor.commit_surface(surface_id, &node_id)
    }

    /// `wl_surface.destroy` for one surface, without touching the client
    /// connection: tears the surface down (see `teardown_step`) and, when
    /// that succeeds, takes the surface off its owner's list of surfaces, so
    /// that a later disconnect of the owner does not look for it.
    pub fn destroy_surface(
        &mut self,
        compositor: &mut Compositor,
        windows: &mut WindowManager,
        surface_id: &ObjectId,
    ) -> (r: Result<(), Error>)
        requires
            old(self).wf(),
            old(compositor).wf(),
            old(windows).wf(),
        ensures
            final(self).wf(),
            final(compositor).wf(),
            final(windows).wf(),
            final(compositor).schedules_view() == old(compositor).schedules_view(),
            final(compositor).scene_graph().handles_left() == old(compositor).scene_graph().handles_left(),
            final(compositor).surface_manager().handles_left() == old(compositor).surface_manager().handles_left(),
            final(windows).handles_left() == old(windows).handles_left(),
            final(self).handles_left() == old(self).handles_left(),
            ({
                let out = teardown_step(old(self).teardown_state(old(compositor), old(windows)), *surface_id);
                let detach = out.1 is None && has_key(old(self).owners_view(), *surface_id);
                &&& final(self).teardown_state(final(compositor), final(windows)) == (TeardownState {
                    clients: final(self).clients_view(),
                    ..out.0
                })
                &&& (r is Ok <==> out.1 is None)
                &&& (r matches Err(e) ==> out.1 matches Some(m) && is_device_error(e, m))
                &&& if detach {
                    detached(old(self).clients_view(), final(self).clients_view(), lookup(old(self).owners_view(), *surface_id), *surface_id)
                } else {
                    final(self).clients_view() == old(self).clients_view()
                }
            }),
            r is Ok ==> left_no_trace(
                old(self).teardown_state(old(compositor), old(windows)),
                final(self).teardown_state(final(compositor), final(windows)),
                *surface_id,
            ),
    {
        proof {
            lemma_step_shrinks(old(self).teardown_state(old(compositor), old(windows)), *surface_id);
        }
        let owner = match self.surface_clients.get(*surface_id) {
            Some(c) => Some(*c),
            None => None,
        };
        let r = self.teardown_surface(compositor, windows, surface_id);
        if r.is_ok() {
            if let Some(client_id) = owner {
                self.forget_surface_of(client_id, *surface_id);
            }
        }
        r
    }

    /// Takes `surface_id` off the list of surfaces of client `client_id`, if
    /// that client is connected.
    fn forget_surface_of(&mut self, client_id: ObjectId, surface_id: ObjectId)
        requires
            old(self).wf(),
        ensures
            final(self).wf(),
            final(self).handles_left() == old(self).handles_left(),
            final(self).nodes_view() == old(self).nodes_view(),
            final(self).windows_view() == old(self).windows_view(),
            final(self).owners_view() == old(self).owners_view(),
            detached(old(self).clients_view(), final(self).clients_view(), client_id, surface_id),
    {
        let ghost before = self.clients@;
        match self.clients.get_mut(client_id) {
            Some(bookkeeping) => {
                let ghost listed = bookkeeping.surfaces@;
                let mut kept: Vec<ObjectId> = Vec::new();
                let mut i: usize = 0;
                while i < bookkeeping.surfaces.len()
                    invariant
                        i <= bookkeeping.surfaces@.len(),
                        bookkeeping.surfaces@ == listed,
                        kept@ == listed.take(i as int).filter(other_than(surface_id)),
                    decreases bookkeeping.surfaces@.len() - i,
                {
                    let x = bookkeeping.surfaces[i];
                    proof {
                        reveal_with_fuel(Seq::<_>::filter, 1);
                        assert(listed.take(i + 1).drop_last() =~= listed.take(i as int));
                        assert(listed.take(i + 1).last() == x);
                    }
                    if x != surface_id {
                        kept.push(x);
                    }
                    i = i + 1;
                }
                proof {
                    assert(listed.take(listed.len() as int) =~= listed);
                }
                bookkeeping.surfaces = kept;
            },
            None => {},
        }
        proof {
            if has_key(before, client_id) {
                let k = key_index(before, client_id);
                lemma_index_unique(before, k);
                assert forall|i: int| 0 <= i < before.len() implies (#[trigger] self.clients@[i]).1.surfaces@ == (
                    if i == k {
                        before[i].1.surfaces@.filter(other_than(surface_id))
                    } else {
                        before[i].1.surfaces@
                    }) by {
                    if i != k {
                        assert(self.clients@[i] == before[i]);
                    }
                }
            } else {
                assert(self.clients@ == before);
            }
            assert forall|i: int| 0 <= i < self.clients@.len() implies (#[trigger] self.clients@[i]).0.0 < self.next_serial by {
                assert(self.clients@[i].0 == before[i].0);
            }
        }
    }

    fn teardown_surface(
        &mut self,
        compositor: &mut Compositor,
        windows: &mut WindowManager,
        surface_id: &ObjectId,
    ) -> (r: Result<(), Error>)
        requires
            old(self).wf(),
            old(compositor).wf(),
            old(windows).wf(),
        ensures
            final(self).wf(),
            final(compositor).wf(),
            final(windows).wf(),
            final(compositor).schedules_view() == old(compositor).schedules_view(),
            final(compositor).scene_graph().handles_left() == old(compositor).scene_graph().handles_left(),
            final(compositor).surface_manager().handles_left() == old(compositor).surface_manager().handles_left(),
            final(windows).handles_left() == old(windows).handles_left(),
            final(self).handles_left() == old(self).handles_left(),
            ({
                let out = teardown_step(old(self).teardown_state(old(compositor), old(windows)), *surface_id);
                &&& final(self).teardown_state(final(compositor), final(windows)) == out.0
                &&& (r is Ok <==> out.1 is None)
                &&& (r matches Err(e) ==> out.1 matches Some(m) && is_device_error(e, m))
            }),
    {
        match self.surface_windows.remove(*surface_id) {
            Some(window_id) => {
                match windows.destroy_window(&window_id) {
                    Ok(()) => {},
                    Err(e) => {
                        return Err(e);
                    },
                }
            },
            None => {},
        }
        match self.surface_nodes.remove(*surface_id) {
            Some(node_id) => {
                match compositor.scene_mut().remove(&node_id) {
                    Ok(()) => {},
                    Err(e) => {
                        return Err(e);
                    },
                }
            },
            None => {},
        }
        self.surface_clients.remove(*surface_id);
        compositor.surfaces_mut().destroy_surface(surface_id)
    }

    /// The scene node of the surface under `surface_id`.
    pub fn node_for_surface(&self, surface_id: &ObjectId) -> (r: Option<ObjectId>)
        requires
            self.wf(),
        ensures
            r is None <==> !has_key(self.nodes_view(), *surface_id),
            r matches Some(n) ==> n == lookup(self.nodes_view(), *surface_id),
    {
        match self.surface_nodes.get(*surface_id) {
            Some(n) => Some(*n),
            None => None,
        }
    }

    /// The window wrapping the surface under `surface_id`.
    pub fn window_for_surface(&self, surface_id: &ObjectId) -> (r: Option<ObjectId>)
        requires
            self.wf(),
        ensures
            r is None <==> !has_key(self.windows_view(), *surface_id),
            r matches Some(w) ==> w == lookup(self.windows_view(), *surface_id),
    {
        match self.surface_windows.get(*surface_id) {
            Some(w) => Some(*w),
            None => None,
        }
    }
}

impl Default for WaylandBridge {
    fn default() -> (b: WaylandBridge)
        ensures
            b.wf(),
            b.handles_left() == u64::MAX - 1,
            b.clients_view().len() == 0,
            b.nodes_view().len() == 0,
            b.windows_view().len() == 0,
            b.owners_view().len() == 0,
    {
        WaylandBridge::new()
    }
}

/// `s` with `v` stored under `k`: in place of the old value if there is
/// one, else as a new last entry.
pub open spec fn inserted<V>(s: Seq<(ObjectId, V)>, k: ObjectId, v: V) -> Seq<(ObjectId, V)> {
    if has_key(s, k) { set_value(s, k, v) } else { s.push((k, v)) }
}

/// Storing `v` under `k` makes `k` map to `v`, whatever it mapped to
/// before, keeps every other handle's value, adds no other handle, and
/// keeps the handles distinct.
pub proof fn lemma_inserted_binds<V>(s: Seq<(ObjectId, V)>, k: ObjectId, v: V)
    requires
        unique_keys(s),
    ensures
        unique_keys(inserted(s, k, v)),
        has_key(inserted(s, k, v), k),
        lookup(inserted(s, k, v), k) == v,
        forall|k2: ObjectId| k2 != k ==> (#[trigger] has_key(inserted(s, k, v), k2) <==> has_key(s, k2)),
        forall|k2: ObjectId| k2 != k && has_key(s, k2) ==> #[trigger] lookup(inserted(s, k, v), k2) == lookup(s, k2),
{
    if has_key(s, k) {
        let i = key_index(s, k);
        crate::idmap::lemma_update(s, i, v);
    } else {
        crate::idmap::lemma_push(s, k, v);
    }
}

/// `new` is `old` with surface `sid` appended to the surfaces of `client`.
pub open spec fn client_gained(
    old: Seq<(ObjectId, ClientBookkeeping)>,
    new: Seq<(ObjectId, ClientBookkeeping)>,
    client: ObjectId,
    sid: ObjectId,
) -> bool {
    let k = key_index(old, client);
    &&& new.len() == old.len()
    &&& new[k].0 == client
    &&& new[k].1.surfaces@ == old[k].1.surfaces@.push(sid)
    &&& forall|i: int| 0 <= i < old.len() && i != k ==> #[trigger] new[i] == old[i]
}

} // verus!
