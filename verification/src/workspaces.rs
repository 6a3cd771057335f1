//! Virtual workspaces. Workspaces are global; each output tracks its own
//! active workspace independently.

use vstd::prelude::*;
use crate::common::{ObjectId, Error, is_device_error, device_error};
use crate::idmap::{
    IdMap, has_key, lookup, key_index, unique_keys, without_key, keys_below, lemma_fresh_key,
    lemma_keys_below_remove, lemma_index_unique, lemma_remove, derefs,
};
use crate::text::{join_number, decimal};
use crate::idmap::{position_in, contains_id, find_id, lemma_remove_no_dup};

verus! {

/// A workspace: a named place to put windows.
#[derive(Clone, Debug)]
pub struct Workspace {
    pub id: ObjectId,
    pub name: String,
    /// The workspace's position in the sequence of workspaces.
    pub index: usize,
    /// Dynamic workspaces grow: filling the last one appends a fresh one.
    pub dynamic: bool,
    pub windows: Vec<ObjectId>,
}

/// Owns the workspaces, their order, and the active workspace of each
/// output.
pub struct WorkspaceManager {
    workspaces: IdMap<Workspace>,
    order: Vec<ObjectId>,
    active_per_output: IdMap<ObjectId>,
    next_serial: u64,
}

impl WorkspaceManager {
    /// The workspaces and their handles, in creation order.
    pub closed spec fn view(&self) -> Seq<(ObjectId, Workspace)> {
        self.workspaces@
    }

    /// The workspace handles in sequence order.
    pub closed spec fn order_view(&self) -> Seq<ObjectId> {
        self.order@
    }

    /// Output handle -> its active workspace.
    pub closed spec fn active_view(&self) -> Seq<(ObjectId, ObjectId)> {
        self.active_per_output@
    }

    /// Handles are below the next one to be issued.
    pub closed spec fn serials_below(&self) -> bool {
        keys_below(self.workspaces@, self.next_serial)
    }

    /// The manager can still issue a handle.
    pub open spec fn can_create(&self) -> bool {
        self.handles_left() > 0
    }

    /// How many more handles the counter can issue.
    pub closed spec fn handles_left(&self) -> nat {
        (u64::MAX - self.next_serial) as nat
    }

    /// There is always at least one workspace; the sequence holds every
    /// workspace exactly once; each workspace's index is its position in the
    /// sequence; each carries its own handle and holds each window at most
    /// once; and every output's active workspace exists.
    pub open spec fn wf(&self) -> bool {
        let ws = self@;
        let order = self.order_view();
        &&& unique_keys(ws)
        &&& unique_keys(self.active_view())
        &&& self.serials_below()
        &&& ws.len() >= 1
        &&& order.len() == ws.len()
        &&& order.no_duplicates()
        &&& forall|p: int| 0 <= p < order.len() ==> has_key(ws, #[trigger] order[p])
        &&& forall|k: ObjectId| #[trigger] has_key(ws, k) ==> order.contains(k)
        &&& forall|p: int| 0 <= p < order.len() ==> (#[trigger] lookup(ws, order[p])).index == p
        &&& forall|i: int| 0 <= i < ws.len() ==> (#[trigger] ws[i]).1.id == ws[i].0
        &&& forall|i: int| 0 <= i < ws.len() ==> (#[trigger] ws[i]).1.windows@.no_duplicates()
        &&& forall|i: int| 0 <= i < self.active_view().len() ==> has_key(ws, (#[trigger] self.active_view()[i]).1)
    }

    /// A manager holding one static workspace, "Workspace 1", and no active
    /// workspace on any output.
    pub fn new() -> (m: WorkspaceManager)
        ensures
            m.wf(),
            m.handles_left() == u64::MAX - 2,
            m@.len() == 1,
            m@[0].1.name@ == "Workspace 1"@,
            !m@[0].1.dynamic,
            m@[0].1.windows@ == Seq::<ObjectId>::empty(),
            m.order_view() == seq![m@[0].0],
            m.active_view() == Seq::<(ObjectId, ObjectId)>::empty(),
    {
        let mut mgr = WorkspaceManager {
            workspaces: IdMap::new(),
            order: Vec::new(),
            active_per_output: IdMap::new(),
            next_serial: 1,
        };
        mgr.push_workspace("Workspace 1", false);
        proof {
            assert(mgr.order@ =~= seq![mgr.workspaces@[0].0]);
        }
        mgr
    }

    /// Appends a new, empty workspace at the end of the sequence, under a
    /// handle the manager has never issued, and returns that handle.
    pub fn create_workspace(&mut self, name: &str, dynamic: bool) -> (id: ObjectId)
        requires
            old(self).wf(),
            old(self).can_create(),
        ensures
            final(self).wf(),
            final(self).handles_left() == old(self).handles_left() - 1,
            workspace_appended(*old(self), *final(self), id, name@, dynamic),
    {
        self.push_workspace(name, dynamic)
    }

    fn push_workspace(&mut self, name: &str, dynamic: bool) -> (id: ObjectId)
        requires
            unique_keys(old(self)@),
            unique_keys(old(self).active_view()),
            old(self).serials_below(),
            old(self).can_create(),
            old(self).order_view().len() == old(self)@.len(),
            old(self).order_view().no_duplicates(),
            forall|p: int| 0 <= p < old(self).order_view().len() ==> has_key(old(self)@, #[trigger] old(self).order_view()[p]),
            forall|k: ObjectId| #[trigger] has_key(old(self)@, k) ==> old(self).order_view().contains(k),
            forall|p: int| 0 <= p < old(self).order_view().len() ==> (#[trigger] lookup(old(self)@, old(self).order_view()[p])).index == p,
            forall|i: int| 0 <= i < old(self)@.len() ==> (#[trigger] old(self)@[i]).1.id == old(self)@[i].0,
            forall|i: int| 0 <= i < old(self)@.len() ==> (#[trigger] old(self)@[i]).1.windows@.no_duplicates(),
            forall|i: int| 0 <= i < old(self).active_view().len() ==> has_key(old(self)@, (#[trigger] old(self).active_view()[i]).1),
        ensures
            final(self).wf(),
            workspace_appended(*old(self), *final(self), id, name@, dynamic),
            final(self).next_serial == old(self).next_serial + 1,
    {
        let index = self.order.len();
        let id = ObjectId(self.next_serial);
        proof {
            lemma_fresh_key(self.workspaces@, self.next_serial, id);
        }
        let workspace = Workspace { id, name: name.to_string(), index, dynamic, windows: Vec::new() };
        self.workspaces.insert(id, workspace);
        self.order.push(id);
        self.next_serial = self.next_serial + 1;
        proof {
            let ws0 = old(self)@;
            crate::idmap::lemma_push(ws0, id, self.workspaces@.last().1);
            assert(self.workspaces@ == ws0.push((id, self.workspaces@.last().1)));
            assert forall|p: int| 0 <= p < self.order@.len() implies (#[trigger] lookup(self.workspaces@, self.order@[p])).index == p by {
                if p < old(self).order@.len() {
                    assert(self.order@[p] == old(self).order@[p]);
                    assert(has_key(ws0, self.order@[p]));
                }
            }
            assert forall|p: int| 0 <= p < self.order@.len() implies has_key(self.workspaces@, #[trigger] self.order@[p]) by {
                if p < old(self).order@.len() {
                    assert(self.order@[p] == old(self).order@[p]);
                }
            }
            assert forall|i: int| 0 <= i < self.workspaces@.len() implies (#[trigger] self.workspaces@[i]).1.id == self.workspaces@[i].0
                && self.workspaces@[i].1.windows@.no_duplicates() by {
                if i < ws0.len() {
                    assert(self.workspaces@[i] == ws0[i]);
                }
            }
            assert forall|i: int| 0 <= i < self.active_per_output@.len() implies has_key(self.workspaces@, (#[trigger] self.active_per_output@[i]).1) by {
                assert(has_key(ws0, self.active_per_output@[i].1));
            }
            assert forall|i: int| 0 <= i < self.workspaces@.len() implies (#[trigger] self.workspaces@[i]).0.0 < self.next_serial by {
                if i < ws0.len() {
                    assert(self.workspaces@[i] == ws0[i]);
                }
            }
            assert(!old(self).order@.contains(id));
            assert(self.workspaces@.drop_last() =~= old(self)@);
            assert forall|k: ObjectId| #[trigger] has_key(self.workspaces@, k) implies self.order@.contains(k) by {
                if k == id {
                    assert(self.order@[self.order@.len() - 1] == id);
                } else {
                    assert(old(self).order@.contains(k));
                    let q = choose|q: int| 0 <= q < old(self).order@.len() && old(self).order@[q] == k;
                    assert(self.order@[q] == k);
                }
            }
        }
        id
    }

    /// Deletes the workspace under `id`, unless it is the last one: it
    /// leaves the sequence (the others keep their order and are renumbered),
    /// and every output showing it has no active workspace any more.
    pub fn delete_workspace(&mut self, id: &ObjectId) -> (r: Result<(), Error>)
        requires
            old(self).wf(),
        ensures
            final(self).wf(),
            final(self).handles_left() == old(self).handles_left(),
            r is Ok <==> old(self)@.len() > 1 && has_key(old(self)@, *id),
            r matches Err(e) ==> {
                &&& final(self)@ == old(self)@
                &&& final(self).order_view() == old(self).order_view()
                &&& final(self).active_view() == old(self).active_view()
                &&& if old(self)@.len() <= 1 {
                    is_device_error(e, "cannot delete the last workspace"@)
                } else {
                    is_device_error(e, "workspace not found"@)
                }
            },
            r is Ok ==> {
                let rest = without_key(old(self)@, *id);
                &&& final(self).order_view() == old(self).order_view().remove(position_in(old(self).order_view(), *id))
                &&& final(self).active_view() == old(self).active_view().filter(|e: (ObjectId, ObjectId)| e.1 != *id)
                &&& final(self)@.len() == rest.len()
                &&& forall|i: int| 0 <= i < rest.len() ==> (#[trigger] final(self)@[i]).0 == rest[i].0
                    && final(self)@[i].1 == (Workspace { index: final(self)@[i].1.index, ..rest[i].1 })
            },
    {
        if self.workspaces.len() <= 1 {
            return Err(device_error("cannot delete the last workspace"));
        }
        let ghost ws0 = self.workspaces@;
        let ghost order0 = self.order@;
        match self.workspaces.remove(*id) {
            Some(_) => {},
            None => {
                return Err(device_error("workspace not found"));
            },
        }
        let ghost kidx = key_index(ws0, *id);
        proof {
            lemma_remove(ws0, kidx);
            lemma_index_unique(ws0, kidx);
            lemma_keys_below_remove(ws0, self.next_serial, kidx);
        }
        // Drop the handle from the sequence.
        let mut p: usize = 0;
        while p < self.order.len() && self.order[p] != *id
            invariant
                self.order@ == order0,
                p <= order0.len(),
                forall|q: int| 0 <= q < p ==> order0[q] != *id,
            decreases order0.len() - p,
        {
            p = p + 1;
        }
        proof {
            assert(has_key(ws0, *id));
            assert(order0.contains(*id));
            if p == order0.len() {
                let q = choose|q: int| 0 <= q < order0.len() && order0[q] == *id;
                assert(order0[q] != *id);
            }
            assert(order0.no_duplicates());
            assert(position_in(order0, *id) == p as int);
        }
        self.order.remove(p);
        // Forget the outputs showing it.
        self.forget_workspace_on_outputs(id);
        // Renumber.
        let ghost ws1 = self.workspaces@;
        let ghost a1 = self.active_per_output@;
        let mut j: usize = 0;
        while j < self.order.len()
            invariant
                self.order@ == order0.remove(p as int),
                order0.no_duplicates(),
                order0.len() == ws0.len(),
                0 <= p < order0.len(),
                order0[p as int] == *id,
                j <= self.order@.len(),
                unique_keys(self.workspaces@),
                ws1 == without_key(ws0, *id),
                self.workspaces@.len() == ws1.len(),
                forall|i: int| 0 <= i < ws1.len() ==> (#[trigger] self.workspaces@[i]).0 == ws1[i].0
                    && self.workspaces@[i].1 == (Workspace { index: self.workspaces@[i].1.index, ..ws1[i].1 }),
                forall|q: int| 0 <= q < j ==> (#[trigger] lookup(self.workspaces@, self.order@[q])).index == q,
                forall|q: int| 0 <= q < order0.len() ==> has_key(ws0, #[trigger] order0[q]),
                forall|k: ObjectId| #[trigger] has_key(ws1, k) <==> (has_key(ws0, k) && k != *id),
                forall|k: ObjectId| #[trigger] has_key(self.workspaces@, k) <==> has_key(ws1, k),
                self.active_per_output@ == a1,
                self.next_serial == old(self).next_serial,
            decreases self.order@.len() - j,
        {
            let k = self.order[j];
            let ghost before = self.workspaces@;
            proof {
                assert(self.order@[j as int] == order0.remove(p as int)[j as int]);
                let q = if j < p { j as int } else { j + 1 };
                assert(order0[q] == k);
                assert(k != *id);
                assert(has_key(ws1, k));
            }
            match self.workspaces.get_mut(k) {
                Some(w) => {
                    w.index = j;
                },
                None => {},
            }
            proof {
                let kk = key_index(before, k);
                lemma_index_unique(self.workspaces@, kk);
                assert forall|q: int| 0 <= q < j + 1 implies (#[trigger] lookup(self.workspaces@, self.order@[q])).index == q by {
                    if q < j {
                        let q0 = if q < p { q } else { q + 1 };
                        assert(self.order@[q] == order0[q0]);
                        assert(order0[q0] != *id);
                        assert(has_key(ws1, order0[q0]));
                        assert(has_key(before, order0[q0]));
                        let kq = key_index(before, self.order@[q]);
                        lemma_index_unique(before, kq);
                        assert(self.order@[q] != k) by {
                            assert(self.order@.no_duplicates()) by {
                                lemma_remove_no_dup(order0, p as int);
                            }
                        }
                        assert(kq != kk);
                        assert(self.workspaces@[kq] == before[kq]);
                        lemma_index_unique(self.workspaces@, kq);
                    }
                }
                assert forall|k2: ObjectId| #[trigger] has_key(self.workspaces@, k2) <==> has_key(before, k2) by {
                    if has_key(before, k2) {
                        let i2 = key_index(before, k2);
                        assert(self.workspaces@[i2].0 == k2);
                    }
                    if has_key(self.workspaces@, k2) {
                        let i2 = choose|i2: int| 0 <= i2 < self.workspaces@.len() && #[trigger] self.workspaces@[i2].0 == k2;
                        assert(before[i2].0 == k2);
                    }
                }
            }
            j = j + 1;
        }
        proof {
            lemma_remove_no_dup(order0, p as int);
            let ws = self.workspaces@;
            assert forall|q: int| 0 <= q < self.order@.len() implies has_key(ws, #[trigger] self.order@[q]) by {
                let q0 = if q < p { q } else { q + 1 };
                assert(self.order@[q] == order0[q0]);
                assert(order0[q0] != *id);
                assert(has_key(ws1, order0[q0]));
                let i2 = key_index(ws1, order0[q0]);
                assert(ws[i2].0 == order0[q0]);
            }
            assert forall|a: int, b: int| 0 <= a < ws.len() && 0 <= b < ws.len() && a != b implies #[trigger] ws[a].0 != #[trigger] ws[b].0 by {
                assert(ws[a].0 == ws1[a].0 && ws[b].0 == ws1[b].0);
            }
            assert forall|i: int| 0 <= i < ws.len() implies (#[trigger] ws[i]).1.id == ws[i].0 && ws[i].1.windows@.no_duplicates() by {
                let i0 = if i < kidx { i } else { i + 1 };
                assert(ws1[i] == ws0[i0]);
            }
            assert forall|i: int| 0 <= i < ws.len() implies (#[trigger] ws[i]).0.0 < self.next_serial by {
                assert(ws[i].0 == ws1[i].0);
                assert(ws1 == ws0.remove(kidx));
                assert(ws0.remove(kidx)[i].0.0 < self.next_serial);
            }
            assert forall|k: ObjectId| #[trigger] has_key(ws, k) implies self.order@.contains(k) by {
                assert(has_key(ws0, k) && k != *id);
                assert(order0.contains(k));
                let q = choose|q: int| 0 <= q < order0.len() && order0[q] == k;
                assert(q != p);
                let q1 = if q < p { q } else { q - 1 };
                assert(self.order@[q1] == k);
            }
            assert forall|i: int| 0 <= i < self.active_per_output@.len() implies has_key(ws, (#[trigger] self.active_per_output@[i]).1) by {
                let v = self.active_per_output@[i].1;
                assert(v != *id);
                let e = self.active_per_output@[i];
                assert(old(self).active_per_output@.contains(e));
                let q = choose|q: int| 0 <= q < old(self).active_per_output@.len() && old(self).active_per_output@[q] == e;
                assert(has_key(ws0, old(self).active_per_output@[q].1));
                assert(has_key(ws1, v));
                let i2 = key_index(ws1, v);
                assert(ws[i2].0 == v);
            }
        }
        Ok(())
    }

    /// Drops every output whose active workspace is `id`.
    fn forget_workspace_on_outputs(&mut self, id: &ObjectId)
        requires
            unique_keys(old(self).active_view()),
        ensures
            final(self).workspaces == old(self).workspaces,
            final(self).order == old(self).order,
            final(self).next_serial == old(self).next_serial,
            unique_keys(final(self).active_view()),
            final(self).active_view() == old(self).active_view().filter(|e: (ObjectId, ObjectId)| e.1 != *id),
            forall|i: int| 0 <= i < final(self).active_view().len() ==> (#[trigger] final(self).active_view()[i]).1 != *id
                && old(self).active_view().contains(final(self).active_view()[i]),
    {
        let ghost orig = self.active_per_output@;
        let mut i: usize = 0;
        let ghost mut j: int = 0;
        proof {
            reveal_with_fuel(Seq::<_>::filter, 1);
            assert(self.active_per_output@.take(0) =~= orig.take(0).filter(|e: (ObjectId, ObjectId)| e.1 != *id));
            assert(self.active_per_output@.skip(0) =~= orig.skip(0));
        }
        while i < self.active_per_output.len()
            invariant
                self.workspaces == old(self).workspaces,
                self.order == old(self).order,
                self.next_serial == old(self).next_serial,
                unique_keys(self.active_per_output@),
                orig == old(self).active_per_output@,
                0 <= j <= orig.len(),
                i <= self.active_per_output@.len(),
                self.active_per_output@.take(i as int) == orig.take(j).filter(|e: (ObjectId, ObjectId)| e.1 != *id),
                self.active_per_output@.skip(i as int) == orig.skip(j),
            decreases self.active_per_output@.len() - i,
        {
            proof {
                reveal_with_fuel(Seq::<_>::filter, 1);
                assert(self.active_per_output@.skip(i as int).len() == self.active_per_output@.len() - i);
                assert(orig.skip(j).len() == orig.len() - j);
                assert(self.active_per_output@[i as int] == orig[j]) by {
                    assert(self.active_per_output@.skip(i as int)[0] == orig.skip(j)[0]);
                }
                assert(orig.take(j + 1).drop_last() =~= orig.take(j));
            }
            if *self.active_per_output.value_at(i) == *id {
                let ghost before = self.active_per_output@;
                self.active_per_output.remove_at(i);
                proof {
                    assert(self.active_per_output@.take(i as int) =~= before.take(i as int));
                    assert(self.active_per_output@.skip(i as int) =~= before.skip(i as int).skip(1));
                    assert(orig.skip(j + 1) =~= orig.skip(j).skip(1));
                    j = j + 1;
                }
            } else {
                let ghost before = self.active_per_output@;
                proof {
                    assert(self.active_per_output@.take(i + 1) =~= before.take(i as int).push(before[i as int]));
                    assert(self.active_per_output@.skip(i + 1) =~= before.skip(i as int).skip(1));
                    assert(orig.skip(j + 1) =~= orig.skip(j).skip(1));
                    j = j + 1;
                }
                i = i + 1;
            }
        }
        proof {
            reveal_with_fuel(Seq::<_>::filter, 1);
            assert(self.active_per_output@.skip(i as int).len() == 0);
            assert(j == orig.len());
            assert(orig.take(j) =~= orig);
            assert(self.active_per_output@.take(i as int) =~= self.active_per_output@);
            let f = orig.filter(|e: (ObjectId, ObjectId)| e.1 != *id);
            assert forall|m: int| 0 <= m < f.len() implies (#[trigger] f[m]).1 != *id && orig.contains(f[m]) by {
                orig.lemma_filter_pred(|e: (ObjectId, ObjectId)| e.1 != *id, m);
                assert(f.contains(f[m]));
                orig.lemma_filter_contains_rev(|e: (ObjectId, ObjectId)| e.1 != *id, f[m]);
            }
        }
    }

    /// Puts window `window_id` on workspace `workspace_id` (once). When that
    /// workspace is dynamic and the last of the sequence, a fresh dynamic
    /// workspace, "Workspace N" with N the new count, is appended, so that a
    /// spare empty one always stays at the end.
    pub fn assign_window(&mut self, workspace_id: &ObjectId, window_id: ObjectId) -> (r: Result<(), Error>)
        requires
            old(self).wf(),
            old(self).can_create(),
        ensures
            final(self).wf(),
            r is Ok <==> has_key(old(self)@, *workspace_id),
            r matches Err(e) ==> is_device_error(e, "workspace not found"@) && final(self)@ == old(self)@
                && final(self).order_view() == old(self).order_view() && final(self).active_view() == old(self).active_view()
                && final(self).handles_left() == old(self).handles_left(),
            r is Ok ==> window_assigned(*old(self), *final(self), *workspace_id, window_id),
    {
        let ghost ws0 = self.workspaces@;
        let is_last_dynamic = match self.workspaces.get_mut(*workspace_id) {
            Some(workspace) => {
                if !contains_id(&workspace.windows, window_id) {
                    workspace.windows.push(window_id);
                }
                workspace.dynamic && self.order.len() > 0 && self.order[self.order.len() - 1] == *workspace_id
            },
            None => {
                return Err(device_error("workspace not found"));
            },
        };
        let ghost k = key_index(ws0, *workspace_id);
        proof {
            lemma_index_unique(ws0, k);
            lemma_index_unique(self.workspaces@, k);
            let ws = self.workspaces@;
            assert forall|p: int| 0 <= p < self.order@.len() implies has_key(ws, #[trigger] self.order@[p])
                && lookup(ws, self.order@[p]).index == p by {
                assert(has_key(ws0, self.order@[p]));
                let kp = key_index(ws0, self.order@[p]);
                lemma_index_unique(ws0, kp);
                assert(ws[kp].0 == ws0[kp].0);
                lemma_index_unique(ws, kp);
            }
            assert forall|k2: ObjectId| #[trigger] has_key(ws, k2) implies self.order@.contains(k2) by {
                let i2 = choose|i2: int| 0 <= i2 < ws.len() && #[trigger] ws[i2].0 == k2;
                assert(ws0[i2].0 == k2);
                assert(has_key(ws0, k2));
            }
            assert forall|i: int| 0 <= i < ws.len() implies (#[trigger] ws[i]).1.id == ws[i].0
                && ws[i].1.windows@.no_duplicates() && ws[i].0.0 < self.next_serial by {
                assert(ws0[i].0.0 < self.next_serial);
                if i == k {
                    assert(ws0[k].1.windows@.no_duplicates());
                    if !ws0[k].1.windows@.contains(window_id) {
                        let v = ws[k].1.windows@;
                        assert forall|a: int, b: int| 0 <= a < v.len() && 0 <= b < v.len() && a != b implies v[a] != v[b] by {
                            if a == v.len() - 1 {
                                assert(!ws0[k].1.windows@.contains(v[b]) || v[b] != window_id);
                            }
                        }
                    }
                }
            }
            assert forall|i: int| 0 <= i < self.active_per_output@.len() implies has_key(ws, (#[trigger] self.active_per_output@[i]).1) by {
                let v = self.active_per_output@[i].1;
                assert(has_key(ws0, v));
                let i2 = key_index(ws0, v);
                assert(ws[i2].0 == v);
            }
        }
        let ghost mid = self.workspaces@;
        proof {
            assert(is_last_dynamic == (lookup(ws0, *workspace_id).dynamic && old(self).order@.last() == *workspace_id));
        }
        if is_last_dynamic {
            let count: u64 = (self.order.len() as u64).saturating_add(1);
            proof {
                assert(count as nat == saturating_count(old(self).order@.len()));
            }
            let name = join_number("Workspace", " ", count, "");
            self.create_workspace(name.as_str(), true);
            proof {
                assert(self.workspaces@.drop_last() == mid);
                assert(self.workspaces@[k] == mid[k]);
                assert forall|i: int| 0 <= i < ws0.len() && i != k implies #[trigger] self.workspaces@[i] == ws0[i] by {
                    assert(self.workspaces@[i] == mid[i]);
                }
            }
        }
        Ok(())
    }

    /// Moves window `window_id` off workspace `from` and assigns it to
    /// workspace `to` (see `assign_window`).
    pub fn move_window(&mut self, window_id: &ObjectId, from: &ObjectId, to: &ObjectId) -> (r: Result<(), Error>)
        requires
            old(self).wf(),
            old(self).can_create(),
        ensures
            final(self).wf(),
            r is Ok <==> has_key(old(self)@, *to) && has_key(old(self)@, *from),
            r matches Err(e) ==> final(self)@ == old(self)@ && final(self).order_view() == old(self).order_view()
                && final(self).active_view() == old(self).active_view()
                && final(self).handles_left() == old(self).handles_left() && (if !has_key(old(self)@, *to) {
                is_device_error(e, "destination workspace not found"@)
            } else {
                is_device_error(e, "source workspace not found"@)
            }),
            r is Ok ==> exists|mid: WorkspaceManager|
                window_removed(*old(self), mid, *from, *window_id) && window_assigned(mid, *final(self), *to, *window_id),
    {
        if !self.workspaces.contains_key(*to) {
            return Err(device_error("destination workspace not found"));
        }
        let ghost ws0 = self.workspaces@;
        match self.workspaces.get_mut(*from) {
            Some(source) => {
                let ghost before = source.windows@;
                match find_id(&source.windows, *window_id) {
                    Some(pos) => {
                        source.windows.remove(pos);
                        proof {
                            lemma_remove_no_dup(before, pos as int);
                        }
                    },
                    None => {},
                }
            },
            None => {
                return Err(device_error("source workspace not found"));
            },
        }
        let ghost k = key_index(ws0, *from);
        proof {
            lemma_index_unique(ws0, k);
            lemma_index_unique(self.workspaces@, k);
            let ws = self.workspaces@;
            assert forall|p: int| 0 <= p < self.order@.len() implies has_key(ws, #[trigger] self.order@[p])
                && lookup(ws, self.order@[p]).index == p by {
                assert(has_key(ws0, self.order@[p]));
                let kp = key_index(ws0, self.order@[p]);
                lemma_index_unique(ws0, kp);
                assert(ws[kp].0 == ws0[kp].0);
                lemma_index_unique(ws, kp);
            }
            assert forall|k2: ObjectId| #[trigger] has_key(ws, k2) implies self.order@.contains(k2) by {
                let i2 = choose|i2: int| 0 <= i2 < ws.len() && #[trigger] ws[i2].0 == k2;
                assert(ws0[i2].0 == k2);
                assert(has_key(ws0, k2));
            }
            assert forall|i: int| 0 <= i < ws.len() implies (#[trigger] ws[i]).1.id == ws[i].0
                && ws[i].1.windows@.no_duplicates() && ws[i].0.0 < self.next_serial by {
                assert(ws0[i].0.0 < self.next_serial);
            }
            assert forall|i: int| 0 <= i < self.active_per_output@.len() implies has_key(ws, (#[trigger] self.active_per_output@[i]).1) by {
                let v = self.active_per_output@[i].1;
                assert(has_key(ws0, v));
                let i2 = key_index(ws0, v);
                assert(ws[i2].0 == v);
            }
            assert(has_key(ws, *to)) by {
                let i2 = key_index(ws0, *to);
                assert(ws[i2].0 == *to);
            }
        }
        let ghost mid = *self;
        let r = self.assign_window(to, *window_id);
        proof {
            assert(window_removed(*old(self), mid, *from, *window_id));
        }
        r
    }

    /// The workspace under `id`.
    pub fn get(&self, id: &ObjectId) -> (r: Option<&Workspace>)
        requires
            self.wf(),
        ensures
            r is None <==> !has_key(self@, *id),
            r matches Some(w) ==> *w == lookup(self@, *id),
    {
        self.workspaces.get(*id)
    }

    /// The workspaces, in sequence order.
    pub fn list(&self) -> (r: Vec<&Workspace>)
        requires
            self.wf(),
        ensures
            derefs(r@) == self.order_view().map_values(|k: ObjectId| lookup(self@, k)),
    {
        let mut out: Vec<&Workspace> = Vec::new();
        let mut i: usize = 0;
        while i < self.order.len()
            invariant
                self.wf(),
                i <= self.order@.len(),
                derefs(out@) == self.order@.take(i as int).map_values(|k: ObjectId| lookup(self@, k)),
            decreases self.order@.len() - i,
        {
            let k = self.order[i];
            match self.workspaces.get(k) {
                Some(w) => {
                    proof {
                        assert(derefs(out@.push(w)) =~= derefs(out@).push(*w));
                        assert(self.order@.take(i + 1).map_values(|k: ObjectId| lookup(self@, k))
                            =~= self.order@.take(i as int).map_values(|k: ObjectId| lookup(self@, k)).push(*w));
                    }
                    out.push(w);
                },
                None => {
                    proof {
                        assert(has_key(self@, self.order@[i as int]));
                    }
                },
            }
            i = i + 1;
        }
        proof {
            assert(self.order@.take(self.order@.len() as int) =~= self.order@);
        }
        out
    }

    /// Shows workspace `workspace_id` on output `output_id`.
    pub fn switch(&mut self, output_id: ObjectId, workspace_id: ObjectId) -> (r: Result<(), Error>)
        requires
            old(self).wf(),
        ensures
            final(self).wf(),
            final(self).handles_left() == old(self).handles_left(),
            final(self)@ == old(self)@,
            final(self).order_view() == old(self).order_view(),
            r is Ok <==> has_key(old(self)@, workspace_id),
            r is Ok ==> final(self).active_view() == crate::wayland::inserted(old(self).active_view(), output_id, workspace_id),
            r matches Err(e) ==> final(self).active_view() == old(self).active_view()
                && is_device_error(e, "workspace not found"@),
    {
        if !self.workspaces.contains_key(workspace_id) {
            return Err(device_error("workspace not found"));
        }
        let ghost a0 = self.active_per_output@;
        self.active_per_output.insert(output_id, workspace_id);
        proof {
            assert forall|i: int| 0 <= i < self.active_per_output@.len() implies has_key(self.workspaces@, (#[trigger] self.active_per_output@[i]).1) by {
                if i < a0.len() && self.active_per_output@[i] == a0[i] {
                } else if i < a0.len() {
                    assert(self.active_per_output@[i].1 == workspace_id);
                }
            }
        }
        Ok(())
    }

    /// The active workspace of output `output_id`.
    pub fn active_for_output(&self, output_id: &ObjectId) -> (r: Option<ObjectId>)
        requires
            self.wf(),
        ensures
            r is None <==> !has_key(self.active_view(), *output_id),
            r matches Some(w) ==> w == lookup(self.active_view(), *output_id),
    {
        match self.active_per_output.get(*output_id) {
            Some(w) => Some(*w),
            None => None,
        }
    }

    /// The windows on workspace `workspace_id` (none if there is no such
    /// workspace).
    pub fn windows_in(&self, workspace_id: &ObjectId) -> (r: &[ObjectId])
        requires
            self.wf(),
        ensures
            has_key(self@, *workspace_id) ==> r@ == lookup(self@, *workspace_id).windows@,
            !has_key(self@, *workspace_id) ==> r@ == Seq::<ObjectId>::empty(),
    {
        match self.workspaces.get(*workspace_id) {
            Some(w) => w.windows.as_slice(),
            None => &[],
        }
    }
}

/// `b` is workspace `a` holding window `win` as well (once).
pub open spec fn holds_window_too(a: Workspace, b: Workspace, win: ObjectId) -> bool {
    &&& b.id == a.id
    &&& b.name@ == a.name@
    &&& b.index == a.index
    &&& b.dynamic == a.dynamic
    &&& b.windows@ == (if a.windows@.contains(win) { a.windows@ } else { a.windows@.push(win) })
}

/// `b` is workspace `a` without window `win`.
pub open spec fn holds_window_no_more(a: Workspace, b: Workspace, win: ObjectId) -> bool {
    &&& b.id == a.id
    &&& b.name@ == a.name@
    &&& b.index == a.index
    &&& b.dynamic == a.dynamic
    &&& b.windows@ == (if a.windows@.contains(win) { a.windows@.remove(position_in(a.windows@, win)) } else { a.windows@ })
}

/// `new` is `old` with window `win` put on workspace `wsid`, and, when that
/// workspace is dynamic and last, a fresh dynamic workspace appended.
pub open spec fn window_assigned(old: WorkspaceManager, new: WorkspaceManager, wsid: ObjectId, win: ObjectId) -> bool {
    let k = key_index(old@, wsid);
    let grows = lookup(old@, wsid).dynamic && old.order_view().last() == wsid;
    &&& has_key(old@, wsid)
    &&& new@.len() == old@.len() + (if grows { 1int } else { 0int })
    &&& new.handles_left() == old.handles_left() - (if grows { 1int } else { 0int })
    &&& new@[k].0 == wsid
    &&& holds_window_too(old@[k].1, new@[k].1, win)
    &&& forall|i: int| 0 <= i < old@.len() && i != k ==> #[trigger] new@[i] == old@[i]
    &&& new.active_view() == old.active_view()
    &&& if grows {
        &&& new.order_view() == old.order_view().push(new@.last().0)
        &&& !has_key(old@, new@.last().0)
        &&& new@.last().1.name@ == "Workspace"@ + " "@ + decimal(saturating_count(old.order_view().len())) + ""@
        &&& new@.last().1.dynamic
        &&& new@.last().1.index == old@.len()
        &&& new@.last().1.windows@ == Seq::<ObjectId>::empty()
    } else {
        new.order_view() == old.order_view()
    }
}

/// The count following `n`, saturated at the largest `u64`.
pub open spec fn saturating_count(n: nat) -> nat {
    if n + 1 > u64::MAX { u64::MAX as nat } else { n + 1 }
}

/// `new` is `old` with window `win` taken off workspace `wsid`.
pub open spec fn window_removed(old: WorkspaceManager, new: WorkspaceManager, wsid: ObjectId, win: ObjectId) -> bool {
    let k = key_index(old@, wsid);
    &&& has_key(old@, wsid)
    &&& new.wf()
    &&& new.handles_left() == old.handles_left()
    &&& new@.len() == old@.len()
    &&& new@[k].0 == wsid
    &&& holds_window_no_more(old@[k].1, new@[k].1, win)
    &&& forall|i: int| 0 <= i < old@.len() && i != k ==> #[trigger] new@[i] == old@[i]
    &&& new.order_view() == old.order_view()
    &&& new.active_view() == old.active_view()
}

/// `new` is `old` with a fresh, empty workspace `id` named `name` appended
/// at the end of the sequence.
pub open spec fn workspace_appended(old: WorkspaceManager, new: WorkspaceManager, id: ObjectId, name: Seq<char>, dynamic: bool) -> bool {
    &&& !has_key(old@, id)
    &&& new@.len() == old@.len() + 1
    &&& new@.drop_last() == old@
    &&& new@.last().0 == id
    &&& new@.last().1.id == id
    &&& new@.last().1.name@ == name
    &&& new@.last().1.index == old@.len()
    &&& new@.last().1.dynamic == dynamic
    &&& new@.last().1.windows@ == Seq::<ObjectId>::empty()
    &&& new.order_view() == old.order_view().push(id)
    &&& new.active_view() == old.active_view()
}

/// Moving a window between two different workspaces updates both: after
/// the window is taken off `from` and put on `to`, `from` no longer holds
/// it and `to` does.
pub proof fn lemma_move_updates_both(
    before: WorkspaceManager,
    mid: WorkspaceManager,
    after: WorkspaceManager,
    from: ObjectId,
    to: ObjectId,
    win: ObjectId,
)
    requires
        before.wf(),
        after.wf(),
        from != to,
        window_removed(before, mid, from, win),
        window_assigned(mid, after, to, win),
    ensures
        has_key(after@, from),
        !lookup(after@, from).windows@.contains(win),
        has_key(after@, to),
        lookup(after@, to).windows@.contains(win),
{
    let kf = key_index(before@, from);
    let kt = key_index(mid@, to);
    assert(mid@[kf].0 == from);
    assert(kf != kt);
    assert(after@[kf] == mid@[kf]);
    lemma_index_unique(after@, kf);
    lemma_index_unique(after@, kt);
    let ws = before@[kf].1.windows@;
    assert(ws.no_duplicates());
    if ws.contains(win) {
        let p = position_in(ws, win);
        lemma_remove_no_dup(ws, p);
    }
    let dest = mid@[kt].1.windows@;
    assert(after@[kt].0 == to);
    if !dest.contains(win) {
        assert(dest.push(win)[dest.len() as int] == win);
    }
    assert(after@[kt].1.windows@.contains(win));
}

/// After a successful switch of `output` to `ws`, the output shows `ws`,
/// whatever it showed before, and every other output shows what it showed.
pub proof fn lemma_switch_shows_the_last_workspace(
    before: WorkspaceManager,
    after: WorkspaceManager,
    output: ObjectId,
    ws: ObjectId,
)
    requires
        before.wf(),
        after.active_view() == crate::wayland::inserted(before.active_view(), output, ws),
    ensures
        has_key(after.active_view(), output),
        lookup(after.active_view(), output) == ws,
        forall|o: ObjectId| o != output ==> (#[trigger] has_key(after.active_view(), o) <==> has_key(before.active_view(), o)),
        forall|o: ObjectId| o != output && has_key(before.active_view(), o)
            ==> #[trigger] lookup(after.active_view(), o) == lookup(before.active_view(), o),
{
    crate::wayland::lemma_inserted_binds(before.active_view(), output, ws);
}

impl Default for WorkspaceManager {
    fn default() -> (m: WorkspaceManager)
        ensures
            m.wf(),
            m.handles_left() == u64::MAX - 2,
            m@.len() == 1,
    {
        WorkspaceManager::new()
    }
}

} // verus!
