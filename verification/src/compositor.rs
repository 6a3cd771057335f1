//! The compositor core: surface commits feed the scene graph, damage is
//! tracked per output, and a per-output schedule decides when a frame is due
//! and whether it needs a full redraw or just the damaged regions. The
//! compositor stops at a `FrameReport` describing what would be rendered.
//!
//! Time is counted in nanoseconds.

use vstd::prelude::*;
use std::time::Duration;
use crate::common::{ObjectId, Error, is_device_error};
use crate::idmap::{IdMap, has_key, lookup, key_index, unique_keys, lemma_filter_agree, lemma_index_unique};
use crate::scene::{
    Rect, SceneGraph, SceneNode, composited_nodes, composited_on, output_damaged,
    deref_nodes, cleared_on_output, clear_if_on, node_values, damaged, z_ordered, rect_covers, rect_union,
    right_edge, bottom_edge, union_fits, lemma_union_covers, lemma_z_sorted_len, lemma_composited_count,
};
use crate::surfaces::{SurfaceManager, same_but_pending_state};

verus! {

/// What one composed frame of one output consists of.
#[derive(Clone, Debug)]
pub struct FrameReport {
    pub output_id: ObjectId,
    pub frame_number: u64,
    pub full_redraw: bool,
    pub damage: Vec<Rect>,
    pub composited_nodes: usize,
}

/// The frame pacing of one output.
#[derive(Clone, Copy, Debug)]
pub struct OutputSchedule {
    /// Time between two frames.
    pub refresh_interval_nanos: u128,
    /// Time since the last frame was due.
    pub elapsed_since_last_frame_nanos: u128,
    /// The number of the last frame composed.
    pub frame_number: u64,
    /// The next frame is composed in full, damaged or not.
    pub force_full_redraw: bool,
}

/// `n / d` rounded to the nearest integer, an exact half going to the even
/// neighbour (`d > 0`, `n >= 0`).
pub open spec fn div_round_half_even(n: int, d: int) -> int {
    let q = n / d;
    let r = n % d;
    if 2 * r > d {
        q + 1
    } else if 2 * r < d {
        q
    } else if q % 2 == 0 {
        q
    } else {
        q + 1
    }
}

/// The refresh interval of an output refreshing `refresh_hz` times a second
/// (at least once a second): one second divided by the rate, rounded to the
/// nearest nanosecond with an exact half going to the even neighbour, as a
/// duration built from the period in seconds rounds. So 60 Hz gives
/// 16,666,667 ns and 1024 Hz gives 976,562 ns.
pub open spec fn refresh_interval_for(refresh_hz: u32) -> u128 {
    let hz: int = if refresh_hz == 0 { 1 } else { refresh_hz as int };
    div_round_half_even(1_000_000_000int, hz) as u128
}

/// A new output's schedule: nothing elapsed, no frame yet, and a full redraw
/// forced for the first frame.
pub open spec fn initial_schedule(refresh_hz: u32) -> OutputSchedule {
    OutputSchedule {
        refresh_interval_nanos: refresh_interval_for(refresh_hz),
        elapsed_since_last_frame_nanos: 0,
        frame_number: 0,
        force_full_redraw: true,
    }
}

impl OutputSchedule {
    fn new(refresh_hz: u32) -> (s: OutputSchedule)
        ensures
            s == initial_schedule(refresh_hz),
    {
        let hz: u128 = if refresh_hz == 0 { 1 } else { refresh_hz as u128 };
        let q: u128 = 1_000_000_000u128 / hz;
        let r: u128 = 1_000_000_000u128 % hz;
        let interval: u128 = if 2 * r > hz {
            q + 1
        } else if 2 * r < hz {
            q
        } else if q % 2 == 0 {
            q
        } else {
            q + 1
        };
        OutputSchedule {
            refresh_interval_nanos: interval,
            elapsed_since_last_frame_nanos: 0,
            frame_number: 0,
            force_full_redraw: true,
        }
    }
}

/// `a + b`, saturated at the largest `u128`.
pub open spec fn saturating_sum(a: u128, b: u128) -> u128 {
    if a + b > u128::MAX { u128::MAX } else { (a + b) as u128 }
}

/// After `dt` more nanoseconds, a frame of the output is due.
pub open spec fn is_due(s: OutputSchedule, dt: u128) -> bool {
    saturating_sum(s.elapsed_since_last_frame_nanos, dt) >= s.refresh_interval_nanos
}

/// After `dt` more nanoseconds, `output` gets a frame: it is due, and either
/// some node on it is damaged or a full redraw was requested.
pub open spec fn reports_frame(s: OutputSchedule, dt: u128, scene: Seq<(ObjectId, SceneNode)>, output: ObjectId) -> bool {
    is_due(s, dt) && (output_damaged(scene, output) || s.force_full_redraw)
}

/// The schedule of `output` after a tick of `dt` nanoseconds.
pub open spec fn schedule_after(s: OutputSchedule, dt: u128, scene: Seq<(ObjectId, SceneNode)>, output: ObjectId) -> OutputSchedule {
    if !is_due(s, dt) {
        OutputSchedule { elapsed_since_last_frame_nanos: saturating_sum(s.elapsed_since_last_frame_nanos, dt), ..s }
    } else if !reports_frame(s, dt, scene, output) {
        OutputSchedule { elapsed_since_last_frame_nanos: 0, ..s }
    } else {
        OutputSchedule {
            elapsed_since_last_frame_nanos: 0,
            force_full_redraw: false,
            frame_number: (s.frame_number + 1) as u64,
            ..s
        }
    }
}

/// Every schedule of `schedules` after a tick of `dt` nanoseconds.
pub open spec fn schedules_after(
    schedules: Seq<(ObjectId, OutputSchedule)>,
    dt: u128,
    scene: Seq<(ObjectId, SceneNode)>,
) -> Seq<(ObjectId, OutputSchedule)> {
    schedules.map_values(|e: (ObjectId, OutputSchedule)| (e.0, schedule_after(e.1, dt, scene, e.0)))
}

/// The outputs of `schedules` that get a frame in a tick of `dt`
/// nanoseconds, in order.
pub open spec fn reporting(
    schedules: Seq<(ObjectId, OutputSchedule)>,
    dt: u128,
    scene: Seq<(ObjectId, SceneNode)>,
) -> Seq<(ObjectId, OutputSchedule)> {
    schedules.filter(|e: (ObjectId, OutputSchedule)| reports_frame(e.1, dt, scene, e.0))
}

/// The damage regions carried by `ns`, in order.
pub open spec fn damage_of(ns: Seq<SceneNode>) -> Seq<Rect>
    decreases ns.len(),
{
    if ns.len() == 0 {
        Seq::empty()
    } else {
        match ns.last().damage {
            Some(d) => damage_of(ns.drop_last()).push(d),
            None => damage_of(ns.drop_last()),
        }
    }
}

/// `r` is the report of `output`, whose schedule was `s`, over scene
/// `scene`: the next frame number, a full redraw exactly when one was
/// forced, and the damage of the nodes composited onto the output, in the
/// back-to-front order of `z_ordered`.
pub open spec fn report_for(r: FrameReport, output: ObjectId, s: OutputSchedule, scene: Seq<(ObjectId, SceneNode)>) -> bool {
    &&& r.output_id == output
    &&& r.frame_number == s.frame_number + 1
    &&& r.full_redraw == s.force_full_redraw
    &&& r.damage@ == damage_of(z_ordered(scene, output))
    &&& r.composited_nodes == z_ordered(scene, output).len()
}

/// Node `n` is composited onto one of the outputs of `schedules` that gets a
/// frame in a tick of `dt` nanoseconds.
pub open spec fn cleared_by(
    n: SceneNode,
    schedules: Seq<(ObjectId, OutputSchedule)>,
    dt: u128,
    scene: Seq<(ObjectId, SceneNode)>,
) -> bool {
    exists|j: int|
        0 <= j < schedules.len() && composited_on(n, #[trigger] schedules[j].0)
            && reports_frame(schedules[j].1, dt, scene, schedules[j].0)
}

/// The scene after a tick: every node composited onto an output that got a
/// frame has had its damage consumed.
pub open spec fn scene_after(
    scene: Seq<(ObjectId, SceneNode)>,
    schedules: Seq<(ObjectId, OutputSchedule)>,
    dt: u128,
) -> Seq<(ObjectId, SceneNode)> {
    scene.map_values(
        |e: (ObjectId, SceneNode)|
            if cleared_by(e.1, schedules, dt, scene) {
                (e.0, SceneNode { damage: None, ..e.1 })
            } else {
                e
            },
    )
}

/// `n` after each region of `regions`, in order, was marked as damage on it.
pub open spec fn damaged_by_all(n: SceneNode, regions: Seq<Rect>) -> SceneNode
    decreases regions.len(),
{
    if regions.len() == 0 {
        n
    } else {
        damaged(damaged_by_all(n, regions.drop_last()), regions.last())
    }
}

/// `new` is `old` after surface `surface_id` was committed onto scene node
/// `node_id`, with outcome `r`: the surface's pending damage is drained and
/// marked, region by region, on the node, and its frame callback is
/// acknowledged. A missing surface changes nothing; a missing node, when
/// there is damage to mark, leaves the surface committed but not
/// acknowledged.
pub open spec fn surface_committed(old: Compositor, new: Compositor, surface_id: ObjectId, node_id: ObjectId, r: Result<(), Error>) -> bool
{
    let ss = old.surface_manager()@;
    let g = old.scene_graph()@;
    let fs = new.surface_manager()@;
    let fg = new.scene_graph()@;
    let k = key_index(ss, surface_id);
    let pending = lookup(ss, surface_id).damage@;
    if !has_key(ss, surface_id) {
        &&& r matches Err(e) && is_device_error(e, "surface not found"@)
        &&& fs == ss
        &&& fg == g
    } else {
        &&& fs.len() == ss.len()
        &&& fs[k].0 == surface_id
        &&& fs[k].1.damage@ == Seq::<Rect>::empty()
        &&& fs[k].1.buffer_id is None
        &&& same_but_pending_state(fs[k].1, ss[k].1)
        &&& forall|i: int| 0 <= i < ss.len() && i != k ==> #[trigger] fs[i] == ss[i]
        &&& if pending.len() > 0 && !has_key(g, node_id) {
            &&& r matches Err(e) && is_device_error(e, "scene node not found"@)
            &&& fs[k].1.frame_callback_pending
            &&& fg == g
        } else {
            &&& r is Ok
            &&& !fs[k].1.frame_callback_pending
            &&& if pending.len() > 0 {
                fg == g.update(key_index(g, node_id), (node_id, damaged_by_all(lookup(g, node_id), pending)))
            } else {
                fg == g
            }
        }
    }
}

/// The compositor: the scene graph, the surfaces, and one frame schedule per
/// registered output.
pub struct Compositor {
    scene: SceneGraph,
    surfaces: SurfaceManager,
    schedules: IdMap<OutputSchedule>,
}

/// `new` is `old` after a tick of `dt` nanoseconds that produced `reports`:
/// each schedule advanced, one report per output that got a frame (in
/// schedule order), the damage of the composited nodes consumed, and the
/// surfaces untouched.
pub open spec fn ticked(old: Compositor, new: Compositor, reports: Seq<FrameReport>, dt: u128) -> bool {
    let rep = reporting(old.schedules_view(), dt, old.scene_graph()@);
    &&& new.wf()
    &&& new.surface_manager() == old.surface_manager()
    &&& new.scene_graph().handles_left() == old.scene_graph().handles_left()
    &&& new.scene_graph()@ == scene_after(old.scene_graph()@, old.schedules_view(), dt)
    &&& new.schedules_view() == schedules_after(old.schedules_view(), dt, old.scene_graph()@)
    &&& reports.len() == rep.len()
    &&& forall|k: int| 0 <= k < reports.len() ==> report_for(#[trigger] reports[k], rep[k].0, rep[k].1, old.scene_graph()@)
}

impl Compositor {
    /// The scene graph.
    pub closed spec fn scene_graph(&self) -> SceneGraph {
        self.scene
    }

    /// The surfaces.
    pub closed spec fn surface_manager(&self) -> SurfaceManager {
        self.surfaces
    }

    /// The registered outputs and their schedules, in registration order.
    pub closed spec fn schedules_view(&self) -> Seq<(ObjectId, OutputSchedule)> {
        self.schedules@
    }

    /// The parts are well formed.
    pub open spec fn wf(&self) -> bool {
        &&& self.scene_graph().wf()
        &&& self.surface_manager().wf()
        &&& unique_keys(self.schedules_view())
    }

    /// No output has reached the largest frame number.
    pub open spec fn can_tick(&self) -> bool {
        forall|i: int| 0 <= i < self.schedules_view().len() ==> (#[trigger] self.schedules_view()[i]).1.frame_number < u64::MAX
    }

    /// A compositor with an empty scene, no surface and no output.
    pub fn new() -> (c: Compositor)
        ensures
            c.wf(),
            c.can_tick(),
            c.scene_graph()@ == Seq::<(ObjectId, SceneNode)>::empty(),
            c.scene_graph().handles_left() == u64::MAX - 1,
            c.surface_manager()@ == Seq::<(ObjectId, crate::surfaces::SurfaceState)>::empty(),
            c.surface_manager().handles_left() == u64::MAX - 1,
            c.schedules_view() == Seq::<(ObjectId, OutputSchedule)>::empty(),
    {
        Compositor { scene: SceneGraph::new(), surfaces: SurfaceManager::new(), schedules: IdMap::new() }
    }

    /// The scene graph.
    pub fn scene(&self) -> (g: &SceneGraph)
        ensures
            *g == self.scene_graph(),
    {
        &self.scene
    }

    /// The scene graph, for update.
    pub fn scene_mut(&mut self) -> (g: &mut SceneGraph)
        ensures
            *g == old(self).scene_graph(),
            final(self).scene_graph() == *final(g),
            final(self).surface_manager() == old(self).surface_manager(),
            final(self).schedules_view() == old(self).schedules_view(),
    {
        &mut self.scene
    }

    /// The surfaces.
    pub fn surfaces(&self) -> (s: &SurfaceManager)
        ensures
            *s == self.surface_manager(),
    {
        &self.surfaces
    }

    /// The surfaces, for update.
    pub fn surfaces_mut(&mut self) -> (s: &mut SurfaceManager)
        ensures
            *s == old(self).surface_manager(),
            final(self).surface_manager() == *final(s),
            final(self).scene_graph() == old(self).scene_graph(),
            final(self).schedules_view() == old(self).schedules_view(),
    {
        &mut self.surfaces
    }

    /// Starts pacing frames for `output_id` at `refresh_hz`, replacing any
    /// schedule it had.
    pub fn register_output(&mut self, output_id: ObjectId, refresh_hz: u32)
        requires
            old(self).wf(),
        ensures
            final(self).wf(),
            final(self).scene_graph() == old(self).scene_graph(),
            final(self).surface_manager() == old(self).surface_manager(),
            !has_key(old(self).schedules_view(), output_id) ==> final(self).schedules_view()
                == old(self).schedules_view().push((output_id, initial_schedule(refresh_hz))),
            has_key(old(self).schedules_view(), output_id) ==> final(self).schedules_view()
                == old(self).schedules_view().update(
                key_index(old(self).schedules_view(), output_id),
                (output_id, initial_schedule(refresh_hz)),
            ),
    {
        self.schedules.insert(output_id, OutputSchedule::new(refresh_hz));
    }

    /// Stops pacing frames for `output_id`.
    pub fn unregister_output(&mut self, output_id: &ObjectId)
        requires
            old(self).wf(),
        ensures
            final(self).wf(),
            final(self).scene_graph() == old(self).scene_graph(),
            final(self).surface_manager() == old(self).surface_manager(),
            !has_key(old(self).schedules_view(), *output_id) ==> final(self).schedules_view() == old(self).schedules_view(),
            has_key(old(self).schedules_view(), *output_id) ==> final(self).schedules_view()
                == old(self).schedules_view().remove(key_index(old(self).schedules_view(), *output_id)),
    {
        self.schedules.remove(*output_id);
    }

    /// Forces the next frame of `output_id`, if registered, to be a full
    /// redraw.
    pub fn request_full_redraw(&mut self, output_id: &ObjectId)
        requires
            old(self).wf(),
        ensures
            final(self).wf(),
            final(self).scene_graph() == old(self).scene_graph(),
            final(self).surface_manager() == old(self).surface_manager(),
            !has_key(old(self).schedules_view(), *output_id) ==> final(self).schedules_view() == old(self).schedules_view(),
            has_key(old(self).schedules_view(), *output_id) ==> final(self).schedules_view()
                == old(self).schedules_view().update(
                key_index(old(self).schedules_view(), *output_id),
                (*output_id, OutputSchedule { force_full_redraw: true, ..lookup(old(self).schedules_view(), *output_id) }),
            ),
    {
        match self.schedules.get_mut(*output_id) {
            Some(schedule) => {
                schedule.force_full_redraw = true;
            },
            None => {},
        }
    }

    /// Advances every output's clock by `dt`, and composes a frame for each
    /// output whose refresh interval has elapsed and that has damage or a
    /// forced full redraw. An output with nothing to draw gets no report.
    pub fn tick(&mut self, dt: Duration) -> (reports: Vec<FrameReport>)
        requires
            old(self).wf(),
            old(self).can_tick(),
        ensures
            ticked(*old(self), *final(self), reports@, nanos_of(dt)),
    {
        let dt_nanos = duration_as_nanos(&dt);
        self.advance(dt_nanos)
    }

    /// `tick`, with the time step given in nanoseconds.
    pub fn advance(&mut self, dt_nanos: u128) -> (reports: Vec<FrameReport>)
        requires
            old(self).wf(),
            old(self).can_tick(),
        ensures
            ticked(*old(self), *final(self), reports@, dt_nanos),
    {
        let ghost s0 = self.schedules@;
        let ghost g0 = self.scene@;
        let mut reports: Vec<FrameReport> = Vec::new();
        let mut i: usize = 0;
        proof {
            reveal_with_fuel(Seq::<_>::filter, 1);
            assert(s0.take(0) =~= Seq::<(ObjectId, OutputSchedule)>::empty());
            assert(scene_after(g0, s0.take(0), dt_nanos) =~= g0);
        }
        while i < self.schedules.len()
            invariant
                self.wf(),
                self.surfaces == old(self).surfaces,
                self.scene.handles_left() == old(self).scene.handles_left(),
                s0 == old(self).schedules@,
                g0 == old(self).scene@,
                unique_keys(s0),
                forall|j: int| 0 <= j < s0.len() ==> (#[trigger] s0[j]).1.frame_number < u64::MAX,
                i <= s0.len(),
                self.schedules@.len() == s0.len(),
                forall|j: int| 0 <= j < i ==> #[trigger] self.schedules@[j] == (s0[j].0, schedule_after(s0[j].1, dt_nanos, g0, s0[j].0)),
                forall|j: int| i <= j < s0.len() ==> #[trigger] self.schedules@[j] == s0[j],
                self.scene@ == scene_after(g0, s0.take(i as int), dt_nanos),
                reports@.len() == reporting(s0.take(i as int), dt_nanos, g0).len(),
                forall|k: int| 0 <= k < reports@.len() ==> report_for(
                    #[trigger] reports@[k],
                    reporting(s0.take(i as int), dt_nanos, g0)[k].0,
                    reporting(s0.take(i as int), dt_nanos, g0)[k].1,
                    g0,
                ),
            decreases s0.len() - i,
        {
            let output_id = self.schedules.key_at(i);
            let ghost s = s0[i as int].1;
            proof {
                reveal_with_fuel(Seq::<_>::filter, 1);
                assert(s0.take(i + 1).drop_last() =~= s0.take(i as int));
                assert(s0.take(i + 1).last() == s0[i as int]);
                lemma_untouched_output(g0, s0.take(i as int), dt_nanos, output_id, s0, i as int);
            }
            let due = {
                let schedule = self.schedules.value_at_mut(i);
                schedule.elapsed_since_last_frame_nanos = schedule.elapsed_since_last_frame_nanos.saturating_add(dt_nanos);
                schedule.elapsed_since_last_frame_nanos >= schedule.refresh_interval_nanos
            };
            if !due {
                proof {
                    lemma_scene_after_step(g0, s0, dt_nanos, i as int);
                }
                i = i + 1;
                continue;
            }
            let has_damage = self.scene.has_damage(&output_id);
            let schedule = self.schedules.value_at_mut(i);
            if !has_damage && !schedule.force_full_redraw {
                schedule.elapsed_since_last_frame_nanos = 0;
                proof {
                    lemma_scene_after_step(g0, s0, dt_nanos, i as int);
                }
                i = i + 1;
                continue;
            }
            let full_redraw = schedule.force_full_redraw;
            schedule.force_full_redraw = false;
            schedule.elapsed_since_last_frame_nanos = 0;
            schedule.frame_number = schedule.frame_number + 1;
            let frame_number = schedule.frame_number;
            let ghost mid_scene = self.scene@;
            let report = self.compose(output_id, frame_number, full_redraw);
            proof {
                lemma_scene_after_step(g0, s0, dt_nanos, i as int);
                assert(reporting(s0.take(i + 1), dt_nanos, g0) =~= reporting(s0.take(i as int), dt_nanos, g0).push(s0[i as int]));
            }
            reports.push(report);
            i = i + 1;
        }
        proof {
            assert(s0.take(s0.len() as int) =~= s0);
            assert(self.schedules@ =~= schedules_after(s0, dt_nanos, g0));
        }
        reports
    }

    /// Composes one frame of `output_id`: reports the damage of the nodes
    /// composited onto it, back to front, and consumes that damage.
    fn compose(&mut self, output_id: ObjectId, frame_number: u64, full_redraw: bool) -> (r: FrameReport)
        requires
            old(self).wf(),
        ensures
            final(self).wf(),
            final(self).surfaces == old(self).surfaces,
            final(self).schedules == old(self).schedules,
            final(self).scene.handles_left() == old(self).scene.handles_left(),
            final(self).scene@ == cleared_on_output(old(self).scene@, output_id),
            r.output_id == output_id,
            r.frame_number == frame_number,
            r.full_redraw == full_redraw,
            r.damage@ == damage_of(z_ordered(old(self).scene@, output_id)),
            r.composited_nodes == z_ordered(old(self).scene@, output_id).len(),
    {
        let ghost ns: Seq<SceneNode>;
        let mut damage: Vec<Rect> = Vec::new();
        let count: usize;
        {
            let nodes = self.scene.z_ordered_for_output(&output_id);
            proof {
                ns = deref_nodes(nodes@);
                assert(ns.take(0) =~= Seq::<SceneNode>::empty());
            }
            let mut i: usize = 0;
            while i < nodes.len()
                invariant
                    i <= nodes@.len(),
                    ns == deref_nodes(nodes@),
                    damage@ == damage_of(ns.take(i as int)),
                decreases nodes@.len() - i,
            {
                proof {
                    assert(ns.take(i + 1).drop_last() =~= ns.take(i as int));
                    assert(ns.take(i + 1).last() == *nodes@[i as int]);
                }
                match nodes[i].damage {
                    Some(region) => {
                        damage.push(region);
                    },
                    None => {},
                }
                i = i + 1;
            }
            proof {
                assert(ns.take(nodes@.len() as int) =~= ns);
            }
            count = nodes.len();
        }
        self.scene.clear_damage_on_output(&output_id);
        FrameReport { output_id, frame_number, full_redraw, damage, composited_nodes: count }
    }

    /// Commits the surface under `surface_id` and marks the damage it had
    /// accumulated, region by region, on the scene node under `node_id`;
    /// then acknowledges the surface's frame callback.
    pub fn commit_surface(&mut self, surface_id: &ObjectId, node_id: &ObjectId) -> (r: Result<(), Error>)
        requires
            old(self).wf(),
        ensures
            final(self).wf(),
            final(self).schedules_view() == old(self).schedules_view(),
            final(self).scene_graph().handles_left() == old(self).scene_graph().handles_left(),
            final(self).surface_manager().handles_left() == old(self).surface_manager().handles_left(),
            surface_committed(*old(self), *final(self), *surface_id, *node_id, r),
    {
        let damage_regions = match self.surfaces.commit(surface_id) {
            Ok(d) => d,
            Err(e) => {
                return Err(e);
            },
        };
        let ghost g = self.scene@;
        let ghost committed = self.surfaces;
        let mut i: usize = 0;
        while i < damage_regions.len()
            invariant
                self.scene.wf(),
                self.surfaces == committed,
                committed.wf(),
                committed.handles_left() == old(self).surfaces.handles_left(),
                has_key(old(self).surfaces@, *surface_id),
                unique_keys(old(self).surfaces@),
                unique_keys(g),
                damage_regions@ == lookup(old(self).surfaces@, *surface_id).damage@,
                committed@.len() == old(self).surfaces@.len(),
                committed@[key_index(old(self).surfaces@, *surface_id)].0 == *surface_id,
                committed@[key_index(old(self).surfaces@, *surface_id)].1.damage@ == Seq::<Rect>::empty(),
                committed@[key_index(old(self).surfaces@, *surface_id)].1.frame_callback_pending,
                committed@[key_index(old(self).surfaces@, *surface_id)].1.buffer_id is None,
                same_but_pending_state(committed@[key_index(old(self).surfaces@, *surface_id)].1, lookup(old(self).surfaces@, *surface_id)),
                forall|j: int| 0 <= j < old(self).surfaces@.len() && j != key_index(old(self).surfaces@, *surface_id)
                    ==> #[trigger] committed@[j] == old(self).surfaces@[j],
                self.schedules == old(self).schedules,
                unique_keys(self.schedules@),
                self.scene.handles_left() == old(self).scene.handles_left(),
                g == old(self).scene@,
                i <= damage_regions@.len(),
                i == 0 ==> self.scene@ == g,
                i > 0 ==> has_key(g, *node_id) && self.scene@ == g.update(
                    key_index(g, *node_id),
                    (*node_id, damaged_by_all(lookup(g, *node_id), damage_regions@.take(i as int))),
                ),
            decreases damage_regions@.len() - i,
        {
            let ghost before = self.scene@;
            match self.scene.mark_damage(node_id, damage_regions[i]) {
                Ok(()) => {},
                Err(e) => {
                    proof {
                        lemma_index_unique(old(self).surfaces@, key_index(old(self).surfaces@, *surface_id));
                        if i > 0 {
                            lemma_index_unique(g, key_index(g, *node_id));
                            assert(before[key_index(g, *node_id)].0 == *node_id);
                            assert(has_key(before, *node_id));
                        }
                        assert(i == 0);
                        assert(damage_regions@.len() > 0);
                    }
                    return Err(e);
                },
            }
            proof {
                let k = key_index(g, *node_id);
                assert(damage_regions@.take(i + 1).drop_last() =~= damage_regions@.take(i as int));
                if i > 0 {
                    lemma_index_unique(before, k);
                    assert(key_index(before, *node_id) == k);
                } else {
                    assert(damage_regions@.take(0) =~= Seq::<Rect>::empty());
                }
                assert(self.scene@ =~= g.update(k, (*node_id, damaged_by_all(lookup(g, *node_id), damage_regions@.take(i + 1)))));
            }
            i = i + 1;
        }
        proof {
            assert(damage_regions@.take(damage_regions@.len() as int) =~= damage_regions@);
            lemma_index_unique(old(self).surfaces@, key_index(old(self).surfaces@, *surface_id));
            lemma_index_unique(self.surfaces@, key_index(old(self).surfaces@, *surface_id));
        }
        self.surfaces.ack_frame_callback(surface_id)
    }
}

impl Default for Compositor {
    fn default() -> (c: Compositor)
        ensures
            c.wf(),
            c.can_tick(),
            c.scene_graph()@ == Seq::<(ObjectId, SceneNode)>::empty(),
            c.surface_manager()@ == Seq::<(ObjectId, crate::surfaces::SurfaceState)>::empty(),
            c.schedules_view() == Seq::<(ObjectId, OutputSchedule)>::empty(),
    {
        Compositor::new()
    }
}

/// The whole number of nanoseconds in `d`, as `Duration::as_nanos` gives it.
pub uninterp spec fn nanos_of(d: Duration) -> u128;

/// The length of time `d` in nanoseconds.
///
/// Calls `Duration::as_nanos`, which returns the whole nanoseconds that the
/// duration holds and depends on the duration alone. The contract claims
/// only that the result is `nanos_of(*d)`.
#[verifier::external_body]
fn duration_as_nanos(d: &Duration) -> (n: u128)
    ensures
        n == nanos_of(*d),
{
    d.as_nanos()
}

/// Every frame a tick reports counts all the visible nodes placed on its
/// output when the tick began, whether or not they carried damage.
pub proof fn lemma_frames_count_every_visible_node(
    old: Compositor,
    new: Compositor,
    reports: Seq<FrameReport>,
    dt: u128,
)
    requires
        ticked(old, new, reports, dt),
    ensures
        forall|k: int| 0 <= k < reports.len() ==> (#[trigger] reports[k]).composited_nodes
            == old.scene_graph()@.filter(
            |e: (ObjectId, SceneNode)| e.1.visible && e.1.output_id == Some(reports[k].output_id),
        ).len(),
{
    let rep = reporting(old.schedules_view(), dt, old.scene_graph()@);
    assert forall|k: int| 0 <= k < reports.len() implies (#[trigger] reports[k]).composited_nodes
        == old.scene_graph()@.filter(
        |e: (ObjectId, SceneNode)| e.1.visible && e.1.output_id == Some(reports[k].output_id),
    ).len() by {
        let o = rep[k].0;
        assert(report_for(reports[k], o, rep[k].1, old.scene_graph()@));
        lemma_z_sorted_len(composited_nodes(old.scene_graph()@, o));
        lemma_composited_count(old.scene_graph()@, o);
    }
}

/// Every coordinate of `r` lies within 2^61 of the origin and its size is
/// not negative, so that unions of such rectangles are never clamped.
pub open spec fn within_reach(r: Rect) -> bool {
    &&& r.size.width >= 0
    &&& r.size.height >= 0
    &&& -0x2000_0000_0000_0000int <= r.origin.x
    &&& -0x2000_0000_0000_0000int <= r.origin.y
    &&& right_edge(r) <= 0x2000_0000_0000_0000int
    &&& bottom_edge(r) <= 0x2000_0000_0000_0000int
}

/// Marking regions one after another on a node leaves its damage covering
/// every one of them and the damage it had before, and changes nothing else
/// of the node.
pub proof fn lemma_marked_damage_covers_all(n: SceneNode, regions: Seq<Rect>)
    requires
        forall|i: int| 0 <= i < regions.len() ==> within_reach(#[trigger] regions[i]),
        n.damage matches Some(d) ==> within_reach(d),
    ensures
        damaged_by_all(n, regions) == (SceneNode { damage: damaged_by_all(n, regions).damage, ..n }),
        damaged_by_all(n, regions).damage matches Some(u) ==> within_reach(u),
        regions.len() > 0 ==> damaged_by_all(n, regions).damage is Some,
        damaged_by_all(n, regions).damage matches Some(u) ==> {
            &&& forall|i: int| 0 <= i < regions.len() ==> rect_covers(u, #[trigger] regions[i])
            &&& (n.damage matches Some(d) ==> rect_covers(u, d))
        },
        regions.len() == 0 ==> damaged_by_all(n, regions) == n,
    decreases regions.len(),
{
    if regions.len() > 0 {
        let init = regions.drop_last();
        let last = regions.last();
        assert forall|i: int| 0 <= i < init.len() implies within_reach(#[trigger] init[i]) by {
            assert(init[i] == regions[i]);
        }
        lemma_marked_damage_covers_all(n, init);
        let m = damaged_by_all(n, init);
        assert(within_reach(regions[regions.len() - 1]));
        match m.damage {
            Some(e) => {
                assert(union_fits(e, last));
                lemma_union_covers(e, last);
                let u = rect_union(e, last);
                assert forall|i: int| 0 <= i < regions.len() implies rect_covers(u, #[trigger] regions[i]) by {
                    if i < init.len() {
                        assert(init[i] == regions[i]);
                        assert(rect_covers(e, init[i]));
                    }
                }
            },
            None => {
                assert forall|i: int| 0 <= i < regions.len() implies rect_covers(last, #[trigger] regions[i]) by {
                    if i < init.len() {
                        assert(init.len() == 0);
                    }
                }
            },
        }
    }
}

/// Committing a surface marks all of its pending damage on the node: when
/// the commit succeeds with regions pending, the node's damage covers every
/// pending region and the damage the node had before.
pub proof fn lemma_commit_marks_every_region(
    old: Compositor,
    new: Compositor,
    surface_id: ObjectId,
    node_id: ObjectId,
    r: Result<(), Error>,
)
    requires
        old.wf(),
        surface_committed(old, new, surface_id, node_id, r),
        r is Ok,
        has_key(old.surface_manager()@, surface_id),
        lookup(old.surface_manager()@, surface_id).damage@.len() > 0,
        forall|i: int| 0 <= i < lookup(old.surface_manager()@, surface_id).damage@.len()
            ==> within_reach(#[trigger] lookup(old.surface_manager()@, surface_id).damage@[i]),
        has_key(old.scene_graph()@, node_id) ==> (lookup(old.scene_graph()@, node_id).damage matches Some(d)
            ==> within_reach(d)),
    ensures
        has_key(old.scene_graph()@, node_id),
        has_key(new.scene_graph()@, node_id),
        lookup(new.scene_graph()@, node_id).damage matches Some(u) && {
            let pending = lookup(old.surface_manager()@, surface_id).damage@;
            &&& forall|i: int| 0 <= i < pending.len() ==> rect_covers(u, #[trigger] pending[i])
            &&& (lookup(old.scene_graph()@, node_id).damage matches Some(d) ==> rect_covers(u, d))
        },
{
    let g = old.scene_graph()@;
    let pending = lookup(old.surface_manager()@, surface_id).damage@;
    let k = key_index(g, node_id);
    let v = damaged_by_all(lookup(g, node_id), pending);
    lemma_index_unique(g, k);
    crate::idmap::lemma_update(g, k, v);
    lemma_marked_damage_covers_all(lookup(g, node_id), pending);
}

/// While the outputs before position `i` are processed, the nodes placed on
/// the output at position `i` are untouched: whether that output is damaged,
/// and which nodes are composited onto it, is as at the start of the tick.
proof fn lemma_untouched_output(
    g0: Seq<(ObjectId, SceneNode)>,
    prefix: Seq<(ObjectId, OutputSchedule)>,
    dt: u128,
    output: ObjectId,
    s0: Seq<(ObjectId, OutputSchedule)>,
    i: int,
)
    requires
        unique_keys(s0),
        0 <= i < s0.len(),
        prefix == s0.take(i),
        output == s0[i].0,
    ensures
        output_damaged(scene_after(g0, prefix, dt), output) == output_damaged(g0, output),
        composited_nodes(scene_after(g0, prefix, dt), output) == composited_nodes(g0, output),
{
    let g = scene_after(g0, prefix, dt);
    assert forall|j: int| 0 <= j < g0.len() && g0[j].1.output_id == Some(output) implies #[trigger] g[j] == g0[j] by {
        if cleared_by(g0[j].1, prefix, dt, g0) {
            let m = choose|m: int| 0 <= m < prefix.len() && composited_on(g0[j].1, #[trigger] prefix[m].0)
                && reports_frame(prefix[m].1, dt, g0, prefix[m].0);
            assert(prefix[m] == s0[m]);
            assert(s0[m].0 != s0[i].0);
        }
    }
    assert forall|j: int| 0 <= j < g0.len() implies #[trigger] g[j].1.output_id == g0[j].1.output_id
        && g[j].1.visible == g0[j].1.visible by {}
    if output_damaged(g0, output) {
        let j = choose|j: int| 0 <= j < g0.len() && #[trigger] g0[j].1.output_id == Some(output) && g0[j].1.damage is Some;
        assert(g[j] == g0[j]);
    }
    if output_damaged(g, output) {
        let j = choose|j: int| 0 <= j < g.len() && #[trigger] g[j].1.output_id == Some(output) && g[j].1.damage is Some;
        assert(g[j] == g0[j]);
    }
    let pred = |n: SceneNode| composited_on(n, output);
    assert forall|j: int| 0 <= j < g0.len() implies pred(#[trigger] node_values(g)[j]) == pred(node_values(g0)[j]) by {}
    assert forall|j: int| 0 <= j < g0.len() && pred(#[trigger] node_values(g)[j]) implies node_values(g)[j] == node_values(g0)[j] by {
        assert(g[j] == g0[j]);
    }
    lemma_filter_agree(node_values(g), node_values(g0), pred);
}

/// Processing the output at position `i` adds to the damage consumed by the
/// tick exactly the damage of the nodes composited onto it, if it gets a
/// frame.
proof fn lemma_scene_after_step(
    g0: Seq<(ObjectId, SceneNode)>,
    s0: Seq<(ObjectId, OutputSchedule)>,
    dt: u128,
    i: int,
)
    requires
        0 <= i < s0.len(),
    ensures
        reports_frame(s0[i].1, dt, g0, s0[i].0) ==> scene_after(g0, s0.take(i + 1), dt)
            == cleared_on_output(scene_after(g0, s0.take(i), dt), s0[i].0),
        !reports_frame(s0[i].1, dt, g0, s0[i].0) ==> scene_after(g0, s0.take(i + 1), dt)
            == scene_after(g0, s0.take(i), dt),
{
    let a = s0.take(i);
    let b = s0.take(i + 1);
    let o = s0[i].0;
    assert forall|n: SceneNode| #[trigger] cleared_by(n, b, dt, g0) == (cleared_by(n, a, dt, g0)
        || (composited_on(n, o) && reports_frame(s0[i].1, dt, g0, o))) by {
        if cleared_by(n, a, dt, g0) {
            let m = choose|m: int| 0 <= m < a.len() && composited_on(n, #[trigger] a[m].0)
                && reports_frame(a[m].1, dt, g0, a[m].0);
            assert(b[m] == a[m]);
        }
        if composited_on(n, o) && reports_frame(s0[i].1, dt, g0, o) {
            assert(b[i] == s0[i]);
        }
        if cleared_by(n, b, dt, g0) {
            let m = choose|m: int| 0 <= m < b.len() && composited_on(n, #[trigger] b[m].0)
                && reports_frame(b[m].1, dt, g0, b[m].0);
            if m < i {
                assert(a[m] == b[m]);
            }
        }
    }
    if reports_frame(s0[i].1, dt, g0, o) {
        assert(scene_after(g0, b, dt) =~= cleared_on_output(scene_after(g0, a, dt), o));
    } else {
        assert(scene_after(g0, b, dt) =~= scene_after(g0, a, dt));
    }
}

} // verus!
