//! The scene graph: geometry primitives shared by the whole display server,
//! and the flat, z-ordered set of nodes that composition reads to build a
//! frame.
//!
//! Coordinates and sizes are whole logical pixels (`i64`); scale factors and
//! opacity are fixed-point thousandths (`1000` is `1.0`).

use vstd::prelude::*;
use crate::common::{ObjectId, Error, is_device_error, device_error};
use crate::idmap::{IdMap, has_key, lookup, key_index, unique_keys, set_value};

verus! {

/// A position in logical pixels.
#[derive(Clone, Copy, Debug, PartialEq, Eq, Structural)]
pub struct Point {
    pub x: i64,
    pub y: i64,
}

impl Default for Point {
    fn default() -> (p: Point)
        ensures
            p.x == 0 && p.y == 0,
    {
        Point { x: 0, y: 0 }
    }
}

/// An extent in logical pixels.
#[derive(Clone, Copy, Debug, PartialEq, Eq, Structural)]
pub struct Size {
    pub width: i64,
    pub height: i64,
}

impl Default for Size {
    fn default() -> (s: Size)
        ensures
            s.width == 0 && s.height == 0,
    {
        Size { width: 0, height: 0 }
    }
}

/// An axis-aligned rectangle: an origin and a size.
#[derive(Clone, Copy, Debug, PartialEq, Eq, Structural)]
pub struct Rect {
    pub origin: Point,
    pub size: Size,
}

/// `v` clamped into the range of `i64`.
pub open spec fn clamp_i64(v: int) -> i64 {
    if v < i64::MIN {
        i64::MIN
    } else if v > i64::MAX {
        i64::MAX
    } else {
        v as i64
    }
}

/// The smaller of two coordinates.
pub open spec fn min_coord(a: i64, b: i64) -> i64 {
    if a <= b { a } else { b }
}

/// The larger of two integers.
pub open spec fn max_int(a: int, b: int) -> int {
    if a >= b { a } else { b }
}

/// The rectangle made of the given origin and size.
pub open spec fn rect_of(x: i64, y: i64, width: i64, height: i64) -> Rect {
    Rect { origin: Point { x, y }, size: Size { width, height } }
}

/// The right edge of `r` (`x + width`).
pub open spec fn right_edge(r: Rect) -> int {
    r.origin.x + r.size.width
}

/// The bottom edge of `r` (`y + height`).
pub open spec fn bottom_edge(r: Rect) -> int {
    r.origin.y + r.size.height
}

/// The smallest rectangle spanning `a` and `b`: its origin is the smaller
/// of the two origins on each axis, its far edges the larger of the two far
/// edges. A size beyond the range of `i64` is clamped.
pub open spec fn rect_union(a: Rect, b: Rect) -> Rect {
    let x0 = min_coord(a.origin.x, b.origin.x);
    let y0 = min_coord(a.origin.y, b.origin.y);
    let x1 = max_int(right_edge(a), right_edge(b));
    let y1 = max_int(bottom_edge(a), bottom_edge(b));
    rect_of(x0, y0, clamp_i64(x1 - x0), clamp_i64(y1 - y0))
}

/// `outer` covers every point of `inner`.
pub open spec fn rect_covers(outer: Rect, inner: Rect) -> bool {
    &&& outer.origin.x <= inner.origin.x
    &&& outer.origin.y <= inner.origin.y
    &&& right_edge(inner) <= right_edge(outer)
    &&& bottom_edge(inner) <= bottom_edge(outer)
}

/// The far edges of `a` and `b` and their distance to the nearer origin fit
/// in `i64`, so that their union is not clamped.
pub open spec fn union_fits(a: Rect, b: Rect) -> bool {
    let u_w = max_int(right_edge(a), right_edge(b)) - min_coord(a.origin.x, b.origin.x);
    let u_h = max_int(bottom_edge(a), bottom_edge(b)) - min_coord(a.origin.y, b.origin.y);
    &&& i64::MIN <= u_w <= i64::MAX
    &&& i64::MIN <= u_h <= i64::MAX
}

impl Rect {
    /// The rectangle with origin `(x, y)` and the given size.
    pub fn new(x: i64, y: i64, width: i64, height: i64) -> (r: Rect)
        ensures
            r == rect_of(x, y, width, height),
    {
        Rect { origin: Point { x, y }, size: Size { width, height } }
    }

    /// The smallest rectangle spanning both rectangles.
    pub fn union(&self, other: &Rect) -> (r: Rect)
        ensures
            r == rect_union(*self, *other),
    {
        let x0 = if self.origin.x <= other.origin.x { self.origin.x } else { other.origin.x };
        let y0 = if self.origin.y <= other.origin.y { self.origin.y } else { other.origin.y };
        let ax1: i128 = self.origin.x as i128 + self.size.width as i128;
        let bx1: i128 = other.origin.x as i128 + other.size.width as i128;
        let ay1: i128 = self.origin.y as i128 + self.size.height as i128;
        let by1: i128 = other.origin.y as i128 + other.size.height as i128;
        let x1: i128 = if ax1 >= bx1 { ax1 } else { bx1 };
        let y1: i128 = if ay1 >= by1 { ay1 } else { by1 };
        let w = clamp_to_i64(x1 - x0 as i128);
        let h = clamp_to_i64(y1 - y0 as i128);
        Rect { origin: Point { x: x0, y: y0 }, size: Size { width: w, height: h } }
    }
}

fn clamp_to_i64(v: i128) -> (r: i64)
    ensures
        r == clamp_i64(v as int),
{
    if v < i64::MIN as i128 {
        i64::MIN
    } else if v > i64::MAX as i128 {
        i64::MAX
    } else {
        v as i64
    }
}

/// The union is symmetric in its arguments.
pub proof fn lemma_union_commutative(a: Rect, b: Rect)
    ensures
        rect_union(a, b) == rect_union(b, a),
{
}

/// The union of a rectangle with itself is that rectangle.
pub proof fn lemma_union_idempotent(a: Rect)
    ensures
        rect_union(a, a) == a,
{
}

/// When nothing is clamped and both sizes are non-negative, the union covers
/// both rectangles.
pub proof fn lemma_union_covers(a: Rect, b: Rect)
    requires
        union_fits(a, b),
        a.size.width >= 0 && a.size.height >= 0,
        b.size.width >= 0 && b.size.height >= 0,
    ensures
        rect_covers(rect_union(a, b), a),
        rect_covers(rect_union(a, b), b),
{
}

/// A scale and a rotation. `scale_milli` is in thousandths.
#[derive(Clone, Copy, Debug, PartialEq, Eq, Structural)]
pub struct Transform {
    pub scale_milli: i64,
    pub rotation_degrees: i64,
}

impl Default for Transform {
    fn default() -> (t: Transform)
        ensures
            t.scale_milli == 0 && t.rotation_degrees == 0,
    {
        Transform { scale_milli: 0, rotation_degrees: 0 }
    }
}

impl Transform {
    /// Scale one, no rotation.
    pub fn identity() -> (t: Transform)
        ensures
            t.scale_milli == 1000 && t.rotation_degrees == 0,
    {
        Transform { scale_milli: 1000, rotation_degrees: 0 }
    }
}

/// What a scene node shows.
#[derive(Clone, Copy, Debug, PartialEq, Eq, Structural)]
pub enum NodeKind {
    Window,
    Dialog,
    Menu,
    Popover,
    Tooltip,
    Notification,
    Panel,
    Desktop,
    Wallpaper,
    Overlay,
    Cursor,
    SystemUi,
}

/// Where and how a node takes part in composition.
///
/// `opacity_milli` is in thousandths (`1000` is opaque).
#[derive(Clone, Copy, Debug)]
pub struct SceneNode {
    pub id: ObjectId,
    pub kind: NodeKind,
    pub position: Point,
    pub size: Size,
    pub transform: Transform,
    pub opacity_milli: u16,
    pub z_order: i32,
    pub visible: bool,
    pub input_region: Option<Rect>,
    pub damage: Option<Rect>,
    pub output_id: Option<ObjectId>,
}

/// The handle a node carries before a scene graph has assigned it one.
pub open spec fn unassigned_id() -> ObjectId {
    ObjectId(0)
}

/// A fresh node of the given kind: at the origin, of zero size, untransformed,
/// opaque, at depth zero, visible, with no input region, no damage and no
/// output.
pub open spec fn fresh_node(kind: NodeKind) -> SceneNode {
    SceneNode {
        id: unassigned_id(),
        kind,
        position: Point { x: 0, y: 0 },
        size: Size { width: 0, height: 0 },
        transform: Transform { scale_milli: 1000, rotation_degrees: 0 },
        opacity_milli: 1000,
        z_order: 0,
        visible: true,
        input_region: None,
        damage: None,
        output_id: None,
    }
}

impl SceneNode {
    /// A fresh node of the given kind. Its handle is assigned when it is
    /// inserted into a scene graph.
    pub fn new(kind: NodeKind) -> (n: SceneNode)
        ensures
            n == fresh_node(kind),
    {
        SceneNode {
            id: ObjectId(0),
            kind,
            position: Point::default(),
            size: Size::default(),
            transform: Transform::identity(),
            opacity_milli: 1000,
            z_order: 0,
            visible: true,
            input_region: None,
            damage: None,
            output_id: None,
        }
    }

    /// The rectangle the node occupies.
    pub fn bounds(&self) -> (r: Rect)
        ensures
            r == (Rect { origin: self.position, size: self.size }),
    {
        Rect { origin: self.position, size: self.size }
    }
}

/// The nodes of `s`, in order.
pub open spec fn node_values(s: Seq<(ObjectId, SceneNode)>) -> Seq<SceneNode> {
    s.map_values(|e: (ObjectId, SceneNode)| e.1)
}

/// A node is composited onto `output` when it is visible and placed there.
pub open spec fn composited_on(n: SceneNode, output: ObjectId) -> bool {
    n.visible && n.output_id == Some(output)
}

/// The nodes of `s` composited onto `output`, in the order of `s`.
pub open spec fn composited_nodes(s: Seq<(ObjectId, SceneNode)>, output: ObjectId) -> Seq<SceneNode> {
    node_values(s).filter(|n: SceneNode| composited_on(n, output))
}

/// `s` is ordered back to front: depths never decrease.
pub open spec fn back_to_front(s: Seq<SceneNode>) -> bool {
    forall|i: int, j: int| 0 <= i <= j < s.len() ==> #[trigger] s[i].z_order <= #[trigger] s[j].z_order
}

/// Where `n` goes in `s`, which is ordered back to front: after the leading
/// run of nodes no deeper than `n`, so that among nodes of equal depth the
/// one inserted later is drawn later.
pub open spec fn depth_slot(s: Seq<SceneNode>, n: SceneNode) -> int
    decreases s.len(),
{
    if s.len() == 0 {
        0
    } else if s[0].z_order <= n.z_order {
        1 + depth_slot(s.drop_first(), n)
    } else {
        0
    }
}

/// `s` ordered back to front by a stable insertion: nodes of equal depth
/// keep their order in `s`.
pub open spec fn z_sorted(s: Seq<SceneNode>) -> Seq<SceneNode>
    decreases s.len(),
{
    if s.len() == 0 {
        Seq::empty()
    } else {
        let rest = z_sorted(s.drop_last());
        rest.insert(depth_slot(rest, s.last()), s.last())
    }
}

/// The nodes composited onto `output`, back to front, nodes of equal depth
/// in insertion order.
pub open spec fn z_ordered(s: Seq<(ObjectId, SceneNode)>, output: ObjectId) -> Seq<SceneNode> {
    z_sorted(composited_nodes(s, output))
}

/// The slot of a node lies within the sequence it is inserted into.
pub proof fn lemma_depth_slot_in_range(s: Seq<SceneNode>, n: SceneNode)
    ensures
        0 <= depth_slot(s, n) <= s.len(),
    decreases s.len(),
{
    if s.len() > 0 && s[0].z_order <= n.z_order {
        lemma_depth_slot_in_range(s.drop_first(), n);
    }
}

/// Sorting by depth keeps every node: the sorted sequence is as long as the
/// one sorted.
pub proof fn lemma_z_sorted_len(s: Seq<SceneNode>)
    ensures
        z_sorted(s).len() == s.len(),
    decreases s.len(),
{
    if s.len() > 0 {
        lemma_z_sorted_len(s.drop_last());
        lemma_depth_slot_in_range(z_sorted(s.drop_last()), s.last());
    }
}

/// The nodes composited onto `output` are as many as the entries of `s`
/// whose node is visible and placed on `output`.
pub proof fn lemma_composited_count(s: Seq<(ObjectId, SceneNode)>, output: ObjectId)
    ensures
        composited_nodes(s, output).len()
            == s.filter(|e: (ObjectId, SceneNode)| e.1.visible && e.1.output_id == Some(output)).len(),
    decreases s.len(),
{
    reveal_with_fuel(Seq::<_>::filter, 1);
    if s.len() > 0 {
        lemma_composited_count(s.drop_last(), output);
        assert(node_values(s).drop_last() =~= node_values(s.drop_last()));
        assert(node_values(s).last() == s.last().1);
    }
}

/// Stepping over a node no deeper than `n` moves the slot by one.
proof fn lemma_depth_slot_skip(s: Seq<SceneNode>, n: SceneNode, p: int)
    requires
        0 <= p < s.len(),
    ensures
        depth_slot(s.skip(p), n) == if s[p].z_order <= n.z_order { 1 + depth_slot(s.skip(p + 1), n) } else { 0 },
{
    assert(s.skip(p).drop_first() =~= s.skip(p + 1));
    assert(s.skip(p)[0] == s[p]);
}

/// Some node of `s` placed on `output` carries damage.
pub open spec fn output_damaged(s: Seq<(ObjectId, SceneNode)>, output: ObjectId) -> bool {
    exists|i: int| 0 <= i < s.len() && #[trigger] s[i].1.output_id == Some(output) && s[i].1.damage is Some
}

/// The damage a node carries after `region` is marked on it.
pub open spec fn damaged(n: SceneNode, region: Rect) -> SceneNode {
    SceneNode {
        damage: Some(
            match n.damage {
                Some(existing) => rect_union(existing, region),
                None => region,
            },
        ),
        ..n
    }
}

/// The entry `e` with its damage dropped if it is composited onto `output`.
pub open spec fn clear_if_on(e: (ObjectId, SceneNode), output: ObjectId) -> (ObjectId, SceneNode) {
    if composited_on(e.1, output) {
        (e.0, SceneNode { damage: None, ..e.1 })
    } else {
        e
    }
}

/// `s` with the damage of every node composited onto `output` dropped.
pub open spec fn cleared_on_output(s: Seq<(ObjectId, SceneNode)>, output: ObjectId) -> Seq<(ObjectId, SceneNode)> {
    s.map_values(|e: (ObjectId, SceneNode)| clear_if_on(e, output))
}

/// The references in `s`, followed.
pub open spec fn deref_nodes(s: Seq<&SceneNode>) -> Seq<SceneNode> {
    s.map_values(|n: &SceneNode| *n)
}

/// Inserting into a sequence adds the element to its multiset.
pub proof fn lemma_insert_multiset<A>(s: Seq<A>, p: int, x: A)
    requires
        0 <= p <= s.len(),
    ensures
        s.insert(p, x).to_multiset() == s.to_multiset().insert(x),
{
    broadcast use vstd::seq_lib::group_to_multiset_ensures;
    broadcast use vstd::multiset::group_multiset_axioms;
    let t = s.insert(p, x);
    assert(t.remove(p) =~= s);
    assert(t[p] == x);
    assert(t.to_multiset().count(x) > 0) by {
        assert(t.contains(x));
    }
    assert(t.to_multiset().remove(x).insert(x) =~= t.to_multiset());
}

/// The scene graph: a flat set of nodes, keyed by handle.
pub struct SceneGraph {
    nodes: IdMap<SceneNode>,
    next_serial: u64,
}

impl SceneGraph {
    /// The nodes and their handles, in insertion order.
    pub closed spec fn view(&self) -> Seq<(ObjectId, SceneNode)> {
        self.nodes@
    }

    /// Handles are distinct, below the next handle to be issued, and never
    /// the unassigned handle that fresh nodes carry.
    pub open spec fn wf(&self) -> bool {
        &&& unique_keys(self@)
        &&& self.serials_below()
        &&& !has_key(self@, unassigned_id())
    }

    /// Every handle is issued: nonzero and below the next handle to be
    /// issued.
    pub closed spec fn serials_below(&self) -> bool {
        &&& self.next_serial >= 1
        &&& forall|i: int| 0 <= i < self.nodes@.len() ==> 0 < (#[trigger] self.nodes@[i]).0.0 < self.next_serial
    }

    /// The graph can still issue a handle.
    pub open spec fn can_insert(&self) -> bool {
        self.handles_left() > 0
    }

    /// How many more handles the counter can issue.
    pub closed spec fn handles_left(&self) -> nat {
        (u64::MAX - self.next_serial) as nat
    }

    /// An empty graph.
    pub fn new() -> (g: SceneGraph)
        ensures
            g.wf(),
            g.handles_left() == u64::MAX - 1,
            g@ == Seq::<(ObjectId, SceneNode)>::empty(),
    {
        SceneGraph { nodes: IdMap::new(), next_serial: 1 }
    }

    /// Stores `node` and returns its handle. A node that carries the handle
    /// of a node of the graph replaces that node; any other node (a fresh
    /// one carries the unassigned handle) is added under a handle the graph
    /// has never issued, which is stamped into it.
    pub fn insert(&mut self, node: SceneNode) -> (id: ObjectId)
        requires
            old(self).wf(),
            has_key(old(self)@, node.id) || old(self).can_insert(),
        ensures
            final(self).wf(),
            has_key(old(self)@, node.id) ==> {
                &&& id == node.id
                &&& final(self)@ == set_value(old(self)@, node.id, node)
                &&& final(self).handles_left() == old(self).handles_left()
            },
            !has_key(old(self)@, node.id) ==> {
                &&& final(self).handles_left() == old(self).handles_left() - 1
                &&& !has_key(old(self)@, id)
                &&& id != unassigned_id()
                &&& final(self)@ == old(self)@.push((id, SceneNode { id, ..node }))
            },
    {
        if self.nodes.contains_key(node.id) {
            let id = node.id;
            let ghost before = self.nodes@;
            self.nodes.insert(id, node);
            proof {
                assert forall|i: int| 0 <= i < self.nodes@.len() implies 0 < (#[trigger] self.nodes@[i]).0.0 < self.next_serial by {
                    assert(self.nodes@[i].0 == before[i].0);
                }
                if has_key(self.nodes@, unassigned_id()) {
                    let i = choose|i: int| 0 <= i < self.nodes@.len() && #[trigger] self.nodes@[i].0 == unassigned_id();
                    assert(self.nodes@[i].0 == before[i].0);
                }
            }
            return id;
        }
        let id = ObjectId(self.next_serial);
        let mut stamped = node;
        stamped.id = id;
        assert(!has_key(self.nodes@, id)) by {
            if has_key(self.nodes@, id) {
                let i = choose|i: int| 0 <= i < self.nodes@.len() && #[trigger] self.nodes@[i].0 == id;
                assert(self.nodes@[i].0.0 < self.next_serial);
            }
        }
        self.nodes.insert(id, stamped);
        self.next_serial = self.next_serial + 1;
        id
    }

    /// Removes the node under `id`.
    pub fn remove(&mut self, id: &ObjectId) -> (r: Result<(), Error>)
        requires
            old(self).wf(),
        ensures
            final(self).wf(),
            final(self).handles_left() == old(self).handles_left(),
            r is Ok <==> has_key(old(self)@, *id),
            r is Ok ==> final(self)@ == old(self)@.remove(key_index(old(self)@, *id)),
            r matches Err(e) ==> final(self)@ == old(self)@ && is_device_error(e, "scene node not found"@),
    {
        match self.nodes.remove(*id) {
            Some(_) => {
                assert forall|i: int| 0 <= i < self.nodes@.len() implies (#[trigger] self.nodes@[i]).0.0 < self.next_serial by {
                    let j = key_index(old(self)@, *id);
                    if i < j {
                        assert(self.nodes@[i] == old(self)@[i]);
                    } else {
                        assert(self.nodes@[i] == old(self)@[i + 1]);
                    }
                }
                Ok(())
            },
            None => Err(device_error("scene node not found")),
        }
    }

    /// The node under `id`.
    pub fn get(&self, id: &ObjectId) -> (r: Option<&SceneNode>)
        requires
            self.wf(),
        ensures
            r is None <==> !has_key(self@, *id),
            r matches Some(n) ==> *n == lookup(self@, *id),
    {
        self.nodes.get(*id)
    }

    /// The node under `id`, for update in place.
    pub fn get_mut(&mut self, id: &ObjectId) -> (r: Option<&mut SceneNode>)
        requires
            old(self).wf(),
        ensures
            r is None <==> !has_key(old(self)@, *id),
            r is None ==> final(self)@ == old(self)@,
            r matches Some(n) ==> *n == lookup(old(self)@, *id) && final(self)@ == old(self)@.update(
                key_index(old(self)@, *id),
                (*id, *final(n)),
            ),
            final(self).wf(),
            final(self).handles_left() == old(self).handles_left(),
    {
        self.nodes.get_mut(*id)
    }

    /// Grows the damage of the node under `id` to cover `region` as well.
    pub fn mark_damage(&mut self, id: &ObjectId, region: Rect) -> (r: Result<(), Error>)
        requires
            old(self).wf(),
        ensures
            final(self).wf(),
            final(self).handles_left() == old(self).handles_left(),
            r is Ok <==> has_key(old(self)@, *id),
            r is Ok ==> final(self)@ == old(self)@.update(
                key_index(old(self)@, *id),
                (*id, damaged(lookup(old(self)@, *id), region)),
            ),
            r matches Err(e) ==> final(self)@ == old(self)@ && is_device_error(e, "scene node not found"@),
    {
        match self.nodes.get_mut(*id) {
            Some(node) => {
                let grown = match node.damage {
                    Some(existing) => existing.union(&region),
                    None => region,
                };
                node.damage = Some(grown);
                Ok(())
            },
            None => Err(device_error("scene node not found")),
        }
    }

    /// Drops the damage of the node under `id`, if there is such a node.
    pub fn clear_damage(&mut self, id: &ObjectId)
        requires
            old(self).wf(),
        ensures
            final(self).wf(),
            final(self).handles_left() == old(self).handles_left(),
            !has_key(old(self)@, *id) ==> final(self)@ == old(self)@,
            has_key(old(self)@, *id) ==> final(self)@ == old(self)@.update(
                key_index(old(self)@, *id),
                (*id, SceneNode { damage: None, ..lookup(old(self)@, *id) }),
            ),
    {
        match self.nodes.get_mut(*id) {
            Some(node) => {
                node.damage = None;
            },
            None => {},
        }
    }

    /// Drops the damage of every node composited onto `output_id`.
    pub(crate) fn clear_damage_on_output(&mut self, output_id: &ObjectId)
        requires
            old(self).wf(),
        ensures
            final(self).wf(),
            final(self).handles_left() == old(self).handles_left(),
            final(self)@ == cleared_on_output(old(self)@, *output_id),
    {
        let mut i: usize = 0;
        while i < self.nodes.len()
            invariant
                self.wf(),
                self.next_serial == old(self).next_serial,
                i <= self@.len(),
                self@.len() == old(self)@.len(),
                forall|j: int| 0 <= j < i ==> #[trigger] self@[j] == clear_if_on(old(self)@[j], *output_id),
                forall|j: int| i <= j < self@.len() ==> #[trigger] self@[j] == old(self)@[j],
            decreases self@.len() - i,
        {
            let on = {
                let n = self.nodes.value_at(i);
                n.visible && n.output_id == Some(*output_id)
            };
            if on {
                let n = self.nodes.value_at_mut(i);
                n.damage = None;
            }
            i = i + 1;
        }
        proof {
            assert(self@ =~= cleared_on_output(old(self)@, *output_id));
        }
    }

    /// True when some node placed on `output_id` carries damage.
    pub fn has_damage(&self, output_id: &ObjectId) -> (b: bool)
        requires
            self.wf(),
        ensures
            b == output_damaged(self@, *output_id),
    {
        let mut i: usize = 0;
        while i < self.nodes.len()
            invariant
                i <= self@.len(),
                forall|j: int| 0 <= j < i ==> !(#[trigger] self@[j].1.output_id == Some(*output_id) && self@[j].1.damage is Some),
            decreases self@.len() - i,
        {
            let n = self.nodes.value_at(i);
            if n.output_id == Some(*output_id) && n.damage.is_some() {
                return true;
            }
            i = i + 1;
        }
        false
    }

    /// The nodes composited onto `output_id` (visible and placed there),
    /// back to front.
    #[verifier::rlimit(40)]
    pub fn z_ordered_for_output(&self, output_id: &ObjectId) -> (r: Vec<&SceneNode>)
        requires
            self.wf(),
        ensures
            deref_nodes(r@) == z_ordered(self@, *output_id),
            back_to_front(deref_nodes(r@)),
            deref_nodes(r@).to_multiset() == composited_nodes(self@, *output_id).to_multiset(),
    {
        let mut out: Vec<&SceneNode> = Vec::new();
        let mut i: usize = 0;
        proof {
            broadcast use vstd::seq_lib::group_to_multiset_ensures;
            reveal_with_fuel(Seq::<_>::filter, 1);
            assert(node_values(self@.take(0)) =~= Seq::<SceneNode>::empty());
            assert(deref_nodes(out@) =~= Seq::<SceneNode>::empty());
        }
        while i < self.nodes.len()
            invariant
                i <= self@.len(),
                deref_nodes(out@) == z_sorted(composited_nodes(self@.take(i as int), *output_id)),
                back_to_front(deref_nodes(out@)),
                deref_nodes(out@).to_multiset() == composited_nodes(self@.take(i as int), *output_id).to_multiset(),
            decreases self@.len() - i,
        {
            let n = self.nodes.value_at(i);
            let ghost before = composited_nodes(self@.take(i as int), *output_id);
            let ghost after = composited_nodes(self@.take(i + 1), *output_id);
            proof {
                broadcast use vstd::seq_lib::group_to_multiset_ensures;
                reveal_with_fuel(Seq::<_>::filter, 1);
                assert(node_values(self@.take(i + 1)).drop_last() =~= node_values(self@.take(i as int)));
                assert(node_values(self@.take(i + 1)).last() == *n);
                if composited_on(*n, *output_id) {
                    assert(after == before.push(*n));
                    assert(after.drop_last() =~= before);
                    assert(after.to_multiset() =~= before.to_multiset().insert(*n));
                } else {
                    assert(after == before);
                }
            }
            if n.visible && n.output_id == Some(*output_id) {
                let mut p: usize = 0;
                proof {
                    assert(deref_nodes(out@).skip(0) =~= deref_nodes(out@));
                }
                while p < out.len() && out[p].z_order <= n.z_order
                    invariant
                        p <= out@.len(),
                        forall|j: int| 0 <= j < p ==> (#[trigger] out@[j]).z_order <= n.z_order,
                        depth_slot(deref_nodes(out@), *n) == p + depth_slot(deref_nodes(out@).skip(p as int), *n),
                    decreases out@.len() - p,
                {
                    proof {
                        lemma_depth_slot_skip(deref_nodes(out@), *n, p as int);
                    }
                    p = p + 1;
                }
                proof {
                    let d = deref_nodes(out@);
                    if p < out@.len() {
                        lemma_depth_slot_skip(d, *n, p as int);
                    } else {
                        assert(d.skip(p as int).len() == 0);
                    }
                    assert(depth_slot(d, *n) == p);
                    assert(deref_nodes(out@.insert(p as int, n)) =~= d.insert(p as int, *n));
                    lemma_insert_multiset(d, p as int, *n);
                    assert forall|a: int, b: int| 0 <= a <= b < d.len() + 1 implies
                        #[trigger] d.insert(p as int, *n)[a].z_order <= #[trigger] d.insert(p as int, *n)[b].z_order by {
                        let t = d.insert(p as int, *n);
                        if p < out@.len() {
                            assert(d[p as int].z_order > n.z_order);
                        }
                        if a < p && b < p {
                            assert(t[a] == d[a] && t[b] == d[b]);
                        } else if a < p && b == p {
                            assert(t[a] == d[a]);
                        } else if a < p {
                            assert(t[a] == d[a] && t[b] == d[b - 1]);
                        } else if a == p && b > p {
                            assert(t[b] == d[b - 1]);
                            assert(d[p as int].z_order <= d[b - 1].z_order);
                        } else if a > p {
                            assert(t[a] == d[a - 1] && t[b] == d[b - 1]);
                        }
                    }
                }
                out.insert(p, n);
            }
            i = i + 1;
        }
        proof {
            assert(self@.take(self@.len() as int) =~= self@);
        }
        out
    }

    /// The number of nodes.
    pub fn len(&self) -> (n: usize)
        ensures
            n == self@.len(),
    {
        self.nodes.len()
    }

    /// True when there is no node.
    pub fn is_empty(&self) -> (b: bool)
        ensures
            b == (self@.len() == 0),
    {
        self.nodes.is_empty()
    }
}

impl Default for SceneGraph {
    fn default() -> (g: SceneGraph)
        ensures
            g.wf(),
            g.can_insert(),
            g@ == Seq::<(ObjectId, SceneNode)>::empty(),
    {
        SceneGraph::new()
    }
}

} // verus!
