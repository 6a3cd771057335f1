//! Input routing policy: where an input event goes.
//!
//! The input service normalizes device activity into an ordered stream of
//! events; this module only decides the destination of each one: a
//! registered global shortcut, the surface holding keyboard focus, or the
//! surface under the pointer. Isolation holds by construction: the only
//! surface a routed event can name is the tracked focus or pointer target,
//! so no code path hands one surface another surface's input.

use vstd::prelude::*;
use crate::common::ObjectId;

verus! {

/// What kind of event arrived, with what routing reads of it.
#[derive(Clone, Copy, Debug, PartialEq, Eq, Structural)]
pub enum EventKind {
    /// A key event: the physical key's code, and whether the key went down.
    Keyboard { key: u32, key_down: bool },
    Pointer,
    Touch,
    Tablet,
    Gamepad,
    DeviceAdded,
    DeviceRemoved,
}

/// An input event as routing sees it: the modifier state at the time of the
/// event (as a mask) and the event's kind.
#[derive(Clone, Copy, Debug, PartialEq, Eq, Structural)]
pub struct EventSummary {
    pub modifiers: u32,
    pub kind: EventKind,
}

/// Where an event goes. No variant carries a surface chosen by the caller:
/// `Focused` only ever names the tracked focus or pointer target.
#[derive(Clone, Debug, PartialEq, Eq)]
pub enum RouteDecision {
    /// A global shortcut fired; its action.
    Global(String),
    /// Delivered to this surface.
    Focused(ObjectId),
    /// Nobody gets it.
    Dropped,
}

/// A shortcut owned by the display server itself (settings, session,
/// desktop), never by an application.
struct GlobalShortcut {
    modifiers: u32,
    key: u32,
    action: String,
}

/// The action of the first shortcut of `s` (modifier mask, key, action)
/// bound to `modifiers` and `key`, if any.
pub open spec fn first_action(s: Seq<(u32, u32, Seq<char>)>, modifiers: u32, key: u32) -> Option<Seq<char>>
    decreases s.len(),
{
    if s.len() == 0 {
        None
    } else if s[0].0 == modifiers && s[0].1 == key {
        Some(s[0].2)
    } else {
        first_action(s.drop_first(), modifiers, key)
    }
}

/// Tracks the focus targets and the global shortcuts, and routes events.
pub struct InputRouter {
    keyboard_focus: Option<ObjectId>,
    pointer_over: Option<ObjectId>,
    shortcuts: Vec<GlobalShortcut>,
}

impl InputRouter {
    /// The surface holding keyboard focus.
    pub closed spec fn focus(&self) -> Option<ObjectId> {
        self.keyboard_focus
    }

    /// The surface under the pointer.
    pub closed spec fn hovered(&self) -> Option<ObjectId> {
        self.pointer_over
    }

    /// The registered shortcuts, oldest first, as (modifier mask, key,
    /// action).
    pub closed spec fn shortcuts(&self) -> Seq<(u32, u32, Seq<char>)> {
        self.shortcuts@.map_values(|s: GlobalShortcut| (s.modifiers, s.key, s.action@))
    }

    /// The shortcut action a key-down event fires, if any.
    pub open spec fn global_action(&self, e: EventSummary) -> Option<Seq<char>> {
        match e.kind {
            EventKind::Keyboard { key, key_down } => if key_down {
                first_action(self.shortcuts(), e.modifiers, key)
            } else {
                None
            },
            _ => None,
        }
    }

    /// The surface an event is delivered to when no shortcut takes it: key
    /// and gamepad events go to keyboard focus, pointer, touch and tablet
    /// events to the surface under the pointer, device hotplug to nobody.
    pub open spec fn target(&self, e: EventSummary) -> Option<ObjectId> {
        match e.kind {
            EventKind::Keyboard { .. } => self.focus(),
            EventKind::Pointer => self.hovered(),
            EventKind::Touch => self.hovered(),
            EventKind::Tablet => self.hovered(),
            EventKind::Gamepad => self.focus(),
            EventKind::DeviceAdded => None,
            EventKind::DeviceRemoved => None,
        }
    }

    /// A router with no focus, no pointer target and no shortcut.
    pub fn new() -> (r: InputRouter)
        ensures
            r.focus() is None,
            r.hovered() is None,
            r.shortcuts() == Seq::<(u32, u32, Seq<char>)>::empty(),
    {
        let r = InputRouter { keyboard_focus: None, pointer_over: None, shortcuts: Vec::new() };
        assert(r.shortcuts() =~= Seq::<(u32, u32, Seq<char>)>::empty());
        r
    }

    /// Moves keyboard focus.
    pub fn set_keyboard_focus(&mut self, surface_id: Option<ObjectId>)
        ensures
            final(self).focus() == surface_id,
            final(self).hovered() == old(self).hovered(),
            final(self).shortcuts() == old(self).shortcuts(),
    {
        self.keyboard_focus = surface_id;
    }

    /// The surface holding keyboard focus.
    pub fn keyboard_focus(&self) -> (r: Option<ObjectId>)
        ensures
            r == self.focus(),
    {
        self.keyboard_focus
    }

    /// Records which surface is under the pointer.
    pub fn set_pointer_over(&mut self, surface_id: Option<ObjectId>)
        ensures
            final(self).hovered() == surface_id,
            final(self).focus() == old(self).focus(),
            final(self).shortcuts() == old(self).shortcuts(),
    {
        self.pointer_over = surface_id;
    }

    /// The surface under the pointer.
    pub fn pointer_over(&self) -> (r: Option<ObjectId>)
        ensures
            r == self.hovered(),
    {
        self.pointer_over
    }

    /// Registers a global shortcut; earlier registrations for the same
    /// combination take precedence.
    pub fn register_global_shortcut(&mut self, modifiers: u32, key: u32, action: &str)
        ensures
            final(self).shortcuts() == old(self).shortcuts().push((modifiers, key, action@)),
            final(self).focus() == old(self).focus(),
            final(self).hovered() == old(self).hovered(),
    {
        self.shortcuts.push(GlobalShortcut { modifiers, key, action: action.to_string() });
        assert(self.shortcuts() =~= old(self).shortcuts().push((modifiers, key, action@)));
    }

    /// Routes one event: a key-down bound to a global shortcut fires the
    /// shortcut, ahead of any application focus; anything else goes to its
    /// target surface, or nowhere when there is none.
    pub fn route(&self, event: &EventSummary) -> (r: RouteDecision)
        ensures
            self.global_action(*event) matches Some(a) ==> r matches RouteDecision::Global(x) && x@ == a,
            self.global_action(*event) is None ==> r == match self.target(*event) {
                Some(id) => RouteDecision::Focused(id),
                None => RouteDecision::Dropped,
            },
    {
        match event.kind {
            EventKind::Keyboard { key, key_down } => {
                if key_down {
                    let mut i: usize = 0;
                    assert(self.shortcuts().skip(0) =~= self.shortcuts());
                    while i < self.shortcuts.len()
                        invariant
                            event.kind == (EventKind::Keyboard { key, key_down }),
                            key_down,
                            i <= self.shortcuts@.len(),
                            first_action(self.shortcuts(), event.modifiers, key)
                                == first_action(self.shortcuts().skip(i as int), event.modifiers, key),
                        decreases self.shortcuts@.len() - i,
                    {
                        let s = &self.shortcuts[i];
                        let ghost rest = self.shortcuts().skip(i as int);
                        assert(rest[0] == (s.modifiers, s.key, s.action@));
                        assert(rest.len() > 0);
                        if s.modifiers == event.modifiers && s.key == key {
                            return RouteDecision::Global(s.action.clone());
                        }
                        assert(rest.drop_first() =~= self.shortcuts().skip(i + 1));
                        i = i + 1;
                    }
                    assert(self.shortcuts().skip(i as int).len() == 0);
                }
            },
            _ => {},
        }
        let target = match event.kind {
            EventKind::Keyboard { .. } => self.keyboard_focus,
            EventKind::Pointer | EventKind::Touch | EventKind::Tablet => self.pointer_over,
            EventKind::Gamepad => self.keyboard_focus,
            EventKind::DeviceAdded | EventKind::DeviceRemoved => None,
        };
        match target {
            Some(surface_id) => RouteDecision::Focused(surface_id),
            None => RouteDecision::Dropped,
        }
    }
}

/// A shortcut action is found only for an exact binding: when one is
/// found, some shortcut is bound to exactly that modifier mask and key,
/// carries that action, and no earlier shortcut is bound to them; when none
/// is found, no shortcut is bound to them.
pub proof fn lemma_first_action_is_an_exact_binding(s: Seq<(u32, u32, Seq<char>)>, modifiers: u32, key: u32)
    ensures
        first_action(s, modifiers, key) matches Some(a) ==> exists|i: int|
            0 <= i < s.len() && #[trigger] s[i] == (modifiers, key, a)
                && forall|j: int| 0 <= j < i ==> !(#[trigger] s[j].0 == modifiers && s[j].1 == key),
        first_action(s, modifiers, key) is None ==> forall|i: int|
            0 <= i < s.len() ==> !(#[trigger] s[i].0 == modifiers && s[i].1 == key),
    decreases s.len(),
{
    if s.len() > 0 {
        let t = s.drop_first();
        lemma_first_action_is_an_exact_binding(t, modifiers, key);
        if s[0].0 == modifiers && s[0].1 == key {
            assert(s[0] == (modifiers, key, s[0].2));
        } else {
            if let Some(a) = first_action(t, modifiers, key) {
                let i = choose|i: int| 0 <= i < t.len() && #[trigger] t[i] == (modifiers, key, a)
                    && forall|j: int| 0 <= j < i ==> !(#[trigger] t[j].0 == modifiers && t[j].1 == key);
                assert(s[i + 1] == t[i]);
                assert forall|j: int| 0 <= j < i + 1 implies !(#[trigger] s[j].0 == modifiers && s[j].1 == key) by {
                    if j > 0 {
                        assert(s[j] == t[j - 1]);
                    }
                }
            } else {
                assert forall|i: int| 0 <= i < s.len() implies !(#[trigger] s[i].0 == modifiers && s[i].1 == key) by {
                    if i > 0 {
                        assert(s[i] == t[i - 1]);
                    }
                }
            }
        }
    }
}

/// Routing fires a shortcut only for a key-down whose modifier mask and key
/// are exactly those of a registered shortcut, with the action of the first
/// such shortcut; a key-down that matches no shortcut goes to the keyboard
/// focus, or nowhere when there is none.
pub proof fn lemma_route_fires_only_exact_shortcuts(router: InputRouter, e: EventSummary)
    ensures
        router.global_action(e) matches Some(a) ==> (e.kind matches EventKind::Keyboard { key, key_down } && key_down
            && exists|i: int| 0 <= i < router.shortcuts().len() && #[trigger] router.shortcuts()[i] == (e.modifiers, key, a)
                && forall|j: int| 0 <= j < i ==> !(#[trigger] router.shortcuts()[j].0 == e.modifiers
                    && router.shortcuts()[j].1 == key)),
        e.kind matches EventKind::Keyboard { key, key_down } ==> (key_down ==> (
            router.global_action(e) is None <==> forall|i: int| 0 <= i < router.shortcuts().len()
                ==> !(#[trigger] router.shortcuts()[i].0 == e.modifiers && router.shortcuts()[i].1 == key))),
        router.global_action(e) is None && e.kind is Keyboard ==> router.target(e) == router.focus(),
{
    match e.kind {
        EventKind::Keyboard { key, key_down } => {
            lemma_first_action_is_an_exact_binding(router.shortcuts(), e.modifiers, key);
            if key_down && router.global_action(e) is Some {
                let a = router.global_action(e)->0;
                let i = choose|i: int| 0 <= i < router.shortcuts().len() && #[trigger] router.shortcuts()[i] == (e.modifiers, key, a)
                    && forall|j: int| 0 <= j < i ==> !(#[trigger] router.shortcuts()[j].0 == e.modifiers && router.shortcuts()[j].1 == key);
                assert(!(router.shortcuts()[i].0 != e.modifiers || router.shortcuts()[i].1 != key));
            }
        },
        _ => {},
    }
}

impl Default for InputRouter {
    fn default() -> (r: InputRouter)
        ensures
            r.focus() is None,
            r.hovered() is None,
            r.shortcuts() == Seq::<(u32, u32, Seq<char>)>::empty(),
    {
        InputRouter::new()
    }
}

/// Isolation: an event that no shortcut takes reaches only the surface
/// holding keyboard focus or the surface under the pointer, and device
/// hotplug reaches no surface.
pub proof fn lemma_delivery_is_isolated(router: InputRouter, e: EventSummary)
    ensures
        router.target(e) matches Some(id) ==> router.focus() == Some(id) || router.hovered() == Some(id),
        (e.kind is DeviceAdded || e.kind is DeviceRemoved) ==> router.target(e) is None,
        (e.kind is Keyboard || e.kind is Gamepad) ==> router.target(e) == router.focus(),
        (e.kind is Pointer || e.kind is Touch || e.kind is Tablet) ==> router.target(e) == router.hovered(),
{
}

/// A shortcut takes precedence over focus: once a key combination is bound,
/// its key-down fires the earliest binding, whoever holds focus.
pub proof fn lemma_first_binding_wins(s: Seq<(u32, u32, Seq<char>)>, modifiers: u32, key: u32, i: int)
    requires
        0 <= i < s.len(),
        s[i].0 == modifiers && s[i].1 == key,
        forall|j: int| 0 <= j < i ==> !(#[trigger] s[j].0 == modifiers && s[j].1 == key),
    ensures
        first_action(s, modifiers, key) == Some(s[i].2),
    decreases i,
{
    if i > 0 {
        assert forall|j: int| 0 <= j < i - 1 implies !(#[trigger] s.drop_first()[j].0 == modifiers && s.drop_first()[j].1
            == key) by {
            assert(s.drop_first()[j] == s[j + 1]);
        }
        lemma_first_binding_wins(s.drop_first(), modifiers, key, i - 1);
    }
}

} // verus!
