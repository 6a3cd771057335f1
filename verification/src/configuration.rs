//! Centralized configuration: one structure rather than scattered files.
//!
//! Per-output settings are keyed by output name, so that configuration does
//! not depend on the output manager's types; for the same reason this
//! module has its own small `Orientation`. Fractional quantities (output
//! scale, animation duration scale) are kept in thousandths.

use vstd::prelude::*;

verus! {

/// How an output is rotated.
#[derive(Clone, Copy, Debug, PartialEq, Eq, Structural)]
pub enum Orientation {
    Landscape,
    Portrait,
    LandscapeFlipped,
    PortraitFlipped,
}

impl Default for Orientation {
    fn default() -> (o: Orientation)
        ensures
            o == Orientation::Landscape,
    {
        Orientation::Landscape
    }
}

/// Settings of one output.
#[derive(Clone, Copy, Debug)]
pub struct OutputSettings {
    pub resolution: (u32, u32),
    pub refresh_rate: u32,
    /// The scale factor, in thousandths (1000 is 1.0).
    pub scale_milli: u32,
    pub orientation: Orientation,
    pub primary: bool,
}

impl Default for OutputSettings {
    fn default() -> (s: OutputSettings)
        ensures
            s == (OutputSettings {
                resolution: (1920u32, 1080u32),
                refresh_rate: 60,
                scale_milli: 1000,
                orientation: Orientation::Landscape,
                primary: false,
            }),
    {
        OutputSettings {
            resolution: (1920, 1080),
            refresh_rate: 60,
            scale_milli: 1000,
            orientation: Orientation::default(),
            primary: false,
        }
    }
}

/// How workspaces behave.
#[derive(Clone, Copy, Debug, PartialEq, Eq, Structural)]
pub struct WorkspaceBehavior {
    pub dynamic: bool,
    pub wrap_around: bool,
}

impl Default for WorkspaceBehavior {
    fn default() -> (w: WorkspaceBehavior)
        ensures
            !w.dynamic,
            !w.wrap_around,
    {
        WorkspaceBehavior { dynamic: false, wrap_around: false }
    }
}

/// How windows behave.
#[derive(Clone, Debug)]
pub struct WindowBehavior {
    pub focus_follows_mouse: bool,
    pub snap_enabled: bool,
    pub default_layout: String,
}

impl Default for WindowBehavior {
    fn default() -> (w: WindowBehavior)
        ensures
            !w.focus_follows_mouse,
            w.snap_enabled,
            w.default_layout@ == "floating"@,
    {
        WindowBehavior { focus_follows_mouse: false, snap_enabled: true, default_layout: "floating".to_string() }
    }
}

/// Animation settings.
#[derive(Clone, Copy, Debug, PartialEq, Eq, Structural)]
pub struct AnimationSettings {
    pub enabled: bool,
    pub reduced_motion: bool,
    /// The factor applied to animation durations, in thousandths.
    pub duration_scale_milli: u32,
}

impl Default for AnimationSettings {
    fn default() -> (a: AnimationSettings)
        ensures
            a.enabled,
            !a.reduced_motion,
            a.duration_scale_milli == 1000,
    {
        AnimationSettings { enabled: true, reduced_motion: false, duration_scale_milli: 1000 }
    }
}

/// Cursor settings.
#[derive(Clone, Debug)]
pub struct CursorSettings {
    pub theme: String,
    pub size_px: u32,
}

impl Default for CursorSettings {
    fn default() -> (c: CursorSettings)
        ensures
            c.theme@ == "sher-default"@,
            c.size_px == 24,
    {
        CursorSettings { theme: "sher-default".to_string(), size_px: 24 }
    }
}

/// Accessibility settings.
#[derive(Clone, Copy, Debug, PartialEq, Eq, Structural)]
pub struct AccessibilitySettings {
    pub high_contrast: bool,
    pub large_cursor: bool,
    pub reduced_motion: bool,
    pub screen_magnification: bool,
}

impl Default for AccessibilitySettings {
    fn default() -> (a: AccessibilitySettings)
        ensures
            !a.high_contrast,
            !a.large_cursor,
            !a.reduced_motion,
            !a.screen_magnification,
    {
        AccessibilitySettings {
            high_contrast: false,
            large_cursor: false,
            reduced_motion: false,
            screen_magnification: false,
        }
    }
}

/// Touchpad gesture settings.
#[derive(Clone, Copy, Debug, PartialEq, Eq, Structural)]
pub struct TouchpadGestures {
    pub natural_scroll: bool,
    pub tap_to_click: bool,
    pub three_finger_drag: bool,
}

impl Default for TouchpadGestures {
    fn default() -> (t: TouchpadGestures)
        ensures
            !t.natural_scroll,
            !t.tap_to_click,
            !t.three_finger_drag,
    {
        TouchpadGestures { natural_scroll: false, tap_to_click: false, three_finger_drag: false }
    }
}

/// Behavior on battery power.
#[derive(Clone, Copy, Debug, PartialEq, Eq, Structural)]
pub struct PowerBehavior {
    pub reduce_animations_on_battery: bool,
    pub max_refresh_rate_on_battery: Option<u32>,
}

impl Default for PowerBehavior {
    fn default() -> (p: PowerBehavior)
        ensures
            !p.reduce_animations_on_battery,
            p.max_refresh_rate_on_battery is None,
    {
        PowerBehavior { reduce_animations_on_battery: false, max_refresh_rate_on_battery: None }
    }
}

/// No two entries of `s` carry the same name.
pub open spec fn names_unique<V>(s: Seq<(String, V)>) -> bool {
    forall|i: int, j: int| 0 <= i < s.len() && 0 <= j < s.len() && i != j ==> #[trigger] s[i].0@ != #[trigger] s[j].0@
}

/// Some entry of `s` carries name `n`.
pub open spec fn has_name<V>(s: Seq<(String, V)>, n: Seq<char>) -> bool {
    exists|i: int| 0 <= i < s.len() && #[trigger] s[i].0@ == n
}

/// The value of the entry of `s` named `n` (meaningful when `has_name(s, n)`).
pub open spec fn named<V>(s: Seq<(String, V)>, n: Seq<char>) -> V {
    s[choose|i: int| 0 <= i < s.len() && #[trigger] s[i].0@ == n].1
}

/// What `s` maps each of its names to.
pub open spec fn name_map<V>(s: Seq<(String, V)>) -> Map<Seq<char>, V> {
    Map::new(|n: Seq<char>| has_name(s, n), |n: Seq<char>| named(s, n))
}

/// The value of the entry at position `i` is what `named` finds for its
/// name, when names are distinct.
proof fn lemma_named_at<V>(s: Seq<(String, V)>, i: int)
    requires
        names_unique(s),
        0 <= i < s.len(),
    ensures
        has_name(s, s[i].0@),
        named(s, s[i].0@) == s[i].1,
{
    assert(has_name(s, s[i].0@));
}

/// Binds `name` to `value` in `entries`, replacing the value of an entry
/// with that name or appending a new entry.
fn bind_named<V>(entries: &mut Vec<(String, V)>, name: &str, value: V)
    requires
        names_unique(old(entries)@),
    ensures
        names_unique(final(entries)@),
        name_map(final(entries)@) == name_map(old(entries)@).insert(name@, value),
{
    let ghost before = entries@;
    match find_named(entries, name) {
        Some(i) => {
            entries[i].1 = value;
            proof {
                let after = entries@;
                assert(forall|j: int| 0 <= j < after.len() ==> #[trigger] after[j].0@ == before[j].0@);
                assert forall|n: Seq<char>| #[trigger] has_name(after, n) <==> has_name(before, n) by {
                    if has_name(after, n) {
                        let j = choose|j: int| 0 <= j < after.len() && #[trigger] after[j].0@ == n;
                        assert(before[j].0@ == n);
                    }
                    if has_name(before, n) {
                        let j = choose|j: int| 0 <= j < before.len() && #[trigger] before[j].0@ == n;
                        assert(after[j].0@ == n);
                    }
                }
                assert forall|n: Seq<char>| #[trigger] has_name(after, n) implies named(after, n) == (
                if n == name@ {
                    value
                } else {
                    named(before, n)
                }) by {
                    let j = choose|j: int| 0 <= j < after.len() && #[trigger] after[j].0@ == n;
                    lemma_named_at(after, j);
                    lemma_named_at(before, j);
                }
                assert(name_map(after) =~= name_map(before).insert(name@, value));
            }
        },
        None => {
            entries.push((name.to_string(), value));
            proof {
                let after = entries@;
                assert forall|a: int, b: int| 0 <= a < after.len() && 0 <= b < after.len() && a != b implies
                    #[trigger] after[a].0@ != #[trigger] after[b].0@ by {
                    if a < before.len() && b < before.len() {
                        assert(after[a] == before[a] && after[b] == before[b]);
                    } else if a < before.len() {
                        assert(after[a] == before[a]);
                    } else {
                        assert(after[b] == before[b]);
                    }
                }
                assert forall|n: Seq<char>| #[trigger] has_name(after, n) <==> (has_name(before, n) || n == name@) by {
                    if has_name(before, n) {
                        let j = choose|j: int| 0 <= j < before.len() && #[trigger] before[j].0@ == n;
                        assert(after[j] == before[j]);
                    }
                    if n == name@ {
                        assert(after[before.len() as int].0@ == n);
                    }
                    if has_name(after, n) {
                        let j = choose|j: int| 0 <= j < after.len() && #[trigger] after[j].0@ == n;
                        if j < before.len() {
                            assert(after[j] == before[j]);
                        }
                    }
                }
                assert forall|n: Seq<char>| #[trigger] has_name(after, n) implies named(after, n) == (
                if n == name@ {
                    value
                } else {
                    named(before, n)
                }) by {
                    let j = choose|j: int| 0 <= j < after.len() && #[trigger] after[j].0@ == n;
                    lemma_named_at(after, j);
                    if j < before.len() {
                        assert(after[j] == before[j]);
                        lemma_named_at(before, j);
                    }
                }
                assert(name_map(after) =~= name_map(before).insert(name@, value));
            }
        },
    }
}

/// The position of the entry named `name`, if any.
fn find_named<V>(entries: &Vec<(String, V)>, name: &str) -> (r: Option<usize>)
    requires
        names_unique(entries@),
    ensures
        r is None <==> !has_name(entries@, name@),
        r matches Some(i) ==> i < entries@.len() && entries@[i as int].0@ == name@,
{
    let mut i: usize = 0;
    while i < entries.len()
        invariant
            i <= entries@.len(),
            forall|j: int| 0 <= j < i ==> #[trigger] entries@[j].0@ != name@,
        decreases entries@.len() - i,
    {
        if text_eq(entries[i].0.as_str(), name) {
            return Some(i);
        }
        i = i + 1;
    }
    None
}

/// True when `a` and `b` are the same text.
fn text_eq(a: &str, b: &str) -> (r: bool)
    ensures
        r == (a@ == b@),
{
    a.to_string() == b.to_string()
}

/// The whole display configuration.
pub struct DisplayConfig {
    /// Per-output settings, keyed by output name.
    pub outputs: Vec<(String, OutputSettings)>,
    pub workspace_behavior: WorkspaceBehavior,
    pub window_behavior: WindowBehavior,
    pub animation: AnimationSettings,
    pub cursor: CursorSettings,
    pub accessibility: AccessibilitySettings,
    /// Keyboard shortcuts: action name to key combination.
    pub keyboard_shortcuts: Vec<(String, String)>,
    pub touchpad_gestures: TouchpadGestures,
    pub power_behavior: PowerBehavior,
}

/// The shortcuts of `s` as text: action name to key combination.
pub open spec fn shortcut_texts(s: Seq<(String, String)>) -> Map<Seq<char>, Seq<char>> {
    name_map(s).map_values(|k: String| k@)
}

impl DisplayConfig {
    /// No output name and no action name occurs twice.
    pub open spec fn wf(&self) -> bool {
        &&& names_unique(self.outputs@)
        &&& names_unique(self.keyboard_shortcuts@)
    }

    /// The per-output settings, by output name.
    pub open spec fn output_map(&self) -> Map<Seq<char>, OutputSettings> {
        name_map(self.outputs@)
    }

    /// The keyboard shortcuts, by action name.
    pub open spec fn shortcut_map(&self) -> Map<Seq<char>, Seq<char>> {
        shortcut_texts(self.keyboard_shortcuts@)
    }

    /// The default configuration: no per-output settings, no shortcuts, and
    /// every group of settings at its default.
    pub fn new() -> (c: DisplayConfig)
        ensures
            c.wf(),
            c.outputs@.len() == 0,
            c.keyboard_shortcuts@.len() == 0,
            !c.workspace_behavior.dynamic && !c.workspace_behavior.wrap_around,
            !c.window_behavior.focus_follows_mouse && c.window_behavior.snap_enabled,
            c.window_behavior.default_layout@ == "floating"@,
            c.animation.enabled && !c.animation.reduced_motion && c.animation.duration_scale_milli == 1000,
            c.cursor.theme@ == "sher-default"@ && c.cursor.size_px == 24,
            c.accessibility == AccessibilitySettings::default_spec(),
            c.touchpad_gestures == TouchpadGestures::default_spec(),
            c.power_behavior == PowerBehavior::default_spec(),
    {
        DisplayConfig {
            outputs: Vec::new(),
            workspace_behavior: WorkspaceBehavior::default(),
            window_behavior: WindowBehavior::default(),
            animation: AnimationSettings::default(),
            cursor: CursorSettings::default(),
            accessibility: AccessibilitySettings::default(),
            keyboard_shortcuts: Vec::new(),
            touchpad_gestures: TouchpadGestures::default(),
            power_behavior: PowerBehavior::default(),
        }
    }

    /// Sets the settings of output `name`.
    pub fn set_output(&mut self, name: &str, settings: OutputSettings)
        requires
            old(self).wf(),
        ensures
            final(self).wf(),
            final(self).output_map() == old(self).output_map().insert(name@, settings),
            final(self).keyboard_shortcuts@ == old(self).keyboard_shortcuts@,
    {
        bind_named(&mut self.outputs, name, settings);
    }

    /// The settings of output `name`, if any were set.
    pub fn output(&self, name: &str) -> (r: Option<&OutputSettings>)
        requires
            self.wf(),
        ensures
            r is Some <==> self.output_map().contains_key(name@),
            r matches Some(s) ==> *s == self.output_map()[name@],
    {
        match find_named(&self.outputs, name) {
            Some(i) => {
                proof {
                    lemma_named_at(self.outputs@, i as int);
                }
                Some(&self.outputs[i].1)
            },
            None => None,
        }
    }

    /// Binds action `action` to key combination `shortcut`.
    pub fn bind_shortcut(&mut self, action: &str, shortcut: &str)
        requires
            old(self).wf(),
        ensures
            final(self).wf(),
            final(self).shortcut_map() == old(self).shortcut_map().insert(action@, shortcut@),
            final(self).outputs@ == old(self).outputs@,
    {
        let ghost before = self.keyboard_shortcuts@;
        let combination = shortcut.to_string();
        bind_named(&mut self.keyboard_shortcuts, action, combination);
        proof {
            assert(self.shortcut_map() =~= shortcut_texts(before).insert(action@, shortcut@));
        }
    }
}

impl Default for DisplayConfig {
    fn default() -> (c: DisplayConfig)
        ensures
            c.wf(),
            c.outputs@.len() == 0,
            c.keyboard_shortcuts@.len() == 0,
    {
        DisplayConfig::new()
    }
}

impl AccessibilitySettings {
    /// Every accessibility aid off.
    pub open spec fn default_spec() -> AccessibilitySettings {
        AccessibilitySettings {
            high_contrast: false,
            large_cursor: false,
            reduced_motion: false,
            screen_magnification: false,
        }
    }
}

impl TouchpadGestures {
    /// Every gesture off.
    pub open spec fn default_spec() -> TouchpadGestures {
        TouchpadGestures { natural_scroll: false, tap_to_click: false, three_finger_drag: false }
    }
}

impl PowerBehavior {
    /// No battery-specific behavior.
    pub open spec fn default_spec() -> PowerBehavior {
        PowerBehavior { reduce_animations_on_battery: false, max_refresh_rate_on_battery: None }
    }
}

} // verus!
