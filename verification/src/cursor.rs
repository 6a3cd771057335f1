//! The cursor: shape, theme, size, position and visibility, and whether it
//! is drawn by a hardware plane or composited in software.
//!
//! Two rules hold of every state the manager reaches: a custom surface is
//! attached only while the shape is `Custom`, and the size never drops below
//! the accessibility floor.

use vstd::prelude::*;
use crate::common::ObjectId;

verus! {

/// The accessibility floor for the cursor size, in pixels.
pub const MIN_ACCESSIBLE_SIZE_PX: u32 = 16;

/// The shapes the cursor can take.
#[derive(Clone, Copy, Debug, PartialEq, Eq, Structural)]
pub enum CursorShape {
    Default,
    Text,
    Pointer,
    Grab,
    Grabbing,
    ResizeHorizontal,
    ResizeVertical,
    Wait,
    Custom,
}

/// How the cursor is drawn.
#[derive(Clone, Copy, Debug, PartialEq, Eq, Structural)]
pub enum RenderMode {
    Hardware,
    Software,
}

/// Everything the cursor currently is.
#[derive(Debug)]
pub struct CursorState {
    pub shape: CursorShape,
    pub theme: String,
    pub size_px: u32,
    pub position: (i32, i32),
    pub visible: bool,
    pub render_mode: RenderMode,
    /// The application-supplied surface drawn for `CursorShape::Custom`
    /// (a drag icon, an application-defined pointer).
    pub custom_surface: Option<ObjectId>,
}

/// The state a fresh cursor starts in: the default arrow of the
/// "sher-default" theme, 24 px, at the origin, visible, drawn by hardware.
pub open spec fn is_default_cursor(s: CursorState) -> bool {
    &&& s.shape == CursorShape::Default
    &&& s.theme@ == "sher-default"@
    &&& s.size_px == 24
    &&& s.position == (0i32, 0i32)
    &&& s.visible
    &&& s.render_mode == RenderMode::Hardware
    &&& s.custom_surface is None
}

impl Clone for CursorState {
    fn clone(&self) -> (s: CursorState)
        ensures
            s == *self,
    {
        CursorState {
            shape: self.shape,
            theme: self.theme.clone(),
            size_px: self.size_px,
            position: self.position,
            visible: self.visible,
            render_mode: self.render_mode,
            custom_surface: self.custom_surface,
        }
    }
}

impl Default for CursorState {
    fn default() -> (s: CursorState)
        ensures
            is_default_cursor(s),
    {
        CursorState {
            shape: CursorShape::Default,
            theme: "sher-default".to_string(),
            size_px: 24,
            position: (0, 0),
            visible: true,
            render_mode: RenderMode::Hardware,
            custom_surface: None,
        }
    }
}

/// The size a request for `size_px` pixels gets: the request, raised to
/// the accessibility floor.
pub open spec fn clamped_size(size_px: u32) -> u32 {
    if size_px < MIN_ACCESSIBLE_SIZE_PX {
        MIN_ACCESSIBLE_SIZE_PX
    } else {
        size_px
    }
}

/// Owns the cursor state.
pub struct CursorManager {
    state: CursorState,
    min_accessible_size_px: u32,
}

impl CursorManager {
    /// The cursor state.
    pub closed spec fn cursor(&self) -> CursorState {
        self.state
    }

    /// The accessibility floor this manager enforces.
    pub closed spec fn min_size(&self) -> u32 {
        self.min_accessible_size_px
    }

    /// The floor is the accessibility floor, the size is at or above it,
    /// and a custom surface is attached only to the `Custom` shape.
    pub open spec fn wf(&self) -> bool {
        &&& self.min_size() == MIN_ACCESSIBLE_SIZE_PX
        &&& self.cursor().size_px >= self.min_size()
        &&& (self.cursor().custom_surface is Some ==> self.cursor().shape == CursorShape::Custom)
    }

    /// A manager holding the default cursor.
    pub fn new() -> (m: CursorManager)
        ensures
            m.wf(),
            is_default_cursor(m.cursor()),
    {
        CursorManager { state: CursorState::default(), min_accessible_size_px: MIN_ACCESSIBLE_SIZE_PX }
    }

    /// The cursor state.
    pub fn state(&self) -> (s: &CursorState)
        ensures
            *s == self.cursor(),
    {
        &self.state
    }

    /// Sets the shape; any shape but `Custom` detaches the custom surface.
    pub fn set_shape(&mut self, shape: CursorShape)
        requires
            old(self).wf(),
        ensures
            final(self).wf(),
            final(self).cursor() == (CursorState {
                shape: shape,
                custom_surface: if shape == CursorShape::Custom {
                    old(self).cursor().custom_surface
                } else {
                    None
                },
                ..old(self).cursor()
            }),
    {
        if shape != CursorShape::Custom {
            self.state.custom_surface = None;
        }
        self.state.shape = shape;
    }

    /// Shows the application surface `surface_id` as the cursor.
    pub fn set_custom(&mut self, surface_id: ObjectId)
        requires
            old(self).wf(),
        ensures
            final(self).wf(),
            final(self).cursor() == (CursorState {
                shape: CursorShape::Custom,
                custom_surface: Some(surface_id),
                ..old(self).cursor()
            }),
    {
        self.state.shape = CursorShape::Custom;
        self.state.custom_surface = Some(surface_id);
    }

    /// Moves the cursor.
    pub fn move_to(&mut self, position: (i32, i32))
        requires
            old(self).wf(),
        ensures
            final(self).wf(),
            final(self).cursor() == (CursorState { position: position, ..old(self).cursor() }),
    {
        self.state.position = position;
    }

    /// Switches the cursor theme.
    pub fn set_theme(&mut self, theme: &str)
        requires
            old(self).wf(),
        ensures
            final(self).wf(),
            final(self).cursor().theme@ == theme@,
            final(self).cursor().shape == old(self).cursor().shape,
            final(self).cursor().size_px == old(self).cursor().size_px,
            final(self).cursor().position == old(self).cursor().position,
            final(self).cursor().visible == old(self).cursor().visible,
            final(self).cursor().render_mode == old(self).cursor().render_mode,
            final(self).cursor().custom_surface == old(self).cursor().custom_surface,
    {
        self.state.theme = theme.to_string();
    }

    /// Resizes the cursor; sizes below the accessibility floor are raised
    /// to it.
    pub fn set_size(&mut self, size_px: u32)
        requires
            old(self).wf(),
        ensures
            final(self).wf(),
            final(self).cursor() == (CursorState { size_px: clamped_size(size_px), ..old(self).cursor() }),
    {
        self.state.size_px = if size_px < self.min_accessible_size_px {
            self.min_accessible_size_px
        } else {
            size_px
        };
    }

    /// Shows or hides the cursor.
    pub fn set_visible(&mut self, visible: bool)
        requires
            old(self).wf(),
        ensures
            final(self).wf(),
            final(self).cursor() == (CursorState { visible: visible, ..old(self).cursor() }),
    {
        self.state.visible = visible;
    }

    /// Records whether a hardware cursor plane is available: hardware
    /// drawing when it is, software compositing otherwise.
    pub fn negotiate_render_mode(&mut self, hardware_available: bool)
        requires
            old(self).wf(),
        ensures
            final(self).wf(),
            final(self).cursor() == (CursorState {
                render_mode: if hardware_available {
                    RenderMode::Hardware
                } else {
                    RenderMode::Software
                },
                ..old(self).cursor()
            }),
    {
        self.state.render_mode = if hardware_available {
            RenderMode::Hardware
        } else {
            RenderMode::Software
        };
    }
}

impl Default for CursorManager {
    fn default() -> (m: CursorManager)
        ensures
            m.wf(),
            is_default_cursor(m.cursor()),
    {
        CursorManager::new()
    }
}

/// A cursor never shows a custom surface under a non-custom shape, and is
/// never smaller than the accessibility floor.
pub proof fn lemma_cursor_invariants(m: CursorManager)
    requires
        m.wf(),
    ensures
        m.cursor().custom_surface is Some ==> m.cursor().shape == CursorShape::Custom,
        m.cursor().size_px >= MIN_ACCESSIBLE_SIZE_PX,
{
}

} // verus!
