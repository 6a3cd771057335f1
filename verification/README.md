# sher_display

The state and policy of a display server (compositor, scene graph, surfaces,
windows, workspaces, outputs, session, security grants, cursor, input
routing, diagnostics bookkeeping, configuration, and the Wayland and XWayland
bridges), written in Verus with contracts proved for every public function.

Layout:

- `src/` is the verified library. Every manager keeps its objects in an
  insertion-ordered map (`idmap.rs`) and hands out fresh handles from its own
  counter. Fractional quantities (scale, opacity) are integers in thousandths.
- `tests/` exercises the library from outside.
- `app/` holds what cannot be verified: the Wayland transport and the input
  service subscription, floating-point performance statistics, JSON
  configuration files, and the conversion of the graphics stack's connector
  records.
