# itir_dioxus

The read models, interaction commands and visual projections of the ITIR
unified workbench, as a Verus-verified library, with the Dioxus/wgpu host
around it.

- `src/visual`: visual identity, shell and GPU input decoding, the selection
  reducer, the Visualisation IR and the comparative proof topology
  (before / after / delta over one canonical id space).
- `src/workbench`: the staged read model (Journal, Timeline, Handoff,
  Matter/Proof, Research), the AU fact-review projection of persisted
  legal-follow graphs, persisted and typed comparative specimens,
  matter-scope manifests, the operational timeline order of a matter
  workspace, source-ingest and work-product coverage read models, and the
  review-action note rule.
- `src/json.rs`, `src/refs.rs`: parsed JSON as plain values; sorted reference
  sets and maps.
- `app/`: the Dioxus shell, the wgpu surface descriptor, JSON text parsing and
  manifest files on disk.

Floating-point geometry stays with the renderer: node positions are ring slots,
weights and chart values are `f32` bit patterns.
