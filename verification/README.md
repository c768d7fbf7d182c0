# magicrate

The engine-independent rules of the magicrate puzzle-platformer and of its
export tool, written in Verus with their contracts proved:

- `activation`: trigger areas (goal petals, bridge switches) counting the
  relevant bodies inside them.
- `undo_history`: the bounded, de-duplicating snapshot history behind undo,
  and which crate a restored snapshot entry goes to.
- `player_logic`, `game_flow`, `scene_rules`: the push intent and the push it
  leads to, the row of crates a push moves, the jump counter behind vertical
  motion, the player's animation state,
  the session mode and the end of a stage transition, tile rules,
  placeholders and stage order.
- `stage_paths`, `stage_manifest`: room scene file names, their stage order,
  the stage manifest that the export writes and the game reads, and the
  choice between the manifest and the directory listing.
- `export_config`, `export_preset`: the export's cargo builds, Godot command
  line, output directory and file name, and the editing of Godot's `export_presets.cfg`.
- `text`, `lines`: character-level string operations with their exact
  meaning (prefixes, decimal numbers, `str::lines`, `str::trim`).

`app/` holds what runs around it: the Godot extension classes, whose
positions and timers are floating-point, and the `xtask` command line.
