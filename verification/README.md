# steel

Verified planning logic for Steel's controlled-world development commands.

`src/` is checked by Verus:

- `region`: plan positions, world limits, bound validation and region volume.
- `parity`, `flat_navigation`: validation of the P01 parity plans and of the
  V2 flat-navigation reset plans (duplicate positions are found with an
  `FxHashSet`, declared in `fxset`).
- `block_state`: the `name[key=value,...]` block-state syntax.
- `clearing`, `materialize`: the walk that clears a region block by block and
  the order in which a validated plan is carried out.
- `world`, `fixture`, `descriptor`: single-write decisions, command results,
  the P00 fixture row, and the descriptor error messages.

`app/` holds the command registration, plan-file reading and the calls into
Steel's world, registry and player APIs, which belong to the server itself.
