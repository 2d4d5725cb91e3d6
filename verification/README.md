# SERAPOD

A radial stratagem wheel for HELLDIVERS 2 on Windows: a trigger key or side
mouse button opens a wheel over the game, the pointer picks a stratagem, and
its direction code is typed into the game.

## Layout

- `src/` — the decision logic, verified with Verus:
  - `keys` — physical key names and their scan codes;
  - `model` — settings, the folder/stratagem tree and configuration validation;
  - `wheel` — wheel navigation (open, point, click, release, back) and the
    engine's end-of-turn rule;
  - `input` — what the keyboard and mouse hooks do with each event;
  - `sequence` — the key strokes that enter a stratagem code, and the keys
    let go when entering stops early;
  - `platform` — recognising the game process and choosing its window, and
    the interface language;
  - `storage` — moving the settings of the earlier StratCom installation;
  - `paths` — Windows paths taken apart into the components by which paths
    are compared;
  - `updater`, `version` — which GitHub release is offered, download checks and
    the hand-off between versions (versions are read and ordered by `semver`,
    digests computed by `sha2`);
  - `commands` — which window may issue which command;
  - `text` — string helpers tied to their meaning on character sequences.
- `app/` — the Tauri program around the library: Windows hooks and input
  injection, window and process queries, network and file work, the engine
  thread, and floating-point geometry (pointer travel and sector choice).
- `tests/` — tests of the library.
