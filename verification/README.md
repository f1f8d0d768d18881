# kobayashi

Verified building blocks of a turn-based ship combat simulator, written in Verus.

- `src/` is the library. Every function in it carries a `requires`/`ensures` contract that
  Verus proves; the public `lemma_*` proof functions state the properties that hold across
  calls (determinism of the generator, the duplicate-officer policy, strict versus lenient
  timeline validation, the round count of a parsed fight export, and so on).
  - `rng`: SplitMix64 generator.
  - `text`: string helpers (trimming, ASCII case, splitting, decimal rendering and parsing)
    with their specifications.
  - `hostile_tags`, `conqueror_borg_beams`, `evolutionary_assimilation`, `crew_nullification`:
    hostile tag masks and the instant-loss and crew rules they gate.
  - `abilities`, `condition`, `effect_spec_compile`, `effect_accumulator`, `perturb`,
    `snapshot`, `stacking`, `engine`, `types`, `simd_damage_kernel`: crew seats and timing
    windows, random defender states, effect-spec compilation helpers, stat keys and labels.
  - `export_csv`: parser of the game's tab-separated fight export.
  - `log_validate`, `log_ingest`, `log_import_normalize`: canonical timeline validation,
    structural trace matching and repeat expansion of imported combat logs.
- `tests/` exercises the library on concrete values.
- `app/` holds what the library does not: serde forms of library types, JSON log handling,
  floating-point conversions and stat stacking, and the kernel switches that read the
  environment and the CPU.
