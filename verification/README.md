# opencase

Declarative test-case management: test cases are markdown files with a flat
frontmatter, a `## Steps` / `## Expected` body and an `## Executions` section
of dated run records. Cases move `draft → reviewed` only by approval, an
edit of a reviewed case resets it to draft, only reviewed cases can be run,
and only reviewed manual cases can be recorded or scriptified.

## Layout

- `src/` — the library, verified with Verus:
  - `text.rs`: the string model (lines, trimming, splitting, finding) and
    its executable counterparts;
  - `case.rs`: the case file format — parsing, record lines, frontmatter
    updates, appending execution records, rendering;
  - `drift.rs`: the FNV-1a drift baseline over Steps and Expected;
  - `commands.rs`, `validate.rs`, `review.rs`, `report.rs`, `setup.rs`: the
    command logic (`run`, `record`, `scriptify`, `validate`, `review`,
    `report`, `init`, `skill install`) as functions from loaded cases to
    results;
  - `laws.rs`, `roundtrip.rs`, `record_laws.rs`, `append_law.rs`,
    `section_law.rs`, `reload_law.rs`: properties that span functions, such
    as reading back what was written. Validation's "no problem iff every
    rule holds" law is in `validate.rs`.
- `app/` — the command line: arguments, the cases directory on disk, the
  editor (the edited file is read back before the status is reset),
  `date` and `git`. `skill install` copies the skills found in the
  `skills/` directory beside the executable.
- `tests/` — tests of the library on in-memory directories.
