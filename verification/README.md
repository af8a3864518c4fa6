# lucidpm

A command-line project management assistant whose state is an append-only
event log (`events/runtime_events.jsonl`). Items extracted from notes by a
language model are confirmed, incorporated into the project record, given
statuses, priorities, links and tasks, reported on, and exported to and
synced from Logseq pages.

## Layout

- `src/` — the library, verified with Verus. Every operation reads the log
  as a sequence of JSON values and appends the events it decides to an
  outbox; its contract states exactly which events those are and what it
  returns. Modules:
  - `payload`, `record`, `text`, `chars`, `seqs` — JSON values, the project
    record read from the log, and text helpers;
  - `schema`, `yaml` — the project vocabulary, its validation, alias
    resolution, and merging a project's vocabulary over the default one;
  - `extract` — prompts, checking the model's proposals, extraction events;
  - `state`, `status`, `links`, `task`, `priority`, `report`, `journal`,
    `projects`, `ontology` — the commands' decisions;
  - `export`, `slug`, `sync`, `sync_parse`, `calendar` — Logseq pages out
    and back in.
- `app/` — the `lucid` command line: argument parsing, files, clock, the
  model's HTTP API, and YAML/JSON parsing; it hands the library plain
  values and writes the events it returns.
- `tests/` — tests of the library on concrete values.

The laws the library proves (read-after-write of statuses and priorities,
link add/remove, alias resolution, collisions reported first, session
incorporation, confirmed extractions, page heads read back by sync, page
slugs that never repeat, journal names read back, task addition,
vocabulary merging, the priority view's order and filters, the project
registry) are public proof functions named `law_*`.

The vocabulary's maps are association lists kept in key order with unique
keys (`ProjectSchema::wf`). `app/` builds them that way from the YAML file
(sorting the maps, keeping a block type's markers in the order the file
defines them) and checks `is_well_formed` before validating; that building
step is not verified. Given it, `law_validation_ignores_map_order` shows
that vocabularies holding the same entries validate alike.
