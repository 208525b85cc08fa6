# keel

The execution layer under AI agents: what a task may reach is bound up front as a
policy, held while programs run, and written down as it happens.

- `src/` is the library, verified with Verus. It decides and computes; it reads no
  clock, no environment and no disk. What it needs to know of the machine is
  handed to it as plain values.
- `app/` is the command line and everything that touches the machine: files,
  sockets, child processes, kernel sandboxes.
- `tests/` runs the library from outside.

## The library

| Area | Modules |
|------|---------|
| Policy | `policy`, `paths`, `net`, `baseline`, `presets`, `config`, `narrow`, `egress` |
| Enforcement | `process_guard`, `deny_glob`, `admission`, `local_process`, `map_caps`, `child_net`, `bwrap`, `seatbelt`, `windows`, `sandbox_child`, `egress_proxy`, `worktree`, `compose`, `backend`, `credentials` |
| Record | `event`, `chain`, `sink`, `layout` |
| Lifecycle | `space` |
| Foundations | `text`, `number`, `json`, `path`, `native`, `order`, `ip`, `time`, `ids`, `error` |

Every module keeps the properties that span several operations in a section of
laws at its end: that a child policy reaches no further than its parent, that a
denial wins over every grant, that a symbolic link leads to no denied path, that a
changed entry of an audit trail is found out.

## What is taken on trust

SHA-256 comes from `sha2`, glob matching from `globset`, the written form of
strings and times from `serde_json` and `chrono`. The functions that call these
crates are marked `external_body`; their comments say what is assumed of them.
