# Herdr Agent Diff

A read-only terminal viewer for the changes in a workspace: those since an agent's
session began, and those that Git knows of. `src/` holds the logic, verified with
Verus; `app/` is the program around it.

## The library

| Modules | What they hold |
| --- | --- |
| `seqs`, `text`, `path`, `sort`, `width`, `sets`, `cache` | Bytes, text, paths, their order, and small collections |
| `model`, `error` | Files, changes, baselines and failures |
| `project`, `snapshot` | Which files are looked at, and how they are read |
| `git`, `diff` | Git's questions and answers, and unified diffs |
| `state`, `context`, `cli` | What the plugin keeps, what the host says, and the commands |
| `app`, `requests`, `keys`, `pointer`, `selection`, `sidebar`, `navigation` | The viewer and how it answers |
| `queue`, `worker`, `schedule`, `viewer` | Work in the background, and the loop of the viewer |
| `layout`, `style`, `source`, `diffview`, `scrollbar`, `scene` | What is drawn |

Operations that need files, processes or the terminal are written as steps: a
function says what is needed next or what came of it, given what has been found out
so far, and the program does what is asked. Paths are bytes; a path means its
components.

Contracts speak of views: each type has a ghost counterpart, and each function says
by a spec function what it returns. Proof functions whose name begins with `law_`
state what holds across functions.

What is trusted is marked where it stands: calls into `ratatui` (layout),
`serde_json`, `sha2`, `similar`, `syntect` and `unicode-width`, and three functions
of the standard library on strings.
