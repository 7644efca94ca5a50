# project_git

What a project view needs to know of a git repository: snapshots of a remote or
local repository (latest commit, recent commits, files with previews,
contributors), how a local checkout stands against its remote, fast-forward
pulls, the list of local checkouts and the viewer's git identity.

`src/` is the library, written and proved in Verus. It runs nothing itself: a
function that depends on git or the file system takes the replies that came in
so far and gives back either the next request or its value (`exchange.rs`). Its
contract states the whole script of requests and the value as functions of the
replies.

| module | subject |
| --- | --- |
| `text`, `order`, `paths` | characters, lines, numbers; stable sorting; what lies below a path |
| `branch` | branch names and commit ids that may be handed to git |
| `history`, `contributors`, `files`, `status_text` | reading the output of git |
| `snapshot`, `local`, `remote` | snapshots of clones, checkouts and references |
| `sync` | comparing a checkout with its remote, and pulling |
| `checkouts`, `identity` | local checkouts; `user.name` and `user.email` |
| `model`, `exchange` | the values that are shown; requests and replies |

The proof functions named `law_...` state what holds of the library as a whole:
that looking at a repository only reads, that a missing selection is refused and
never shown as something else, that a pull runs only when it is open.

`app/` carries the requests out and offers the commands of the desktop
application. `tests/` runs the library against scripted replies.
