# openco

The core of OpenCo, a platform on which several AI agents work together as a
company: an organisation chart of positions, a task board, workspace projects with
per-agent access, and the tools the agents call (web search, file read and write,
shell commands, delegation to subordinates).

`src/` is the library, written and proved with Verus: every function states its
result in its contract, and the properties that span several calls (what a lookup
finds after an update, that the organisation chart stays a tree, what granting and revoking access do, that the task board
keeps progress within 0 to 100, that a blocked command is never run, that the file
sandbox keeps the tools inside the allowed directories) are proved too, in the
contracts or as `law_*` proof functions beside the code.

`app/` is the program around it: the HTTP server, the files on disk, the calls to
the language model and the search engine, and the `fix` command. It hands the
library plain values and acts on what comes back.

`tests/` runs the library on concrete values.
