# diskscout

Finds where the disk space of a developer machine went, groups it by what owns
it, and deletes the parts that are safe to delete, on macOS, Linux and Windows.

`src/` is a library verified with Verus. It never touches the disk: it is handed
what was seen (directory listings, metadata, environment variables) and says
what to look at next, what counts, what is reported and what may go. `app/` is
the program around it: the command line, the walk, the terminal and the
deletions themselves.

| Module | What it decides |
| --- | --- |
| `category`, `sections` | the categories, which of them are regenerable, how they are shown |
| `classify` | which directories count as build artifacts, and what has to sit beside them |
| `measure`, `found` | how much space files really take, and totals |
| `targets`, `sweep` | lists of directories without overlaps, and the search for web caches |
| `platform`, `unix`, `windows` | the fixed places of a machine and how files are sized there |
| `scanner` | the walk step by step, the result of a scan, unexplored directories |
| `report`, `dump`, `style` | the report on the terminal and the full report |
| `cleaner` | what a deletion takes, in what order, and how much came back |
| `discover`, `bootstrap` | installing, completions and the search for a checkout |
| `text`, `path`, `order`, `clock`, `format` | what the others are made of |

Among what is proved: a sweep takes exactly the regenerable categories that were
found and are not held back; a name that is no category is refused; nothing in a
skipped place is ever noted; targets that are measured do not overlap; a hard
link is counted once; a sync provider's cache is never offered for deletion; no
more bytes are reported freed than there were; and the full report leaves
nothing out.
