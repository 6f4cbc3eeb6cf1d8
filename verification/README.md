# gh6

Explores the follow graph of GitHub: a daemon crawls who follows whom, starting at
a seed user, and a client asks how close any two users are.

The library, in `src/`, is verified with Verus. It holds everything that decides or
computes; it opens no file and no socket.

| Module      | What it is                                                             |
|-------------|------------------------------------------------------------------------|
| `types`     | users, edges, snapshots, events, and their mathematical models         |
| `db`        | the tables, their invariant, the crawl queue, look-ups, laws           |
| `graph`     | shortest paths, simple paths, connected components                     |
| `find`      | looking for a text in another                                          |
| `analyze`   | routes, common connections, profiles, figures, export                  |
| `crawlers`  | what a crawl stores, and the degree of a user                          |
| `worker`    | what a crawl worker does next                                          |
| `server`    | requests, snapshots, watchers, seeding                                 |
| `github`    | reading lists page by page, errors, the request limit                  |
| `client`    | what the client prints                                                 |
| `tui`       | the live monitor: state, keys, lines                                   |
| `display`   | drawing primitives                                                     |
| `views`     | what the results of the analyses look like                             |
| `text`, `order`, `lists`, `rounding` | building blocks                               |

`Db` keeps its tables in memory and writes down every change. Whoever owns the
storage opens it with the rows that are stored (`Db::open`) and stores what
`Db::take_changes` hands out; the invariant of `Db` says that both then agree.

`app/` is the program around the library: SQLite, the `gh` command, the Unix
socket, the terminal and the command line. `tests/` runs the library.
