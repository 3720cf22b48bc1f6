# Downpour

A download manager that does not corrupt your files. A daemon owns every transfer; clients submit
and observe downloads over an authenticated local connection.

`src/` is the library. Every function in it is verified with Verus against its contract.

| Module | What it decides |
| --- | --- |
| `intervals`, `allocator` | which byte belongs to whom: the partition of a download and its grants |
| `writer_service`, `scheduler`, `worker_pool`, `segmented` | parallel ranged transfers, from the plan to full coverage |
| `accounts` | that every fetched byte is credited to one worker's record, once |
| `sink`, `storage_sink`, `download` | single-stream transfers, what is durable, and when a file may be named |
| `remote`, `digest`, `protocol`, `h1h2`, `probe`, `error` | what a response means, and when evidence must be renewed |
| `retry`, `time`, `text`, `address`, `filename` | back-off, clocks, text rules, URLs and what a file is called |
| `messages`, `json`, `schema`, `codec`, `token`, `session`, `transport` | the local protocol: messages, frames, authentication |
| `records`, `registry`, `server`, `startup`, `retention`, `client` | the daemon's registry, recovery and retention, and the client's side |

Calls into other crates stand behind small functions whose contracts are taken on trust; each says
in its documentation what it claims of the crate.

`app/` is the program around the library: sockets, files, threads and the command line. `tests/`
holds the library's tests.
