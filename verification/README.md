# nexus

The core of a social indexer, written in Verus: which posts a stream shows and in
what order, how the sorted sets behind the streams are kept, how searches are
scoped, and what the watcher, the migrations and the command line decide.

Reads, writes and syncs that need a store, a graph or a clock are state machines.
`action()` says what to ask next, `step(..)` takes the answer, and the contracts
say exactly which action and which next state that is. The I/O itself is in `app/`.

| Where | What |
|-------|------|
| `src/sorted_set.rs` | commands to a store of sorted sets, and a model of one |
| `src/ranked_sync.rs` | bringing the ranked twins of the global sets in line with a trust ranking |
| `src/ranked_sync_laws.rs` | what a whole sync, a broken-off one, and one amid new posts or a new ranking leave behind |
| `src/post_stream.rs`, `src/post_read.rs` | sources of posts, and reading a page of them |
| `src/post_index.rs` | writes to the sets of posts |
| `src/post_laws.rs` | what holds of pages and writes together |
| `src/resource_stream.rs` | streams of tagged resources |
| `src/reach.rs`, `src/search.rs` | who is in a reach, and searches scoped to one |
| `src/runner.rs` | which homeservers are polled, and what is said of it |
| `src/migrations.rs`, `src/cache.rs` | migrations and the search index |
| `src/media.rs`, `src/cli.rs`, `src/fixtures.rs` | file variants, commands, sample posts and users |
| `src/scored.rs`, `src/text.rs`, `src/types.rs`, `src/pubky_id.rs` | sorting, texts, shared types, ids |

Scores are whole numbers in the core. `app/` turns the store's floating-point
scores into them and back.
