# entry_view_state

View state for the entries of an agent thread: which tool calls, thoughts and
context compactions are expanded, which consecutive entries are shown as one
bundle, and which views each entry has. The library is verified with Verus, and
nothing in it is taken on trust.

## Layout

`src/` is the library.

- `thread`, `settings`: what the library reads of a thread and of the user's
  settings.
- `tool_kind`, `text`: the order of tool kinds, and the texts of bundle headers.
- `bundle`: which entries are bundled, and what a bundle says of them.
- `tallies`: whether the counts of bundles fit the integers that hold them.
- `recompute`: looking bundles up, and bringing them up to date after a change.
- `reindex`: entry indices across a removal.
- `key_set`: sets of keys.
- `entry`, `sync`: the views of single entries, and how they follow the thread.
- `state`: the state as a whole. Its contracts speak of a `StateView` and its
  transitions.
- `bundle_laws`, `splice`, `recompute_laws`, `state_laws`, `sync_laws`: what holds
  across calls. Bundles are exactly the runs of more than one entry; updating them
  after entries are appended or removed gives what computing them from scratch
  gives, and so does updating them after an entry has changed, except where a
  tool call stays in its bundle and counts for something else; states stay
  well-formed; syncing settles.

The views themselves belong to a user interface toolkit. The library refers to
them by the types of the trait `Handles`: before an entry is synced,
`missing_views` lists the views to create, and `sync_entry` takes them and returns
what is to be done.

`app/` is the glue to the agent panel of an editor: it reads threads and settings,
creates views, and carries out what the library returns.

`tests/` runs the library on concrete threads.
