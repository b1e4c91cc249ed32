# NativeTerm, verified

NativeTerm keeps a list of hosts and drives the sessions to them in the tabs
of a terminal. This crate is its logic: what every command, every report from
a tab and every click does. It is written in Verus, and each function's
contract is proved.

* `src/` is the library. It holds plain values and decides; it reads no file,
  opens no window and starts no process.
  * Sessions: `session`, `sessions`, `pipe`, `control`, `orders`,
    `opening`, `connect_queue`, `refresh`, `tabs`, `actions`, `previews`.
  * Hosts and dialogs: `app`, `wizard`, `dialogs`, `options_dialog`,
    `plink_dialog`, `key_dialog`, `credential_sets`, `cleanup`, `import`,
    `import_dialog`, `commands_import`, `fab`, `fuzzy`, `quick`.
  * Files: `files_window`, `files_tab`, `files_list`, `files_tree`,
    `files_jobs`, `files_edit`, `files_sync`, `files_text`.
  * Data: `data_dir`, `data_lock`, `registry`, `notes`, `commands`, `diag`,
    `dates`.
  * Looks and words: `looks`, `dock`, `icons`, `i18n`, `agent`, `message`.
  * Shared: `text`, `order`, `paths`, `start`.
* `tests/` runs the library on concrete values.
* `app/` is the program around it: `state.db`, the TOML files, the lock, the
  log, the words and the drawing.

A text is stated by its characters, a list by the sequence of its items.
Functions named `law_…` are proofs of what holds across functions. Times are
passed in; what an operation wants done outside is returned as a value.

What the proofs rest on besides Verus is marked `external_body`,
`assume_specification` or `uninterp` in the source: TOML documents
(`data_dir`), case mapping and character classes of `std` (`text`, `fuzzy`),
joining a file name to a folder (`paths`), the debug format of a string
(`data_lock`), a character by its code point (`icons`) and `String::push`
(`text`).
