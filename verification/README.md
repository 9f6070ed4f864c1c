# kuantframe

Verified core of Kuantframe's save transfer and item price cache.

- `src/` is the library, checked by Verus.
  - `paths`: the app-data paths (`dev.kenya.quantframe`, `dev.kuantframe`, the
    pending import folder and flag, backup folder names).
  - `entries`: decisions on folder entries: the skipped `EBWebView` folder, the
    `quantframeV2*` database renames, whether a folder holds a Quantframe save.
  - `copy_tree`, `db_rename`, `transfer`: state machines for copying a folder,
    renaming database files, staging an import and applying it. Each step takes
    the outcome of the last file-system action and returns the next action.
  - `price`: the price rows with URL and id indexes; a lookup returns the first
    row with the key, as a linear search would.
  - `clock`, `text`: the local time for backup names, and string helpers.
  - `disk`, `copy_on_disk`, `rename_on_disk`, `import_on_disk`: a model of
    folders and files and of what each action does to them when it succeeds,
    and what whole runs of the machines do there: the copy reproduces its
    source without `EBWebView`, the renaming moves each `quantframeV2*` file to
    its `kuantframeV2*` name, and staging followed by applying leaves the
    Kuantframe folder holding the Quantframe data, so transformed.
- `app/` performs the actions on the real file system, reads and writes the
  price cache file, and keeps the cache behind a lock.
- `tests/` drives the state machines against an in-memory file system.
