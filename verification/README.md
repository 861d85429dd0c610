# qfind

The verified core of Qfind, a GTK file finder for Linux, written in Verus.

`src/` is the library. Every function in it carries a `requires`/`ensures`
contract that Verus proves; the few calls into std and `dirs` whose results
the library cannot compute itself sit behind small trusted wrappers
(`paths.rs`, `format.rs`, `projects.rs`, `text.rs`) whose contracts name
their results.

- Text and ordering: `text`, `lines`, `order` (a verified stable merge sort
  used by every sorted list), `search` (name matching and live listings).
- The window: `keys` (shortcuts and history), `window`, `surface`, `row`,
  `columns`, `layout` (saved column layouts), `model`, `places` (pinned
  folders), `settings`, `icons`, `shaders`, `format`.
- Tools: `manager` (select matching, batch transfers and renames),
  `cleanup` (build-folder cleanup), `scripts`, `storage` (the storage chart),
  `sizes`, `actions` (thumbnails and previews), `portal` (the file-chooser
  portal), `native` (status codes of the native interface).
- Projects: `projects`, `workspace` (the project list), `checkouts` (the
  checkout picker, ordered as `Path` orders paths), `git_actions` (the
  inspector's git verbs), `changes` and `diff`/`patch` (the Git changes
  panel and its diff view).

The laws the library promises are public proof functions beside the code
they speak of (for example `layout::restore_after_save`,
`places::pins_read_back`, `workspace::listing_once_per_path`,
`keys::open_preview_closes`).

`tests/` runs the library on concrete values. `app/` is the program around
it: the GTK window, file and process I/O (reading a picture, running the
thumbnailer the library names, writing the result), OpenGL and the D-Bus
portal service.
