# manga_tui_core

The logic of `manga-tui`, an offline manga library and reader for the terminal,
written in Verus. The library is proved against its contracts; what it calls of other
crates without proof stands in `outside`.

- `src/` is the library. It works on plain values: folders and archives as they
  were read (`disk`), keys as far as they matter (`keys`), texts and numbers.
- `app/` is the program around it: reading folders and archives, arguments,
  the terminal and the clock.
- `tests/` runs the library.

## Modules

| Module | What it holds |
| --- | --- |
| `text`, `digits`, `bignat`, `order` | characters, numerals, big numbers, stable sorting |
| `natural`, `double`, `size` | natural order of names, texts as doubles, readable sizes |
| `path`, `anypath`, `components`, `formats`, `numbering`, `places` | paths, file formats, volumes and chapters in names, identifiers and URLs |
| `disk`, `scan`, `chapters`, `mangas`, `layouts` | what was found on disk, and the mangas in it |
| `model`, `textmap`, `index` | mangas, a map with texts as keys, the index and the totals of a library |
| `responses`, `provider` | what the pages of the program ask of a library |
| `keys`, `input`, `filters`, `stats`, `app`, `cli` | the state machines of the program, and its arguments |
| `error`, `outside` | errors; the functions of other crates that are called and not proved |

## What is proved besides the contracts

`layouts` states what holds of every library: a manga has chapters, a chapter has
pages, all are numbered and in order, a folder of images is one chapter, and a
cover file goes before the first page. `index` and `provider` state that every
page, chapter and manga is found again. `places` states that extracted archive
entries stay below the cache folder. `app` and `stats` state what keys and
reloads do on every page.
