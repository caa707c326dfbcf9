# scmd_downloader

A Steam Workshop downloader: it reads workshop URLs from `data\urls.txt`,
downloads each item with `steamcmd`, removes the lines of the finished
downloads from the file, and renames downloaded mod folders after the mods
they hold (RimWorld and Kenshi).

- `src/` is the verified library: every decision the program takes, with
  its contract.
  - `text`: searching, splitting, line reading and joining, with the laws
    that joined lines read back unchanged and that a split text joins back.
  - `urls`: item ids from URLs, removing repeated URLs, merging lists, and
    dropping finished lines from the URL file.
  - `html`: the mod links of a saved collection page (through `scraper`).
  - `download`: the course of a download run.
  - `mods`: where a mod's name is found, reading it, cleaning folder names.
  - `cli`: the command line.
- `app/` runs the program: files, directories, `steamcmd`, printing.
- `tests/` exercises the library on concrete values.
