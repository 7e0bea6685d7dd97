# songbook

A tool that turns a tree of song descriptions (`song.json` / `song.yml`,
lyrics, lilypond files) and a tree of book descriptions into pdf song
sheets and books, built with lualatex and lilypond.

- `src/` is the verified library: the song model and its chord-grid
  grammar, the assembly of the world from the source trees, the build
  graph of artefacts and the scheduler that decides what to build next,
  digests that tell what changed, the steps of a pdf build, the board of
  the interactive build, the messages of the build server, and the text
  of the generated makefiles. Each public function states what it
  computes in its contract; the laws that relate several calls are proof
  functions (their names start with `lemma_`).
- `tests/` exercises the library on concrete values.
- `app/` is the command-line program: it reads and writes the files, runs
  the external tools, and hands the library plain values.

Usage: `songbook <srcdir> <bookdir> <builddir>` prepares the build tree;
`songbook build [--nb-workers N] <srcdir> <bookdir> <builddir>` builds
every artefact. The section types are read from the file named by
`SONGBOOK_SECTIONS` (default `others/texfiles/sections.json`).
