# shellsim

A small version-control and text-processing toolbox that works on plain values: files in memory,
texts, and a clock that the caller sets. It holds `git` with its porcelain and plumbing, `grep`, the
digest and encoding tools, and the reader of makefiles.

- `src/` is the library. Every function states what it returns and what it changes, and Verus proves
  it. A command says, as one equation, what the machine and the screen hold afterwards.
- `tests/` runs it.
- `app/` is the host's side: it reads standard input, runs the host's git to take a history over,
  and lets an engine of the embedder patch files.

## The model

Text is a sequence of characters, a file is a sequence of bytes, and a disk is a list of paths in
ascending order. `system::Machine` is a disk with a working directory, an environment, a clock and
budgets; `console::Screen` is what a command reads and prints. Trees, the index, commits, references
and the journals of unfinished operations are files below `.git`, and `storage`, `journals` and
`keeping` prove that what is written there is read back.

## Where things stand

| Modules | What they hold |
| --- | --- |
| `text`, `bytes`, `numbers`, `order`, `dates` | texts, encodings, numbers, ordered maps, dates |
| `hashes`, `digests`, `encoding` | SHA-1, SHA-256, SHA-512, MD5, cksum, base64 |
| `system`, `console`, `registry` | the machine, the screen, the table of commands |
| `objects`, `trees`, `records`, `repo`, `revisions`, `history` | the repository |
| `diff`, `merging`, `combine`, `compare`, `applying` | differences, merges, patches |
| `flags`, `syntax`, `git`, and one module for each group of commands | the commands |
| `patterns`, `wildcards`, `searching`, `grep` | searching |
| `makefile`, `hashing`, `importing` | makefiles, digest tools, taking a history over |
| `storage`, `journals`, `keeping`, `recording`, `placing`, `stowing`, `topology`, `bases`, `turning`, `reading`, `staying` | laws that span modules |
