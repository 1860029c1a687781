# tmus

The daemon of a terminal music player. It keeps a queue of tracks from
several music services, plays them through `mpv`, stores what it has played
for offline use, and shows itself on the desktop bus, in the tray and in
Discord.

## Layout

- `src/` is the daemon's logic, verified with Verus. Nothing in it reads a
  file, opens a socket or waits: it takes what was read and says what is to
  be done.
- `app/` is the program around it: sockets, processes, SQLite, HTTP, D-Bus,
  and the copies of the library's types that carry serde's derives.
- `tests/` runs the library on plain values, with the outside crates linked.

## What is proved

Each public function states in its contract what it returns and how it
changes the state it is given. Promises that relate several functions are
public proof functions named `lemma_..`: for example that a traversal of the
queue visits every track once (`queue.rs`), that an eviction never takes a
pinned file and ends within the limit (`cache.rs`), that a command that was
overtaken by a newer one loads nothing (`player.rs`), or that a merged feed
holds no card twice (`home.rs`).

## What is trusted

A few calls into other crates and the standard library stand behind
functions marked `external_body` or behind `assume_specification`: strings
and characters (`text.rs`), JSON
(`json.rs`), key derivation and AES (`chromium.rs`), URLs (`filler.rs`),
paths (`cookies.rs`), lists of artists (`cache.rs`), the clock (`queue.rs`),
spans of time as text (`mpv.rs`) and quotation (`eq.rs`). The comment above
each says what is claimed of it.

Doubles are kept as their bits (`double.rs`): the library compares and
bounds them, and leaves arithmetic on them to `app/`.
