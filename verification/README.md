# wiki_tui

Layout of Wikipedia articles for a terminal, verified with Verus.

A document is a tree of nodes (`src/document.rs`) held in one vector, every
child after its parent. The renderer (`src/renderer.rs` and
`src/renderer/`) walks the tree and lays the text out as lines of styled
words no wider than a given width; long runs of words are broken into lines
by `textwrap`'s optimal-fit algorithm (`src/wrap.rs`).

What rendering does is stated as recursive functions over the tree in
`src/layout.rs`; every executable rendering function is proved to do
exactly that. Laws of the renderer are proved in `src/laws.rs` (single
operations, table rows against their borders), `src/growth.rs` (rendering
only adds lines and links), `src/settings.rs` (a node hands back the
padding, prefix, colour and modifiers it found) and `src/text_law.rs`
(rendering a part of a document without tables keeps every word of its
text, in order; at the end of a document, the words not on the returned
lines are those of the unfinished last line).

`src/search_bar.rs` holds the search bar's state, its key handling and the
placement of its parts. `app/` is a small terminal program around the
library.
