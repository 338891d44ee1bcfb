# Expression Visualizer

An editor that shows a program as a term graph in three dimensions: nodes stand
on the cells of a volume, each branch of a Match is a volume of its own, and what
flows between the nodes is drawn as strands in the colour of its type.

## Layout

- `src/` is the editor's logic, verified with Verus. Every function states what it
  returns or changes, and the laws that hold across functions are public proof
  functions named `law_...` beside them.
  - `model` holds the graph: nodes, anchors, edges and the function catalogue.
  - `editor`, `keys`, `prompt`, `suggest`, `selection`, `seed`, `target` and
    `panel` are the modal editor: what a key does, what the prompt offers, and what
    the panel beside the caret shows.
  - `caret`, `picking` and `wiring` are movement, the pointer, and drawing edges.
  - `evaluation`, `labels`, `sources` and `diagnostics` are the run and what is
    said about it.
  - `render` decides what is drawn: strands, ribbons, bodies, shells and surfaces.
- `app/` is the window: Bevy systems that hand the library what happened and show
  what came of it. All geometry in floating point is there.
- `tests/` runs the library on concrete values.

Four engines work beside the window: the layout, the inferer, the evaluator and
the linter. They are not part of this crate. The window reads what they have found
from its `Findings` resource and asks them for work by `Request` messages.
