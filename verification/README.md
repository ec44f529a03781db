# wf_recorder

A screen recorder front end for `wf-recorder` on wlroots compositors, in two
parts.

`src/` is the library, verified with Verus:

- `text` — characters, whitespace, words, lines, searching, decimal numbers
  (what the library needs of `str`, stated and proved);
- `recorder` — formats, audio choice, recording configuration, output
  descriptions, and the arguments handed to `wf-recorder` and `pactl`;
- `geometry` — wlr-randr and slurp geometries, and the check that a selected
  region lies within one display;
- `layout` — position labels (Left/Right, Top/Bottom, grids) for the displays;
- `outputs` — reading the reports of `wlr-randr` and `wf-recorder -L`;
- `audio` — reading `pactl` reports and choosing the sources to record;
- `captions` — texts shown in the window;
- `config`, `theme` — the stored settings and the accent colors;
- `session` — the application's decisions: from its state and a message to
  the next state and the outside work to do, with the laws that hold of it.

`app/` is the program around it: the iced window, the styles (floating
point), running the commands, and storing the settings.

`tests/` runs the library on concrete inputs.
