# bf_editor

A terminal editor for Brainfuck programs that runs them one instruction at a
time, showing memory, output and input as it goes.

- `src/` is the verified library:
  - `brackets`: nesting depth, well-bracketed programs, matching bracket pairs;
  - `text`: collapsing blank runs, indentation by depth, splitting into lines;
  - `code`: the program text (`Code`) and its bracket map;
  - `interpreter`: the single-step interpreter and its laws;
  - `visual`: display lines, cursor placement and movement, the visible window;
  - `controller`: modes, events, and the session's decisions;
  - `frontend`: what each key does in each mode;
  - `semantics`: standard Brainfuck, and the proof that a whole run of the
    interpreter follows it.
- `app/` is the terminal program: it reads the file, draws with ratatui,
  reads keys with crossterm and hands every decision to the library.
- `tests/` runs the library on concrete programs.
