# shell

The logic of a small interactive shell, verified with Verus.

- `src/` is the library. `lexer` splits a command line into commands and the
  pipe and redirection operators between them; `words` splits a command into
  quoted words; `command` classifies a command (a builtin, a program found on
  the search path, or a missing one) and says what running it asks for;
  `commands` holds what `echo`, `type`, `cd` and a missing command produce;
  `parser` builds the syntax tree; `interpreter` lists the steps that run a
  tree; `helper` completes command names; `utils::string` holds two more
  word splitters.
- Looking a name up on the search path reads the environment and the file
  system, so the library takes that lookup as a function argument.
- `app/` is the program around it: the line editor, the search path, files,
  processes and the current directory.
