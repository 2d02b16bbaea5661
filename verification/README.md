# minishell

The verified core of a small Unix shell.

- `src/` — the library, with its contracts and proofs:
  - `parser`, `parser2`: the tokenizer (quotes, backslashes, operators
    including `<`; `tokenize_with` also expands `$NAME` from the variables the
    program passes in, `tokenize` keeps it as it is) and the
    parsing of tokens into commands and pipelines, with the lexical rules as
    spec functions;
  - `token_laws`: laws of the tokenizers over whole classes of lines;
  - `structs`: the command data, `SimpleCmd::build` and the completion helper
    (byte positions, as the line editor gives them);
  - `cmd`: the builtins (`echo`, `type`, `cd`, `history`), the command dispatch,
    the search-path candidates and the choice among them, and the wiring of a
    whole pipeline;
  - `redirect`: the decisions of redirecting a standard stream and restoring it;
  - `text`: verified string helpers (decimal numbers, joining, splitting).
- `app/` — the program: the line editor loop, processes, pipes, files and the
  system calls, calling the library for every decision.
- `tests/` — tests of the library on concrete values.
