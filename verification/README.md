# sage

Shell Sage turns a plain-language request into a shell command with a local
Gemma model, explains commands and answers questions. This crate holds its
logic as a Verus-verified library; `app/` is the command-line program around
it (argument parsing, the configuration wizard, downloads, the clipboard and
the llama.cpp bindings).

Modules of the library (`src/`):

- `text` — white space, trimming, line splitting, replacement and joining,
  each with an exact specification over `Seq<char>`.
- `output` — sanitizing the model's reply and splitting a command reply into
  the command and its `#` hints, with the laws that the sanitized text holds
  no chat-turn marker, that sanitizing twice only drops a final line feed,
  and that the parts of a command reply are what they claim to be.
- `reply` — choosing the request from the arguments and reading a reply.
- `prompt` — the prompts for the three modes.
- `config` — the two models, path joining, and what a settings file gives.
- `downloader` — which cached models to keep or fetch again.
- `setup` — the wizard's menus and the detected memory size and shell.
- `engine` — the bookkeeping of a generation.
