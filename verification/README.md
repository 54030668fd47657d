# game_translator

A screen translator for games: it captures a region of the screen (or the
subtitle area), reads the text with OCR, translates it through a web service
and draws the translation over the game.

- `src/` is the library, verified with Verus: text cleaning and similarity,
  the translation cache, subtitle stabilisation and history, batch planning
  around the cache, the request and response formats of the translation
  services, hotkey and command state machines, the region selector's state
  machine and drawing, image erosion and dilation, and the configuration
  defaults. Public functions state their results in their contracts, apart
  from what the clock decides, and the laws that span several calls are
  public proof functions named `law_*`.
- `tests/` runs the library on concrete values.
- `app/` is the program around it: windows, screen capture, OCR, HTTP, audio,
  files and threads. The decisions on what it reads are the library's.
