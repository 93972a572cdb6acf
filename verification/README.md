# Xilous Stratagems Manager

The logic of a Helldivers 2 utility that saves and applies loadout presets and
enters Stratagem codes by hotkey, written as a Verus library: the functions of
`src/` state what they do, and Verus proves it. (Of the clock there is nothing to
state: `now_unix` returns whatever it reads.)

## Layout

- `src/` is the library.
  - `text`, `text_map`, `ids`: strings as sequences of characters, ordered maps by
    text.
  - `key`, `input`, `stratagem_input`, `catalog`, `item`: keys, hotkeys, the key
    sequence that enters a code, the Stratagem catalog.
  - `config`, `config_document`: `data/config.toml` and its edits. What an edited
    file holds is proved; that its comments and layout are kept is `toml_edit`'s
    doing.
  - `preset`, `template_path`, `sample`, `assets`: saved presets, the paths and
    images of their templates.
  - `active_loadout`, `app_state`, `app_events`, `log_buffer`: what the window
    shows.
  - `engine` and its modules: window commands, hotkeys, preset actions, calls.
  - `loadout` and its modules: walking a list on the loadout screen, page by page,
    and deciding what to click.
  - `vision` and its modules, `capture`, `game_settings`: which references are
    compared and how a ranking is settled; brightness, positions, color settings.
  - `ui` and its modules, `startup`: what the window and the messages say.
- `app/` is the program around it: files, threads, the window, and the
  floating-point comparison of icons. What only a platform can do (capture,
  input, tray) stands behind the traits of `app/platform.rs`.
- `tests/` runs the library.

## What is trusted

The library calls `toml_edit`, `image`, `fast_image_resize`, `serde_json` and a
few functions of the standard library. Each call stands in a small function marked
`#[verifier::external_body]`, or behind an `assume_specification`, whose
documentation says what is claimed of it. Results that are not spelled out are
named by functions without a body, such as `png_pixels`; the contracts speak of
these names.

Laws that relate several functions are the public proof functions whose names
begin with `lemma_`.
