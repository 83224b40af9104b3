# eidolon

A single registry for DRM-free, wine, Steam, Lutris, itch.io, Dolphin and GOG
games on Linux, launched through a rofi menu.

- `src/` is the verified library (Verus): the registry's rules (registry
  names, which games are registered, how a game is launched), the reading of
  Steam app manifests, Lutris' game list and both config formats, the menu's
  input and answer, and the first version's start scripts. Each public
  function carries its contract; the laws that span functions are proof
  functions named `law_*`.
- `app/` is the program around it: the command line, the file system, the
  processes it starts, butler for itch.io, and the JSON forms of games and
  config.
- `tests/` runs the library on concrete cases.
- The program also answers to two other names: invoked as `eidolon_add`
  it is the stand-alone tool that registers one executable, and invoked as
  `eidolon_legacy` it is the first command-line version.
