# erdueltools

A toolkit for duel builds in Elden Ring: it saves and restores armor, weapons, talismans, spells
and attributes, keeps a library of builds with keys to load them, and counts kills and deaths for
the active build.

- `src/` is the library, verified with Verus: what is saved, the job that puts a build on frame by
  frame, the library of builds and its files, the count of duels, the search for the game's
  functions, and what the panel, the overlay and the keys decide. It never touches the game; a step
  takes what was read and returns what to do next.
- `tests/` runs the library on concrete values.
- `app/` is the dll around it: hooks, files, windows and drawing. It builds on Windows.

## Keys

- F1–F4 load the build that is bound to the key
- F5 opens the panel
- F6 shows the record of the active build
- F7 saves over the active build, Shift+F7 saves a new one
- F8 drops the current target
- F9 removes weapons, armor and talismans only
- Ctrl, held, picks a build with the mouse
