# locker

A fake lock screen. Run it and your machine *looks* locked: a fullscreen image (or a
built-in clock and padlock screen) covers every monitor, the cursor is hidden, and
nothing reacts to input. Type the unlock code, with no input box, no echo and no
feedback, and it disappears.

**This is a facade, not security software.**

- **Unlock:** type the code (default `unlock`). Mistyped characters don't matter: only
  the characters typed last are compared, so just type the code again.
- **Ctrl+Z** suspends locker like any terminal job; `fg` brings the screen back.
- Requests to close a window are refused.

`~/.lockerrc` holds the configuration:

```ini
# the unlock code (default: unlock)
code = letmein

# fullscreen background image; scaled to fill, center-cropped.
# if unset or unloadable, the built-in lock screen is used.
image = ~/Pictures/fake-lock.png
```

## Layout

`src/` is the library, verified with Verus:

- `app`: the lock screen as a state machine. Keys, window events, the timer, suspending,
  drawing, and what holds of every state.
- `config`: the configuration file.
- `scale`, `cover`: the size at which an image covers a screen, and its pixels.
- `paint`, `screen`: blending, the backdrop, the padlock, text, the built-in screen.
- `clock`: the time and the date in words.
- `fonts`: the search for a font.
- `text`: characters, trimming, comparison.

`app/` is the program around it: windows, files, processes, and what is computed in
floating point (the shape of the padlock, the layout of text).
