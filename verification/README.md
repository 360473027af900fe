# smart_clipboard

The verified core of a clipboard history manager that keeps every piece of
text copied anywhere (with its HTML and RTF renderings), newest first, and
pastes a chosen entry back into the window that last had the focus.

- `src/` is the library, proved with Verus:
  - `text`: Unicode whitespace, trimming and the row preview.
  - `utf16`: the clipboard's UTF-16 text format, NUL-terminated and little-endian.
  - `codec`: base64 (RTF) and lossy UTF-8 (HTML), through the `base64` crate and std.
  - `entry`: a captured clipboard item.
  - `clipboard`: what is read from and written to each clipboard format.
  - `history`: the entry list, one entry per content, newest first.
  - `storage`: the saved store and how it is loaded back.
  - `watch`: when to read the clipboard, from its sequence number.
  - `paste`: the decisions taken while pasting into another window.
- `app/` is the Windows program around it: the window (eframe), the Win32
  clipboard and input calls, and the JSON data file (serde).
- `tests/` exercises the library on concrete values.
