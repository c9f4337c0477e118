# Voca

Push-to-talk dictation: press F11 to record, press it again to have the recording transcribed and
typed, press it twice quickly to switch between Hindi and English. A capture of a part of the screen
has the text in it read and copied.

- `src/` is the logic of the service, verified with Verus: the dictation session (`logic`), the words
  still to be typed (`typing`, `text`), the recorder and its live stream (`audio`, `wav`), the cutting
  of live audio into segments (`whisper`), requests to the service and its replies (`api`), the screen
  capture (`ocr`, `picture`), the tray icon (`icon`), the indicator (`ui`, `audio_bars_ui`, `utils`),
  the settings files (`settings`) and the keyboard hook (`hook`).
- `app/` is the Windows program around it: devices, windows, files, the network, and whatever is
  computed in floating point.
- `tests/` runs the library on concrete values.

What the library relies on without proof stands in functions marked `external_body` and in
`assume_specification` items, each with a comment that says what is relied on.
