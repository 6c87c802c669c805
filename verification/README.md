# vitals_cosmic

A COSMIC panel applet that shows system vitals read from the
`com.corecoding.Vitals` D-Bus service (the `vitals-daemon` session service).

The decisions the applet makes are a verified library (`src/`):

- `text`: exact text comparison, the order of strings, decimal numbers
  (reading a `u8` as `str::parse` does, writing one as `Display` does).
- `model`: sensor categories and formats as the daemon names them, readings,
  and the snapshot of one poll with its grouping by category for the popup.
- `keyed`: a map keyed by text content.
- `dbus`: commands and events between UI and background task, how the
  daemon's replies become a snapshot, the poll loop's and the connection
  loop's steps.
- `app`: the applet's state and what each UI message does to it.
- `view`: the panel's chips, the popup's sections and status line, opening
  and closing the popup.
- `icons`: which bundled icon an icon key stands for.
- `properties`: laws that span these operations.

`app/` is the program around it: the libcosmic UI, the zbus client on
tokio, the shared config file (`vitals_core`), value formatting and the
hover-graph statistics, which are floating-point work.
