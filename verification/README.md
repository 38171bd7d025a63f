# stmax_control

Control software for the PCS Electronics STMAX FM transmitter, which is
driven over a USB serial line with a small text protocol (`?` for the
settings report, `config-…:value` to change a setting, `config-save` to keep
them).

The library in `src/` is written in Verus and verified:

- `text` and `numbers`: text handling and exact decimal arithmetic on digit
  strings (the transmitter's settings are decimal quantities, held exactly and
  written back rounded to three decimals);
- `protocol`: reading the `Current settings:` report into a `DeviceForm`, and
  turning a form into the list of commands that saves it;
- `serial`: the state that the serial controller publishes and how each event
  of the connection (ports listed, port opened, command sent, line received,
  failures) changes it, plus the splitting of received bytes into lines;
- `operation`: the device operations (read, save, factory defaults) as a
  list of commands stepped one outcome at a time;
- `controller`: the controller's state as one value, changed only by its
  methods, which keep the log bounded, the counters rising, and the
  controller busy exactly while an operation runs;
- `ui_state`: the decisions of the window (which port is selected, when it
  connects on its own, when it reads the settings, which controls are usable);
- `laws`: properties that span several functions, such as "settings read from
  the transmitter are saved back as they were read".

`app/` is the program around it: the egui window, the tokio task that owns
the serial port, and the conversion of the port list that the system gives.
All decisions it takes are calls into the library.

The window title shows the `BUILD_VERSION` given in the build environment,
or `unknown`.
