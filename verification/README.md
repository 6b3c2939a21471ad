# Volume Controller

A plugin for OpenDeck that sets the volume of applications and audio devices
with the keys and dials of a Stream Deck. Its rules are a library verified with
Verus; the plugin around it talks to OpenDeck, to PulseAudio and to the file
system.

- `src/` is the library. Every function has a contract, but for the call that
  has another crate make a picture gray, of whose result nothing is claimed.
  What holds across functions is stated in public proof functions next to them.
  - `audio` keeps the registry of what plays, the commands that wait to be sent
    and the routing of PulseAudio's events.
  - `dial`, `device_dial`, `dynamic`, `app_column`, `mixer` and `plugin` decide
    what the dials and keys show and what turning or pressing them orders.
  - `feedback` decides when a frame is sent and how long a prediction is shown.
  - `icons` finds the icon of an application: desktop entries, icon themes,
    Steam's libraries and pictures.
  - `percent`, `text`, `path`, `table` and `sort` are what the others rest on.
- `app/` is the plugin: settings as they are sent and kept, the connection to
  PulseAudio, the reading and drawing of pictures, and arithmetic on volumes as
  floating-point numbers. The library carries volumes as bit patterns.
- `tests/` runs the library.
