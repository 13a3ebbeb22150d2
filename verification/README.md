# lala_bar

The verified core of a Wayland layer-shell status bar that follows a media
player, balances the left and right channels of the mixer, shows the time and
lays out desktop notifications in windows of their own.

`src/` holds the logic, verified with Verus:

- `slider.rs`: the carousel of volume sliders;
- `balance.rs`: the balance percentage and how a new balance splits the volume;
- `clock.rs`: the date, weekday and time labels;
- `player.rs`: which media player to follow, and its buttons;
- `art.rs`: which album art to show (through the `url` crate);
- `notify.rs`: notifications, their entries and the hidden-notification list;
- `ops.rs`: operations on the notification list and on window records;
- `bar.rs`: the bar's state, the window records and the simple actions;
- `arrival.rs` and `removal.rs`: what a new or withdrawn notification does to
  the windows;
- `events.rs`: the bar as a state machine from event to actions;
- `laws.rs`: properties that relate several operations.

`app/` is the program around it: the iced layer-shell windows, the session
bus, the mixer and the timers. It performs the actions the library returns.
