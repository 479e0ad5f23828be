# lander

The software of the lander001 desk robot and of landerctl, the desktop program that shows it the
notifications of a Linux or macOS desktop.

- `src/` is the verified library: messages and their encoding (`message`, `wire`, `codec`), frames
  and the stream decoder (`frame`), both ends of the link (`link`, `connect`, `ble_server`,
  `uuids`), what the robot does (`device`, `led`, `button`, `card`, `wrap`, `behavior`, `pixels`),
  and what the desktop does (`command`, `controller`, `monitor`, `mac_monitor`, `bluez`, `gui`, `cli`).
- `app/` is the ordinary Rust around it: the window, the tray, Bluetooth and D-Bus on the desktop,
  and the robot's pins, radio and display.
- `tests/` runs the library.

Values of the clock are nanoseconds of a clock that does not go back, angles are single-precision
numbers held as their bits, and everything that the outside world decides (a random number, the
time, what a worker reports) comes in as an argument.

The firmware speaks over Bluetooth; built with `LANDER_LINK=usb` in the environment it speaks over
the USB port.
