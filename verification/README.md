# rodecaster_usb

A verified library for talking to the RØDECaster Pro II over USB HID, with the command-line
tool and the other programs around it.

- `src/` is the library, written in Verus: the binary wire format (strings, typed values,
  index paths, the state tree and the packets), the framing of packets over HID reports,
  the device state tree and its property patches, device recognition, the hot-plug
  bookkeeping, and the decisions of the device loops and commands. Each public function
  states what it returns in its contract, and the laws of the library (encoding then
  decoding gives the value back, reading the frames of a packet gives the packet back, a
  rescan changes nothing, ...) are proof functions beside the code they speak of.
- `app/` is the program: argument handling, logging, the HID and USB I/O, the threads and
  channels of the device handles and managers.
- `tests/` runs the library on concrete inputs, among them bytes captured from a device.

Named properties are kept in `PropertyMap`, a vector of (name, value) pairs whose names are
unique by a type invariant, and the children of a state report in a sequence of
(name, group) pairs, rather than in std's `HashMap`. vstd's specification of `HashMap` says
what the map holds only for key types that it knows to obey its key model (the integer types
and `bool`); for `String` keys it would have to be assumed, so with a `String`-keyed
`HashMap` no contract could say which properties an object has.

The state report decoder of `parser` (field values, children grouped by name) and the state
object decoder of `protocol` (values, children in order) read the same wire format; the proof
`lemma_report_decoders_agree` in `src/parser/decoders_agree.rs` shows that both take the same
bytes and give the same name, property names and number of children.
