# fnirsi

A toolkit for FNIRSI USB power meters, whose logic is verified with Verus.

`src/` is the verified library: packet decoding and its CRC, device detection,
the firmware upload, the BLE connection, offline recordings, the tabular file
forms, logging sessions, the recording buffer and the points that are drawn of
it, and the state behind the window. It holds measured values by their IEEE 754
bits and never computes with them.

`app/` is the program around it: the command line, the window, HID and BLE
transports, files, and floating-point arithmetic.

Proofs rest on the contracts of six functions of outside code, each behind a
small wrapper whose documentation says what is claimed: `Crc::checksum` of the
`crc` crate, `humantime::parse_duration`, and `str::to_lowercase`,
`char::is_whitespace`, `char::is_alphabetic` and `String::push` of the standard
library.
