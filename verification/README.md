# hart

HART, the field device protocol on the 4-20 mA loop, verified with Verus:
short and long frames with an XOR checksum, commands 0 and 1, a Stream written
and read in chunks through device-specific commands, burst mode taken as it
comes.

- `src/` is the verified library. `frame` and `address` are the bytes on the
  line and addresses as text; `stream` cuts a Stream into chunks; `device` is a
  field device, and `loopback` that device on a bus; `transport` is the master.
  Every exchange of the master's is a value that says what to transmit and is
  told what was heard. `frame_laws`, `device_laws` and `transport_laws` hold what
  is true across functions: what is sent is what is read; a frame that is
  cut off is refused, and so is one with one byte of its address, command, data
  or checksum changed; and what is written to a device comes back from it whole.
- `tests/` runs it.
- `app/` puts it on a carrier's lines and buses.
