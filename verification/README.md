# net-monitor

A network traffic monitor for Linux: it captures packets, attributes connections to
processes, publishes one snapshot per second on a Unix socket, raises alerts, stops
processes that exceed their limits, and shows it all in a window. The logic is verified
with [Verus](https://github.com/verus-lang/verus).

## Layout

- `src/` is the verified library.
  - `parser`, `address`: from captured bytes to packets and addresses.
  - `capture`, `aggregator`, `output`: from packets to the snapshot of a second.
  - `filter`, `aggregate`, `alert`, `history`: what is done with a snapshot.
  - `proc_attr`, `process_control`: whose connection it is, and who may be stopped when.
  - `ipc`, `ipc_cmd`: both sides of the socket.
  - `monitor`, `view`, `chart`, `export`: the state and the texts of the window.
  - `data`: the records that all of them share.
  - `text`, `number`, `order`, `table`, `clock`: the groundwork.
- `tests/` runs the library.
- `app/` is the program around the library: sockets, files, signals, capture, and the
  window itself.

## What is proved

Every function that the library proves states what it returns or changes, and none of
them overflows or panics by itself. Of the clock it is stated only that the time is not
before 1970; `chrono` panics where it is, and where the time zone gives no offset. Beyond
that the library states, among others, that

- a tally holds the bytes of its packets, whatever their order, and packets are counted
  together only if they have the same addresses, ports and protocol;
- no byte is lost between the tally, the snapshot and its rollups, and the rollups have
  the same groups whatever the order of the rows;
- a snapshot is due when its second is over, however many packets are still to be counted;
- an exported CSV line reads back as the record that it was written for;
- the backend understands every request that the client writes, and the client reads from
  the answer what the backend put into it;
- of itself the backend stops only a process that is over one of its limits, the window
  asks it to stop one only when the user has confirmed it, and no request ends the
  backend itself, process 0 or 1, or a group of processes;
- the table of the window shows each connection once and in the one order that the user
  chose, and every snapshot that arrives takes out the connections that are no longer
  fresh.

What the library takes from other crates (`etherparse`, `chrono`) and from the standard
library without proof stands in functions marked `external_body` or
`assume_specification`; each says what is claimed of it.

## Use

    sudo net-monitor --iface eth0
    net-monitor gui
