# argon

A packet rack: packets read from a TUN device run through a chain of slots,
each served by one or more workers, and leave through an exit channel.

- `src/` is the library, verified with Verus:
  - `rotary`: canons that fire a packet into the first of several channels
    with room, and targets that take packets from several channels in turn;
  - `rack`: the wiring of a rack (stages laid out by the gcd of neighbouring
    worker counts), building it out of slots, and polling it;
  - `slot`: slot configuration, the slot traits, and the steps of a
    synchronous slot's worker;
  - `slots::ping`: the echo-reply decision of the ping slot;
  - `config`, `device`, `cli`, `runner`, `error`: configuration, device
    settings and error types.
- `app/` is the program around it: the TUN device, the tokio tasks that run
  workers and runners, serde and clap.
- `tests/` exercises the library.
