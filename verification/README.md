# lampctl

Control of a dimmable 433 MHz radio lamp on a Raspberry Pi, as a verified
library (`src/`) and a thin program around it (`app/`).

- `src/code.rs`: codes as bit sequences, the 32-bit shift register that
  collects them, and event-driven machines.
- `src/home_wizard.rs`: decoder for the HomeWizard protocol, with the proof
  that a well-formed frame decodes to the bits it carries.
- `src/rcswitch.rs`: the rc-switch transmitter (code to pulse timings) and
  receiver (edge timings to code), with the proof that what a transmitter sends,
  a receiver in any state decodes.
- `src/lamp.rs`: the lamp's state, the step codes that change it, and the
  reactions to the wall switch and to network bytes, with the proofs that a
  listener applying the sent codes ends in the recorded state.
- `src/receiver.rs`: both decoders on one input, with jitter filtering.
- `src/alsa.rs`: whether a sound card status reports playing, and the pin
  indicator that follows it.
- `app/`: GPIO, interrupts, timing, the TCP server and the event loop.
