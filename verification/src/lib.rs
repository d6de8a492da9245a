//! Control of a dimmable radio lamp: decoders for two 433 MHz remote-control
//! protocols, a code transmitter, the lamp's state, and the reactions to remote
//! and network commands.
pub mod code;
pub mod home_wizard;
pub mod rcswitch;
pub mod lamp;
pub mod receiver;
pub mod alsa;
