//! The logic of a bridge that streams PCM audio from a PC into CamillaDSP on a
//! Raspberry Pi.
//!
//! Everything that waits for the outside world (sound devices, sockets, other
//! programs, the user) is written as steps: a function takes what happened and
//! says what to do next.
pub mod activity;
pub mod alsa_out;
pub mod audio_in;
pub mod camilla_ws;
pub mod decimal;
pub mod discovery;
pub mod doctor;
pub mod guard;
pub mod init;
pub mod json;
pub mod listing;
pub mod net_in;
pub mod net_out;
mod observe;
pub mod plain;
pub mod proto;
pub mod queue;
pub mod samples;
pub mod sender;
pub mod session;
pub mod status;
pub mod text;
pub mod virtual_sink;
pub mod volume_sync;
