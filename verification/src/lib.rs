//! Show-control fabric: a server fans scenes out to the clients that
//! subscribed to them, an orchestrator and a sequencer feed it, and clients
//! of several kinds keep a session with it.
//!
//! This library is the vocabulary they share, its two encodings, and the
//! decisions of every actor. Nothing here reads a socket, a clock or a file:
//! each actor is a step from a state and an input to a state and the things
//! to do, and whoever runs it does them.
//!
//!  * `exchange_messages`, `action_messages`, `orchestration_messages`,
//!    `identity`, `payload`, `text`: the vocabulary.
//!  * `binary`, `json`: the encodings, with `reader` and `json_tokens`
//!    underneath.
//!  * `services`: the service actors and their subscriber tables.
//!  * `client_handler`: the server's handler of one client connection.
//!  * `sequencer`, `mqtt`: the two sources of scenes.
//!  * `websocket_handler`, `server_handler`: a client's side of the
//!    connection and its session.
//!  * `midi`, `midi_event`: what a client sends to an instrument.
//!  * `config`: what a server is started with.

pub mod action_messages;
pub mod binary;
pub mod client_handler;
pub mod config;
pub mod exchange_messages;
pub mod identity;
pub mod json;
pub mod json_tokens;
pub mod midi;
pub mod midi_event;
pub mod mqtt;
pub mod orchestration_messages;
pub mod payload;
pub mod reader;
pub mod sequencer;
pub mod server_handler;
pub mod services;
pub mod text;
pub mod websocket_handler;
