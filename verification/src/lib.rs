//! Clipboard synchronisation over a byte stream: framing, fingerprints and the
//! decisions of a polling clipboard agent.

pub mod ascii;
pub mod text;
pub mod number;
pub mod utf8;
pub mod clipboard;
pub mod header;
pub mod frame;
pub mod stream;
pub mod cli;
pub mod process;
pub mod pasteboard;
pub mod session;
pub mod view_laws;
pub mod text_laws;
pub mod number_laws;
pub mod laws;
pub mod header_laws;
pub mod reader_laws;
pub mod order_laws;
pub mod wire_laws;
pub mod fingerprint_laws;
pub mod cli_laws;
pub mod process_laws;
pub mod exchange_laws;
pub mod pasteboard_laws;
pub mod session_laws;
pub mod run_laws;
