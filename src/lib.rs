//! Raw terminal input ingestion: routing of bytes between the terminal
//! capability handshake and user input, hand-off of decoded input events
//! with the bytes that produced them, and the mouse-hold continuation
//! protocol.

pub mod options;
pub mod query;
pub mod dispatch;
pub mod decoder;
pub mod handler;
pub mod laws;
