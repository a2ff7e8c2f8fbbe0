//! What holds of the library as a whole: how requests and answers hang together with what is
//! written and read, and what no command ever does.

pub mod answers;
pub mod commands;
pub mod encoding;
pub mod order;
pub mod payloads;
pub mod pins;
pub mod reading;
pub mod requests;
pub mod values;
