//! Decoder for DNS messages in wire format.

pub mod answer;
pub mod buf_reader;
pub mod class;
pub mod error;
pub mod header;
pub mod name;
pub mod packet;
pub mod parser;
pub mod question;
pub mod records;
pub mod rr_type;
