//! Talking to cellular modems over the Hayes/AT command set, with an SMS
//! PDU codec (GSM 03.40 / GSM 03.38).
pub mod at;
pub mod cmd;
pub mod codec;
pub mod engine;
pub mod error_codes;
pub mod errors;
pub mod gsm_encoding;
pub mod parse;
pub mod pdu;
mod text;
