//! Client-side model of the VacVision instrument protocol: the symbol
//! database (SDB) codec, typed value encoding and decoding, and the framing
//! of request and response packets.

pub mod batching;
pub mod codepage;
pub mod decimal;
pub mod opc_values;
pub mod packets;
pub mod plc_connection;
pub mod sdb;
pub mod sdb_format;
pub mod sdb_model;
pub mod value_format;
pub mod wire;
