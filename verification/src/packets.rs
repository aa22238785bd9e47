pub mod enums;
pub mod utils;
pub mod fixed_header;
pub mod connect;
pub mod connack;
pub mod packet;
pub mod parse;
pub mod laws;
