pub mod connection;
pub mod packet_handler;
