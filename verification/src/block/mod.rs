pub mod block;
pub mod entity;
pub mod init;
pub mod state;
