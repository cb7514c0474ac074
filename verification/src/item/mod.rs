pub mod item_info;
pub mod item;
pub mod inventory;
pub mod init;
