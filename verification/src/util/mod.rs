pub mod ioutil;
pub mod idlist;
