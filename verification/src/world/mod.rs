pub mod location;
