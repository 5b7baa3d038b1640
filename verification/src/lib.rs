pub mod chat;
pub mod client;
pub mod frame;
pub mod game;
pub mod objects;
pub mod random;
pub mod server;
pub mod terrain;
pub mod utils;
