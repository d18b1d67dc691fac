pub mod debug;
pub mod double_buffer;
pub mod game;
pub mod graphics;
pub mod keys;
pub mod laws;
pub mod log_laws;
pub mod logger;
pub mod networking;
pub mod number;
pub mod prediction;
pub mod state;
pub mod state_laws;
pub mod time;
pub mod ui;
