pub mod console;
pub mod cursor;
pub mod decimal;
pub mod error;
pub mod event;
pub mod frame;
pub mod laws;
pub mod rw;
