//! Real-time chord versus rollover detection for keyboard input, with the
//! chord libraries, settings and text-injection arguments around it.
pub mod config;
pub mod expander;
pub mod library;
pub mod stream;
pub mod text_injector;

pub use library::{ChordLibrary, LibraryMeta};
pub use stream::ChordStream;
