//! Watch-fetch-convert pipeline for electronic component packages.
//!
//! The verified core: the file-set model, header parsing, the fetch-convert
//! decisions and the watcher's state machine. I/O is left to callers.

mod archive;
pub mod cse;
pub mod epw;
pub mod files;
pub mod format;
pub mod text;
pub mod watcher;

pub use cse::{CSEResult, CseError, Extractor, Response, CSE};
pub use epw::{Epw, ParseError};
pub use files::Files;
pub use format::{Ecad, Format};
pub use watcher::{next_step, EventKind, FsEvent, Phase, Step, WatchError, Watcher, WatcherEvent};
