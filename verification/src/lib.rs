//! Persistent spec store for a command-line developer-tool version manager.
//!
//! The store tracks, per application, a home directory name, the
//! subdirectories that hold executables, and the installed versions, each
//! bound to a filesystem path.  It is loaded from and rendered back to a
//! structured text document; both directions are verified against a common
//! mathematical model, together with the round-trip law that rendering a
//! store and parsing it back yields the same store.

pub mod batch;
pub mod errors;
mod load;
pub mod model;
pub mod parse;
mod plier;
pub mod render;
pub mod roundtrip;
mod store;
pub mod text;
mod yong;

pub use batch::resolve_batch_path;
pub use errors::{LookupError, ParseErrV, ParseError, PathError};
pub use model::{AppEntry, AppV, VerV, VersionEntry};
pub use plier::PlierSpec;
pub use text::{is_valid_app_name, lex_lt};
pub use yong::YongSpec;
