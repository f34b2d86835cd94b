//! The operations engine: archive, delete and restore, planned here and
//! carried out by the caller.

pub mod archive;
pub mod delete;
pub mod error;
pub mod laws;
pub mod naming;
pub mod space;
pub mod undo;

pub use archive::{ArchiveConfig, ArchiveManager, ArchiveResult};
pub use delete::{DeleteCandidate, DeleteConfig, DeleteManager, DeleteResult};
pub use error::{ErrorMessage, OpsError, OpsResult};
pub use space::SpaceManager;
pub use undo::{BatchInfo, UndoManager, UndoResult};
