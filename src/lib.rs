//! Release bumping for software projects: semantic versions, and the
//! rewriting of the version declarations of several project file formats,
//! each change leaving everything else in the file as it was.

pub mod cli_options;
pub mod delphi;
pub mod files;
pub mod rust;
pub mod sem_ver;
pub mod tags;
pub mod text;
pub mod vb6;
pub mod writers;
pub mod xml_util;

pub use crate::files::{ContentProcessor, UpdateError};
pub use crate::sem_ver::{SemVer, SemVerComponent, SemVerComponentSet, SemVerParseError};
pub use crate::writers::{FileWriter, CompositeWriter};
