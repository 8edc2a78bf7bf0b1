//! A verified core of a Mach-O linker: the archive reader, the output
//! tables the linker synthesizes (bind streams, pointer tables, the ad-hoc
//! code signature), the diagnostics state, the decisions around opening
//! input files and leaving the forked parent, and the small integer and
//! byte helpers they share.

pub mod archive_file;
pub mod chunks;
pub mod error;
pub mod harness;
pub mod macho;
pub mod mapped_file;
pub mod subprocess;
pub mod util;
