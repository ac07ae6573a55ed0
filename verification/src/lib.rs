//! A package-install core: recipe parsing, template expansion, dependency
//! extraction and resolution planning, build-backend selection, and the
//! sequencing of external build steps.
//!
//! Everything here is pure logic over byte strings and plain values; the
//! surrounding binary performs the actual file, network and process work and
//! feeds the results back in.

pub mod backend;
pub mod bytes;
pub mod compilers;
pub mod deps;
pub mod expand;
pub mod order;
pub mod paths;
pub mod recipe;
pub mod remote;
pub mod resolve;
pub mod step;
