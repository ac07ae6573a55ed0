//! The backend drivers: one module per build-tool family, each producing a
//! plan of external build steps for the runner to walk.

pub mod make;
pub mod meson;
pub mod pkgbuild;
