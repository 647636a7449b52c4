//! Asset naming and per-pixel layer compositing for a modular product whose
//! parts are rendered separately and merged by depth.
//!
//! The product is built from sections, each rendered on its own in every
//! variant that its modifiers allow. [`config`] holds the catalog of
//! modifiers and sections, enumerates the configurations of each half of
//! the product and names the asset that shows a section under a
//! configuration; [`names`] shows that no two assets share a name.
//! [`compositor`] merges the layers of the sections of a half into one
//! picture: [`depth`] decides which section is seen at a pixel,
//! [`identity`] turns the material hashes of the renders into small codes,
//! and [`packing`] packs four codes into three bytes. [`light`] and
//! [`mask`] hold the passes of one asset. [`turntable`], [`zrank`] and
//! [`rig`] serve the three sections that share one rotating camera rig.
//!
//! Samples of the renders are held as the bit patterns of their 32-bit
//! floats. The library moves and compares them and never computes with
//! them.

pub mod compositor;
pub mod config;
pub mod depth;
pub mod error;
pub mod identity;
pub mod light;
pub mod mask;
pub mod names;
pub mod packing;
pub mod product;
pub mod rig;
pub mod text;
pub mod turntable;
pub mod util;
pub mod zrank;
