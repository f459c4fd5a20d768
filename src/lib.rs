//! A virtual-DOM reconciler: `diff` compares two node trees and yields the patches that turn
//! the old one into the new one; `apply_patches` plays such patches on a live tree.

pub mod apply;
pub mod diff;
pub mod node;
pub mod patch;
pub mod string_map;

pub use apply::apply_patches;
pub use diff::diff;
pub use node::{Component, VNode};
pub use patch::{Patch, PatchError};
pub use string_map::StringMap;
