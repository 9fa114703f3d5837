//! Verified core logic of a high-level emulator for iPhone OS apps.
use vstd::prelude::*;

pub mod accelerate;
pub mod assoc;
pub mod bundle;
pub mod commoncrypto;
pub mod dictionary;
pub mod dyld;
pub mod foundation;
pub mod glsl;
pub mod libc;
pub mod mem;
pub mod ns_regular_expression;
pub mod objc;
pub mod openal;
pub mod sqlite;
pub mod text;
pub mod uikit;
pub mod window;

verus! {

} // verus!
