//! Verified readers and writers for the asset formats of two Xbox titles:
//! executables (XBE), textures (XPR), audio banks (XWB / XSB), archives (BIN),
//! model configuration tables and the tiny x86 interpreter used to recover
//! tables that the game builds at run time.
pub mod bytes;
pub mod decimal;
pub mod paths;
pub mod sbtools;
pub mod bbtools;
pub mod titles;

