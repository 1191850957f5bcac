//! Memory scanning, process inspection and IL2CPP dump analysis for TaskbarHero.
pub mod text;
pub mod int_parse;
pub mod il2cpp;
pub mod native_scan;
pub mod process;
