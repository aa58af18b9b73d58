//! Verified helpers for the Windows shim trampoline: command-line scanning,
//! file-stem extraction and decimal formatting over UTF-16 code units and
//! bytes, plus the decisions the launcher makes around its system calls.

pub mod cmdline;
pub mod launch;
