use vstd::prelude::*;

pub mod debug;
pub mod fs;
pub mod ipc;
pub mod manage;
pub mod mem;
pub mod portal;
pub mod serial;
pub mod tar;
pub mod util;
