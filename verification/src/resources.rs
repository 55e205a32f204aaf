//! Shell generators, one module per resource kind.  Each kind yields a
//! check script (read state), an apply script (converge) and a state
//! query script (observable state, for fingerprinting).

pub mod file;
pub mod mount;
pub mod package;
pub mod service;
