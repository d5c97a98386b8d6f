//! Path redirection sandbox: the rule engine, the planning steps of the
//! enclosure lifecycle and the decision core of the syscall tracer.

pub mod text;
pub mod numbers;
pub mod paths;
pub mod fs;
pub mod syscall;
pub mod tracer;
pub mod rule;
pub mod config;
pub mod enclosure;
pub mod report;
pub mod idmap;
pub mod scanner;
