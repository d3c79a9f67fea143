//! Runs a main command between optional pre and post commands, driven by a
//! small `--key=value` argument parser.
pub mod substring;
pub mod argparse;
pub mod phases;
pub mod command;
pub mod log;
