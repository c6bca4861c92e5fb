//! What is specific to each title: the first title's asset paths and the
//! second title's weapon and mech tables.
pub mod loc;
pub mod sb;
