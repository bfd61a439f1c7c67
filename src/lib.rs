//! Process lifecycle supervision: process-tree enumeration and bottom-up
//! termination, an execution registry with cancellation, and the decisions of
//! a supervised command run (race settlement, escalation, error reporting).

pub mod proc_children;
pub mod registry;
pub mod supervisor;
pub mod system_info;
pub mod terminate;
pub mod text;
pub mod tree;
