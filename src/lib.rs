//! Admission control for jobs that coordinate through a directory of
//! record files: identifier claims, the status of each record, the wait for
//! earlier jobs, and the tally shown by the monitor.

pub mod status;
pub mod record;
pub mod queue;
pub mod waiter;
pub mod monitor;
pub mod claim;
