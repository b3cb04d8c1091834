//! A break-reminder scheduler core: a countdown toward a configured break
//! interval, a registry of "can we break now" advisors polled before a break
//! may start, and the state machine that ties the two together.
pub mod scheduler;
pub mod ui;
