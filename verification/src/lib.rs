//! Student information system: students, courses and sections, enrollment,
//! grades and rubrics, attendance, support cases, guardians and
//! communications, with an access log entry for every student-scoped
//! operation.

pub mod external;
pub mod keyed;
pub mod laws;
pub mod server;
pub mod store;
pub mod text;
pub mod types;
