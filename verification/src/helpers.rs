//! What the HTTP front end and the store have in common.

pub mod rocket;
