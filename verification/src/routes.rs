//! What each endpoint decides and answers with, apart from the HTTP around it.

pub mod api;
pub mod apps;
pub mod dashboard;
pub mod embed;
pub mod laws;
pub mod metrics;
pub mod settings;
pub mod status;
pub mod uptime;
