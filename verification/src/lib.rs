//! Heartbeat: uptime monitoring, alerting and the public faces of a fleet of services.

pub mod alert_templates;
pub mod alerts;
pub mod assets;
pub mod auth;
pub mod bundles;
pub mod bundles_laws;
pub mod calendar;
pub mod calendar_laws;
pub mod catalogs;
pub mod config;
pub mod config_laws;
pub mod demo;
pub mod demo_laws;
pub mod guard_laws;
pub mod i18n;
pub mod login;
pub mod notices;
pub mod notices_laws;
pub mod outbound;
pub mod password;
pub mod registry;
pub mod registry_laws;
pub mod routes;
pub mod security;
pub mod table;
pub mod text;
pub mod text_laws;
pub mod token;
pub mod uptime;
pub mod weburl;
pub mod wording_laws;
