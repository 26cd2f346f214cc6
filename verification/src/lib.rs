//! A desktop command-centre daemon's decision logic: parsing of tool
//! output, command plans for each control request, the notification
//! history, request authorisation and the application catalogue.

pub mod apps;
pub mod auth;
pub mod commands;
pub mod config;
pub mod media;
pub mod models;
pub mod notifications;
pub mod numbers;
pub mod readings;
pub mod text;


