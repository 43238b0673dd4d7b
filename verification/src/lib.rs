//! The decision core of a multi-user proxy in front of several model backends.

pub mod admission;
pub mod backend;
pub mod catalog;
pub mod dashboard;
pub mod dispatch;
pub mod fairness;
pub mod flights;
pub mod headers;
pub mod json;
pub mod models;
pub mod names;
pub mod protocol;
pub mod ranking;
pub mod rendezvous;
pub mod replies;
pub mod request;
pub mod routing;
pub mod scheduler;
pub mod sequences;
pub mod state;
pub mod text;
