pub mod auth;
pub mod errors;
pub mod handlers;
pub mod keyed;
pub mod model;
pub mod service;
