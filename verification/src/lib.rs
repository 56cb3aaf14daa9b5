pub mod namespace;
pub mod text;
pub mod utils;
pub mod path_laws;
pub mod parser;
pub mod events;
pub mod command_events;
pub mod variable;
pub mod store_laws;
pub mod subscriptions;
pub mod views;
pub mod view_laws;
pub mod view_list;
pub mod fresh;
pub mod view_manager;
pub mod bulk;
pub mod http_types;
pub mod client;
pub mod schema;
pub mod commands;
pub mod auth;
pub mod passwords;
pub mod patoken;
pub mod sessions;
pub mod tokens;
pub mod web;
pub mod service;
