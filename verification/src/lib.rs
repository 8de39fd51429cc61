pub mod action;
pub mod api;
pub mod filter;
pub mod html;
pub mod http;
pub mod text;
pub mod router;
pub mod regex;
pub mod marker;
pub mod router_config;
