pub mod app;
pub mod cli;
pub mod context;
pub mod page;
pub mod render;
pub mod state;
pub mod text;
pub mod views;
pub mod web;
