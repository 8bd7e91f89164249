pub mod action;
pub mod app;
pub mod controller;
pub mod event;
pub mod keys;
pub mod paths;
pub mod queue;
pub mod screen;
pub mod selection;
pub mod services;
pub mod system;
pub mod text;
