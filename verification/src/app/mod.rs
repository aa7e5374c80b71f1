pub mod message;
pub mod notice;
pub mod state;
pub mod update;
pub mod view;
