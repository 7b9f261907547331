pub mod chat;
pub mod menu;
pub mod modes;
pub mod text;
