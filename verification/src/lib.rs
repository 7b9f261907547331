pub mod chars;
pub mod commands;
pub mod engine;
pub mod frame;
pub mod gameplay;
pub mod geometry;
pub mod gpu_data;
pub mod input;
pub mod keyed;
pub mod models;
pub mod saves;
pub mod ui;
pub mod world;
