pub mod app;
pub mod battery;
pub mod collector;
pub mod device;
pub mod explorer;
pub mod gather;
pub mod input;
pub mod panels;
pub mod settings;
pub mod text;
pub mod utils;
