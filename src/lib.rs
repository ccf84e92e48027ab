pub mod action;
pub mod entity;
pub mod grid;
pub mod rng_buffer;
pub mod world;
pub mod multithreading;
pub mod tick;
pub mod world_processor;
pub mod graphics_window;
pub mod fps_counter;
pub mod lock_demo;
