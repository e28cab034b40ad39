pub mod config;
pub mod util;
pub mod pos;
pub mod deck;
pub mod layout;
pub mod game;
pub mod bounds;
pub mod framebuf;
pub mod sprite;
pub mod termchar;
pub mod sprites;
pub mod id;
pub mod animation;
pub mod input;
