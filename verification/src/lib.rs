pub mod api;
pub mod cli;
pub mod clock;
pub mod components;
pub mod duration;
pub mod egg;
pub mod info;
pub mod kurv;
pub mod plugins;
pub mod state;
pub mod stdio;
pub mod strcase;
pub mod strmap;
pub mod style;
pub mod tcp;
pub mod text;
pub mod theme;
pub mod workers;
