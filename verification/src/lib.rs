//! A tile-maze raycasting engine: maze grids, textures, a framebuffer with a
//! depth buffer, and the wall and sprite raster passes that draw into them.

pub mod color;
pub mod framebuffer;
pub mod texture;
pub mod textures;
pub mod renderer3d;
pub mod sprites;
pub mod reach;
pub mod maze;
pub mod carve;
pub mod parse;
pub mod caster;
pub mod minimap;
pub mod game;
pub mod level;
