//! Client library for the public course catalogue (VVZ) of Ruhr-Universitaet Bochum.
pub mod text;
pub mod markup;
pub mod html;
pub mod url;
pub mod map;
pub mod models;
pub mod parsing;
pub mod client;
pub mod render;
pub mod cli;
