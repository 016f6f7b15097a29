//! Minesweeper board annotation: a grid of mines and empty cells is read from
//! bytes, and every empty cell is labelled with the number of mines around it.

pub mod buscaminas;
pub mod cadena;
pub mod error;
mod lemas;
pub mod leyes;
pub mod modelo;
