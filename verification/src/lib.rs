//! Logic of a terminal snake game in which every eaten apple asks a
//! multiple-choice question: the board and its cells, the snake's moves,
//! word wrapping and screen layout of the questions, and the checks on a
//! question set.
pub mod game;
pub mod grid;
pub mod quiz;
pub mod screen;
pub mod text;
mod random;

pub use grid::screen_position;
pub use text::wrap_text;
