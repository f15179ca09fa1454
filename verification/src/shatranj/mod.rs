pub mod attacks;
pub mod board;
pub mod magic;
pub mod piece;
pub mod piecelayout;
pub mod shatranjmove;
pub mod squareset;
pub mod text;
pub mod types;
