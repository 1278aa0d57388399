pub mod coords;
pub mod dimensions_2d;
pub mod layer;
pub mod priority;
pub mod ui;
pub mod matrix;
