//! Draws source text in a terminal as blocks colored by a syntax
//! highlighter: tabs expanded to their stops, widths measured in display
//! columns, each line cut to a column budget, colors reduced to what the
//! terminal can show.

pub mod color;
pub mod printer;
pub mod reader;
pub mod render;
pub mod tabs;
pub mod width;
