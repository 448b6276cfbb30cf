//! A grid-based data editor core: typed cells with character-driven type
//! inference, formula references that relocate with their cell, delimited-text
//! ingestion with separator auto-detection, and a fixed-point whole-grid
//! evaluator that prepares expressions and name bindings for an external
//! expression evaluator.
pub mod address;
pub mod cell_content;
pub mod cells;
pub mod commands;
pub mod csv;
pub mod decimal;
pub mod dialog;
pub mod formula;
pub mod grid;
pub mod text;
pub mod text_input;
pub mod units;

pub use address::{cell_name_to_position, cell_position_to_name, column_name_to_index,
    to_column_name};
pub use cell_content::CellContent;
pub use grid::Spreadsheet;
