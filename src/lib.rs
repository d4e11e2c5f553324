pub mod display;
pub mod grid;
pub mod lookup;
pub mod merge;
pub mod proximity;
pub mod rank;
pub mod records;
pub mod resolve;
pub mod row;
pub mod text;
pub mod time;
