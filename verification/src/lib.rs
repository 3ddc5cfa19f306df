//! Verified core of the Excel register processor: the grammar that finds a
//! personal account number and a person's name in a cell, and the rules that
//! decide what is written back into each sheet.

pub mod text;
pub mod fio;
pub mod parse;
pub mod stamp;
pub mod status;
pub mod sheet;
pub mod excel;
