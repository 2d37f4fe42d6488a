//! Small verified text and data utilities: string metrics, word frequency,
//! a heuristic e-mail check and the order statistics behind a median.

pub mod chars;
pub mod text;
pub mod email;
pub mod words;
pub mod stats;
