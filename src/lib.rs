/// Colour and underline sequences for terminal text.
pub mod text_decoration;
/// Tests, their results, and the accumulator that builds a test.
pub mod model;
/// Recognising protocol lines: titles, results, plans and free text.
pub mod classify;
/// The formatter contract and its silent, progress and report strategies.
pub mod formatters;
/// The stream parser and what holds of the state it builds.
pub mod parser;
