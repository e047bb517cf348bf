//! What holds of the library as a whole.
pub mod numbers;
pub mod rounding;
pub mod guards;
pub mod lines;
pub mod codes;
pub mod files;
pub mod programs;
pub mod sections;
pub mod moves;
pub mod merges;
pub mod layer_merges;
pub mod unions;
pub mod names;
pub mod tables;
pub mod texts;
pub mod anchors;
pub mod drills;
pub mod holes;
pub mod drilling;
pub mod boards;
pub mod panels;
pub mod scales;
pub mod edits;
pub mod glyphs;
pub mod boxes;
pub mod arcs;
pub mod drawings;
pub mod units;
pub mod outputs;
pub mod documents;
pub mod loading;
pub mod messages;
