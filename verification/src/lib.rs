use vstd::prelude::*;

pub mod ids;
pub mod diag;
pub mod xml;
pub mod dom;
pub mod edit;
pub mod model;
pub mod position;
pub mod utf16;
pub mod plan;
pub mod text;
pub mod chars;
pub mod parse;
pub mod locate;
pub mod emit;
pub mod track;
pub mod content;
pub mod paths;
pub mod tables;
pub mod revisions;
pub mod image;
pub mod twin;
pub mod sections;
pub mod drawing;
pub mod shapes;
pub mod watermark;
pub mod entries;
pub mod charts;
pub mod revert;
pub mod geometry;
pub mod blocks;
pub mod marks;
pub mod package;
pub mod document;
pub mod session;
pub mod diff;
pub mod laws;
pub mod ops;
