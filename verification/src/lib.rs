//! Conversion of fixed-layout tabular price/volume text files into
//! column-oriented tables, with the decisions of a concurrent batch run:
//! which files to convert, how to name their outputs, how to size the
//! worker pool, which leftovers to clear from the output directory, and
//! how to tally per-file outcomes without letting one failure touch
//! another file.

pub mod batch;
pub mod calendar;
pub mod cli;
pub mod digits;
pub mod parser;
pub mod pipeline;
pub mod records;
pub mod table;
pub mod text;
