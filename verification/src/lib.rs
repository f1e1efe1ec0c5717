//! The core of a CSV toolkit's expression language and of its aggregation
//! programs, with their contracts proved: reading CSV records, parsing and
//! building expressions, the formal arguments of functions, headers and
//! column lookup, aggregators and how a program plans them, window and merge
//! programs, and the errors all of these report.
pub mod text;
pub mod error;
pub mod arguments;
pub mod headers;
pub mod record_reader;
pub mod pipeline;
pub mod expr;
pub mod parser;
pub mod functions;
pub mod special_functions;
pub mod window;
pub mod scrape;
pub mod sequences;
pub mod aggregators;
pub mod types;
pub mod temporal;
pub mod extent;
pub mod frequencies;
pub mod agg_program;
pub mod planner;
pub mod window_buffers;
pub mod window_run;
pub mod exact_aggregators;
pub mod string_functions;
pub mod merge;
pub mod select;
pub mod stats;
pub mod column_types;
