use vstd::prelude::*;

pub mod font_types;
pub mod text;
pub mod patterns;
pub mod minimize;
pub mod style;
pub mod setting;
pub mod options;
pub mod parse_node;
pub mod tables;
pub mod str_map;
pub mod macros;
pub mod namespace;
pub mod gullet;
pub mod parser;
pub mod node_view;
pub mod parse_expr;
pub mod array_parse;
pub mod functions;
pub mod environments;
pub mod dom;
pub mod ord;
pub mod mathml;
pub mod json;
pub mod diff;
pub mod canonical;
pub mod debug_parser;
pub mod debug_spec;
pub mod cpuprofile;
pub mod cli;
pub mod tally;
pub mod profile_stats;
pub mod profile_paths;
pub mod bottom_up;
pub mod profile_diff;
pub mod minimizer;
pub mod harness;
pub mod bin_cancel;
pub mod rpc;

verus! {
}
