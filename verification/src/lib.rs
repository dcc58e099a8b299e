pub mod assemble;
pub mod bun;
pub mod catalog;
pub mod clear_text;
pub mod collect;
pub mod command;
pub mod composite;
pub mod config;
pub mod coverage;
pub mod directives;
pub mod estree;
pub mod execution;
pub mod header;
pub mod html;
pub mod imports;
pub mod incremental;
pub mod instrument;
pub mod junit;
pub mod line_index;
pub mod marks;
pub mod model;
pub mod mutate_pattern;
pub mod mutators;
pub mod paths;
pub mod planner;
pub mod process;
pub mod project;
pub mod regex_mutations;
pub mod report;
pub mod reuse;
pub mod run;
pub mod runners;
pub mod sandbox;
pub mod schema;
pub mod sort;
pub mod source;
pub mod text;
pub mod text_map;
pub mod text_order;
pub mod visits;
pub mod vitest;
pub mod walk;
