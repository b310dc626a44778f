//! Nest: a declarative task runner. This crate holds the verified core:
//! the Nestfile parser, the template engine, argument validation,
//! directive resolution and the command-execution planner.

pub mod text;
pub mod ast;
pub mod constants;
pub mod merge;
pub mod includes;
pub mod parser;
pub mod type_validator;
pub mod directives;
pub mod env;
pub mod executor;
pub mod template;
pub mod codegen;
pub mod completion;
pub mod runtime;
pub mod cli;
pub mod runtime_validator;
pub mod runner;
pub mod scripts;
pub mod cli_args;
pub mod logging;
pub mod watcher;
pub mod browser;
pub mod help;
pub mod display;
pub mod report;
pub mod input;
pub mod flags;
pub mod session;
pub mod panes;
pub mod sources;
pub mod json;
