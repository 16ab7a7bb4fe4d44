//! A compiler front end and back end for the VL language: source handling,
//! lexing, parsing, name resolution, lowering and code generation, each stage
//! with a functional contract over a mathematical model of its data.

pub mod ast;
pub mod catalog;
pub mod codegen;
pub mod diagnostic;
pub mod float;
pub mod float_laws;
pub mod grammar;
pub mod grammar_laws;
pub mod hir;
pub mod hir_laws;
pub mod hir_lowering;
pub mod interface;
pub mod lettering;
pub mod lex;
pub mod lex_laws;
pub mod linker;
pub mod linker_laws;
pub mod lir;
pub mod lir_laws;
pub mod lir_lowering;
pub mod loading;
pub mod meaning;
pub mod model;
pub mod module;
pub mod nara;
pub mod nara_laws;
pub mod nara_plan;
pub mod order;
pub mod parser;
pub mod places;
pub mod precedence;
pub mod report_laws;
pub mod resolution;
pub mod resolver;
pub mod scope;
pub mod scope_laws;
pub mod source;
pub mod span;
pub mod spelling;
pub mod stdlib;
pub mod table;
pub mod text;
pub mod token;
pub mod ty;
pub mod typed;
