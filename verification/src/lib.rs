//! Front end of the `g0` language: lexical structure, layout, grammar, source
//! analysis, and the lowering of declarations to closed semantic expressions.

pub mod text;
pub mod diagnostic;
pub mod names;
pub mod number;
pub mod number_laws;
pub mod values;
pub mod ast;
pub mod keywords;
pub mod analysis;
pub mod recursive_preview;
pub mod block_previews;
pub mod name_analysis;
pub mod name_order;
pub mod lexical;
pub mod token_laws;
pub mod embedding;
pub mod term;
pub mod infix;
pub mod grouping;
pub mod input;
pub mod layout;
pub mod expression_context;
pub mod grammar;
pub mod notation;
pub mod equality;
pub mod equality_laws;
pub mod expression;
pub mod structural;
pub mod pattern;
pub mod do_expr;
pub mod conditional;
pub mod decimal;
pub mod declaration;
pub mod source;
pub mod semantics;
pub mod compiler_values;
pub mod diagnostic_formatter;
pub mod macro_io;
pub mod macro_host;
pub mod macro_effects;
pub mod macro_runner;
pub mod definitions;
pub mod objects;
pub mod object_bodies;
pub mod imports;
pub mod lowered_meaning;
pub mod body_meaning;
pub mod member_meaning;
pub mod effect_meaning;
pub mod compiler_meaning;
pub mod merge_meaning;
pub mod module_meaning;
pub mod formatter_meaning;
pub mod macro_laws;
pub mod request_laws;
pub mod module_lowering;
pub mod rewrite;
pub mod expansion;
pub mod logical;
pub mod access_inventory;
pub mod net_lowering;
pub mod net_steps;
pub mod net_reading;
pub mod net_wiring;
pub mod free_locals;
pub mod text_laws;
