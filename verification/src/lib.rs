//! Semantic transitions of TypeScript and JavaScript programs: what a change to
//! the code means for the program's behaviour.

pub mod additions;
pub mod aliases;
pub mod analysis;
pub mod annotations;
pub mod behaviour;
pub mod blocks;
pub mod callers;
pub mod catalog;
pub mod citation;
pub mod claims;
pub mod clauses;
pub mod conditions;
pub mod context;
pub mod contract;
pub mod contrast;
pub mod demands;
pub mod design;
pub mod digest;
pub mod entities;
pub mod entity;
pub mod envs;
pub mod evidence;
pub mod extract;
pub mod finding;
pub mod front;
pub mod gains;
pub mod holdings;
pub mod hook;
pub mod infer;
pub mod ir;
pub mod layering;
pub mod list;
pub mod lower;
pub mod machines;
pub mod markup;
pub mod matching;
pub mod mcp;
pub mod meaning;
pub mod mining;
pub mod model;
pub mod nesting;
pub mod ops;
pub mod ordered;
pub mod pairing;
pub mod paths;
pub mod patterns;
pub mod phrases;
pub mod pipeline;
pub mod pred;
pub mod predicates;
pub mod query;
pub mod reading;
pub mod reflection;
pub mod relocation;
pub mod render;
pub mod rendering;
pub mod resolve;
pub mod rules;
pub mod schema;
pub mod settling;
pub mod shapes;
pub mod shifting;
pub mod showing;
pub mod source;
pub mod span;
pub mod speech;
pub mod spellings;
pub mod spreading;
pub mod states;
pub mod stillness;
pub mod structure;
pub mod summary;
pub mod syntax;
pub mod telling;
pub mod text;
pub mod transition;
pub mod tree;
pub mod typing;
pub mod words;
