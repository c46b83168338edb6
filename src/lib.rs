//! Translates programs of the eight-instruction tape language into Rickroll
//! source text, in two verified stages: lowering to a command list, then
//! rendering that list with indentation and bracket checking.

pub mod compiler;
pub mod ir;
pub mod properties;
pub mod trace_comments;
