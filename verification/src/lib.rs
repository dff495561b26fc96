//! Formatting of `let` and `global` declarations into canonical source text,
//! and the completion entries that stand for built-in names.
//!
//! A declaration is lexed into tokens, parsed into a [`Declaration`], turned into a
//! tree of [`Chunk`]s and rendered against a maximum line width. Every step has a
//! mathematical model; the module `laws` proves what holds of their composition.

pub mod chunks;
pub mod completion;
pub mod declaration;
pub mod laws;
pub mod layout;
pub mod lexer;
pub mod parser;
pub mod pattern;
pub mod render;
pub mod roundtrip;
pub mod syntax;
pub mod text;

pub use chunks::{Chunk, ChunkGroup, ChunkView, Member, MemberView};
pub use completion::{
    completion_item_with_trigger_parameter_hints_command, keyword_builtin_function, name_matches,
    simple_completion_item, snippet_completion_item, AttributeTarget, BuiltInFunction,
    CompletionItem, CompletionItemKind, FunctionCompletionKind, Keyword, NodeFinder,
};
pub use declaration::{
    format_attribute, format_expression, format_pattern, format_source, format_type, ChunkFormatter,
    DeclarationFormatter, FormatError, Formatter, SourceError,
};
pub use lexer::{lex_source, LexError};
pub use parser::{parse_declaration, ParseError};
pub use pattern::{BindingKeyword, Modifier, PatternNode, PatternNormalizer, PatternView};
pub use render::GroupRenderer;
pub use syntax::{AttributeNode, Declaration, DeclarationView, ExprNode, TypeNode, Visibility};
