//! An interpreter and a C emitter for a small tape language: `+ - < > [ ] , . & ?`.
//!
//! Source text is scanned into tokens, tokens are built into an instruction
//! tree whose loops own their bodies, and the tree is either stepped against a
//! growable byte tape or lowered to C source text.

pub mod structs;
mod text;
pub mod parser;
pub mod tokenizer;
pub mod executor;
pub mod compiler;

pub use structs::{
    AstNode, BFError, BFErrorCode, Tape, Token, cell_text, cells_text, grown, hex_digit, is_graphic,
    left_n, left_of, lemma_left_from_origin, lemma_right_from_fresh, right_n, tape_text, wrap_dec,
    wrap_inc,
};
pub use parser::{
    balanced, depth, flatten, leaf_count, leaf_token, lemma_flat_tree_size, lemma_tree_counts, loop_count,
    never_negative, non_bracket_count, open_count, parse,
};
pub use tokenizer::{char_token, in_comment, lemma_comment_skipped, lemma_scan_len, scan, tokenize};
pub use executor::{
    Action, KeyCode, KeyStroke, Machine, advance, body_at, char_byte, decimal, digit, exit_message,
    key_effect, next, node_at, valid_path,
};
pub use compiler::{c_of, c_program, compile_ast_c};
