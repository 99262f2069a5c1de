use vstd::prelude::*;

pub mod api;
pub mod blocks;
pub mod collection_parser;
pub mod dict;
pub mod laws;
pub mod lexer;
pub mod parser;
pub mod token;
pub mod transition_table;

pub use api::Collection;
pub use api::CollectionView;
pub use api::HttpBody;
pub use api::HttpMethod;
pub use api::Request;
pub use api::RequestView;
pub use blocks::Block;
pub use blocks::BlockField;
pub use blocks::BlockFieldView;
pub use blocks::BlockView;
pub use blocks::collect_blocks;
pub use collection_parser::CollectionParser;
pub use collection_parser::ParseError;
pub use collection_parser::ParseErrorView;
pub use dict::Dict;
pub use lexer::Lexer;
pub use parser::collect_tokens;
pub use parser::parse;
pub use token::Token;
pub use token::TokenView;
pub use transition_table::Input;
pub use transition_table::State;
pub use transition_table::TransitionTable;
pub use transition_table::build_transition_table;
pub use transition_table::char_to_input;
pub use transition_table::is_transitional_state;
