//! Reading what was printed: the laws in `laws`, and the lemmas they rest on.
//!
//! `shape` says what of a tree its printed form keeps. `lexing` to `print_statement` show
//! that what is printed is read as the tokens it stands for; `matching` to
//! `replay_statement` show that these tokens are read as the tree. `account` to
//! `account_statement` show that nothing of the source is missing in it.
pub mod account;
pub mod account_expr;
pub mod account_query;
pub mod account_statement;
pub mod hidden;
pub mod hidden_query;
pub mod hidden_statement;
pub mod laws;
pub mod leaves;
pub mod lexing;
pub mod literals;
pub mod matching;
pub mod origin;
pub mod phrases;
pub mod print_expr;
pub mod print_query;
pub mod print_statement;
pub mod replay_binary;
pub mod replay_equality;
pub mod replay_expr;
pub mod replay_list;
pub mod replay_primary;
pub mod replay_query;
pub mod replay_statement;
pub mod shape;
pub mod spelling;
