//! A relational store that answers Datalog scripts, with valid time and
//! transaction time.
use vstd::prelude::*;

pub mod aggr;
pub mod backup;
pub mod bind;
pub mod codec;
pub mod content;
pub mod db;
pub mod error;
pub mod eval;
pub mod explain;
pub mod expr;
pub mod fixed_point;
pub mod fixtures;
pub mod fold;
pub mod fts;
pub mod graph;
pub mod history_parse;
pub mod history_read;
pub mod history_run;
pub mod history_text;
pub mod instance;
pub mod law_aggregate;
pub mod law_backup;
pub mod law_columns;
pub mod law_corrupt;
pub mod law_events;
pub mod law_expr;
pub mod law_flow;
pub mod law_history;
pub mod law_least;
pub mod law_near;
pub mod law_options;
pub mod law_order;
pub mod law_pending;
pub mod law_query;
pub mod law_rank;
pub mod law_readonly;
pub mod law_reconcile;
pub mod law_report;
pub mod law_search;
pub mod law_shape;
pub mod law_single;
pub mod law_store;
pub mod law_time;
pub mod law_tokens;
pub mod law_topk;
pub mod law_types;
pub mod law_words;
pub mod law_write;
pub mod lex;
pub mod list;
pub mod listing;
pub mod lookup;
pub mod mutate;
pub mod order;
pub mod parse;
pub mod parse_query;
pub mod parse_script;
pub mod query;
pub mod route;
pub mod rules;
pub mod scan;
pub mod schema;
pub mod script;
pub mod search;
pub mod stmt;
pub mod store;
pub mod strata;
pub mod sysop;
pub mod table;
pub mod temporal;
pub mod text;
pub mod topk;
pub mod value;
pub mod vector;
pub mod write;
pub mod write_tt;

verus! {

} // verus!
