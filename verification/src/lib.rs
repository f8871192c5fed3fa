//! Smart contract pattern finding: the verified core of a scanner that looks
//! for vulnerability patterns in Solidity sources.
pub mod text;
pub mod regex_validator;
pub mod types;
pub mod dependency_analyzer;
pub mod state_analysis;
pub mod chunking;
pub mod contract_type;
pub mod pattern_match;
pub mod invariant_gen;
pub mod server;
pub mod api_keys;
pub mod source_index;
pub mod scan_rules;
pub mod scanner;
pub mod dataflow;
pub mod runtime_env;
pub mod filters;
pub mod error_helper;
pub mod pattern_builder;
pub mod cli_args;
pub mod accuracy;
pub mod composition;
pub mod risk_scoring;
pub mod taint;
pub mod poc_stager;
pub mod risk_scorer;
pub mod limits;
pub mod template;
pub mod cache;
pub mod pattern_validator;
pub mod honeypot_filter;
pub mod ignore;
pub mod fetcher;
pub mod scan_pipeline;
pub mod sarif;
pub mod ast_check;
pub mod semantic;
pub mod syntax_tree;
pub mod control_flow;
pub mod summary;
pub mod symbols;
