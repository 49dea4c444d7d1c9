//! Static effect analysis of Clarity contracts and transactions.

pub mod analysis;
pub mod analyzer;
pub mod attribution;
pub mod audit;
pub mod audit_report;
pub mod blocks;
pub mod codes;
pub mod contracts;
pub mod definitions;
pub mod deployment;
pub mod effects;
pub mod following;
pub mod format;
pub mod graph;
pub mod inspect;
pub mod options;
pub mod ordered;
pub mod output;
pub mod propagation;
pub mod replay;
pub mod reporting;
pub mod syntax;
pub mod telling;
pub mod text;
pub mod transaction;
pub mod tx_report;
pub mod type_audit;
pub mod types;
pub mod walking;
