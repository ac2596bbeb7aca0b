//! Reconstruction of financial-statement snapshots from a company-facts
//! document: fact extraction, snapshot building, latest-value selection and
//! the reconciliation of a multi-year history.

pub mod balance_sheet;
pub mod cash_flow;
pub mod clock;
pub mod common;
pub mod error;
pub mod facts;
pub mod history;
pub mod income_statement;
pub mod industry;
pub mod json;
pub mod record;
pub mod sec;
pub mod select;
pub mod statement;
pub mod statement_history;
pub mod text;
pub mod xml;
pub mod year;
