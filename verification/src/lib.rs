//! Value conversions of the SQL `CAST` builtins: the rules that decide how an
//! evaluated argument becomes a value of the target column type.

pub mod call;
pub mod cast;
pub mod context;
pub mod error;
pub mod field_type;
pub mod int_text;
pub mod res;
pub mod text;
pub mod utf8_check;
pub mod utf8_scan;
