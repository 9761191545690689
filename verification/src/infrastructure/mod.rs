//! Reading transaction records.
pub mod csv_reader;
