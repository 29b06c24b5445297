pub mod csv_dummy;
pub mod web_access;
