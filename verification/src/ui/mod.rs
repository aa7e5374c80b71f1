pub mod format;
pub mod treemap;
