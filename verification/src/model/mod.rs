pub mod file_entry;
pub mod scan_node;
pub mod extension_summary;
