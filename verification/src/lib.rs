pub mod text;
pub mod changes;
pub mod casing;
pub mod value;
pub mod json;
pub mod refs;
pub mod graph;
pub mod stdwrap;
pub mod manifest;
pub mod names;
pub mod stack;
pub mod claims;
pub mod resolver;
pub mod tfcode;
pub mod packages;
pub mod signature;
pub mod grouping;
pub mod push;
pub mod infra;
pub mod oci;
pub mod examples;
pub mod publishing;
pub mod mapping;
pub mod blocks;
pub mod provider_mgmt;
pub mod project;
pub mod root_module;
pub mod module_root;
pub mod stack_root;
pub mod merge_laws;
pub mod textgen;
pub mod preview;
pub mod versions;
pub mod stack_laws;
pub mod laws;
pub mod stack_publish;
pub mod module_publish;
pub mod hcl_code;
pub mod binding;
pub mod module_code;
