use vstd::prelude::*;

pub mod text;
pub mod lql;
pub mod remote;
pub mod gguf;
pub mod gguf_write;
pub mod numfmt;
pub mod safetensors;
pub mod policy;
pub mod server;
pub mod batch_dla;
pub mod terminal;
pub mod statement;
pub mod token_summary;
pub mod experiment;
pub mod workspace;
pub mod token_parity;
pub mod remote_text;
pub mod introspection;
pub mod remote_describe;
pub mod server_select;
pub mod remote_walk;
pub mod remote_select;
pub mod remote_listings;
pub mod scan_form;
pub mod gguf_inventory;
pub mod remote_explain;
pub mod relations;
pub mod workbench_forms;

verus! {

} // verus!
