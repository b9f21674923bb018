//! Effect, placement and linking rules of the O language tool chain.

pub mod authority;
pub mod blocks;
pub mod bundle;
pub mod capability;
pub mod codegen;
pub mod codegen_laws;
pub mod codegen_text;
pub mod collect;
pub mod compile_options;
pub mod components;
pub mod connection;
pub mod cpu;
pub mod device;
pub mod device_laws;
pub mod dispatch_laws;
pub mod dispatch_model;
pub mod doctor;
pub mod document;
pub mod document_laws;
pub mod effect_laws;
pub mod effects;
pub mod embed;
pub mod embed_laws;
pub mod environment;
pub mod escape;
pub mod file_laws;
pub mod files;
pub mod gather;
pub mod graph;
pub mod graph_laws;
pub mod hypergraph;
pub mod import_forms;
pub mod import_laws;
pub mod imports;
pub mod ir;
pub mod launch;
pub mod launch_laws;
pub mod link;
pub mod link_laws;
pub mod link_options;
pub mod lockfile;
pub mod marker_laws;
pub mod mint;
pub mod node_laws;
pub mod node_list;
pub mod option_laws;
pub mod order;
pub mod outside;
pub mod paths;
pub mod place_laws;
pub mod plan;
pub mod plan_laws;
pub mod process;
pub mod quote_laws;
pub mod quoting;
pub mod reach_laws;
pub mod receipt;
pub mod receipt_graph;
pub mod receipt_laws;
pub mod receipt_text;
pub mod resolve;
pub mod resource;
pub mod rootfs;
pub mod rules;
pub mod runtime_layout;
pub mod session;
pub mod session_args;
pub mod session_laws;
pub mod session_run;
pub mod sorting;
pub mod status_laws;
pub mod text;
pub mod text_laws;
pub mod tree_laws;
pub mod unlink;
