pub mod address;
pub mod arena;
pub mod arena_laws;
pub mod artifact;
pub mod decimal;
pub mod index;
pub mod keys;
pub mod link_laws;
pub mod link_model;
pub mod link_tree;
pub mod linker;
pub mod nonce;
pub mod present;
pub mod run;
pub mod target;
pub mod template;
pub mod utils;
