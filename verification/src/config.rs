//! Configuration of the store and of the server shell around it.

use vstd::prelude::*;
use crate::contexts::{ContextType, CtxView, ctx_views, canonical_contexts, canonical_context_views};

verus! {

/// Settings of the server shell.
#[derive(Debug)]
pub struct ServerConfig {
    pub host: String,
    pub port: u16,
    pub storage_path: String,
    pub enable_cors: bool,
    pub log_level: String,
    pub fractal_levels: Vec<u32>,
}

/// The mathematical value of a server configuration.
#[verifier::ext_equal]
pub struct ServerConfigView {
    pub host: Seq<char>,
    pub port: u16,
    pub storage_path: Seq<char>,
    pub enable_cors: bool,
    pub log_level: Seq<char>,
    pub fractal_levels: Seq<u32>,
}

impl View for ServerConfig {
    type V = ServerConfigView;

    open spec fn view(&self) -> ServerConfigView {
        ServerConfigView {
            host: self.host@,
            port: self.port,
            storage_path: self.storage_path@,
            enable_cors: self.enable_cors,
            log_level: self.log_level@,
            fractal_levels: self.fractal_levels@,
        }
    }
}

impl Default for ServerConfig {
    /// The stock configuration of the server shell.
    fn default() -> (r: Self)
        ensures
            r@.host == "0.0.0.0"@,
            r@.port == 8789,
            r@.storage_path == "./rust-fractal-storage"@,
            r@.enable_cors,
            r@.log_level == "info"@,
            r@.fractal_levels == seq![1u32, 2u32],
    {
        let mut levels: Vec<u32> = Vec::new();
        levels.push(1);
        levels.push(2);
        proof {
            assert(levels@ =~= seq![1u32, 2u32]);
        }
        ServerConfig {
            host: "0.0.0.0".to_owned(),
            port: 8789,
            storage_path: "./rust-fractal-storage".to_owned(),
            enable_cors: true,
            log_level: "info".to_owned(),
            fractal_levels: levels,
        }
    }
}

/// Settings of the store.
#[derive(Debug)]
pub struct StorageConfig {
    pub base_path: String,
    pub max_nodes: usize,
    pub max_contributions: usize,
    pub enable_persistence: bool,
    pub fractal_levels: Vec<u32>,
    pub supported_contexts: Vec<ContextType>,
    pub resonance_threshold: u32,
}

/// The mathematical value of a store configuration.
#[verifier::ext_equal]
pub struct StorageConfigView {
    pub base_path: Seq<char>,
    pub max_nodes: usize,
    pub max_contributions: usize,
    pub enable_persistence: bool,
    pub fractal_levels: Seq<u32>,
    pub supported_contexts: Seq<CtxView>,
    pub resonance_threshold: u32,
}

impl View for StorageConfig {
    type V = StorageConfigView;

    open spec fn view(&self) -> StorageConfigView {
        StorageConfigView {
            base_path: self.base_path@,
            max_nodes: self.max_nodes,
            max_contributions: self.max_contributions,
            enable_persistence: self.enable_persistence,
            fractal_levels: self.fractal_levels@,
            supported_contexts: ctx_views(self.supported_contexts@),
            resonance_threshold: self.resonance_threshold,
        }
    }
}

impl Default for StorageConfig {
    /// The stock configuration of the store: the full taxonomy is
    /// supported, and the resonance threshold sits at one half (in
    /// thousandths).
    fn default() -> (r: Self)
        ensures
            r@.base_path == "./rust-fractal-storage"@,
            r@.max_nodes == 1000,
            r@.max_contributions == 10000,
            r@.enable_persistence,
            r@.fractal_levels == seq![1u32, 2u32],
            r@.supported_contexts == canonical_context_views(),
            r@.resonance_threshold == 500,
    {
        let mut levels: Vec<u32> = Vec::new();
        levels.push(1);
        levels.push(2);
        proof {
            assert(levels@ =~= seq![1u32, 2u32]);
        }
        StorageConfig {
            base_path: "./rust-fractal-storage".to_owned(),
            max_nodes: 1000,
            max_contributions: 10000,
            enable_persistence: true,
            fractal_levels: levels,
            supported_contexts: canonical_contexts(),
            resonance_threshold: 500,
        }
    }
}

} // verus!
