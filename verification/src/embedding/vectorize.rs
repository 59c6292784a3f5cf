//! Embedding model settings.
use vstd::prelude::*;

verus! {

/// Embedding model configuration.
#[derive(Debug)]
pub struct EmbeddingConfig {
    /// Model identifier (HuggingFace model ID or local path)
    pub model_id: String,
    /// Embedding dimension
    pub embedding_dim: usize,
    /// Maximum sequence length
    pub max_seq_length: usize,
    /// Use GPU if available
    pub use_gpu: bool,
    /// Batch size for inference
    pub batch_size: usize,
    /// Normalize embeddings (L2)
    pub normalize: bool,
}

impl Default for EmbeddingConfig {
    fn default() -> (r: Self)
        ensures
            r.model_id@ == "sentence-transformers/paraphrase-multilingual-MiniLM-L12-v2"@,
            r.embedding_dim == 384,
            r.max_seq_length == 512,
            r.use_gpu,
            r.batch_size == 32,
            r.normalize,
    {
        EmbeddingConfig {
            model_id: "sentence-transformers/paraphrase-multilingual-MiniLM-L12-v2".to_owned(),
            embedding_dim: 384,
            max_seq_length: 512,
            use_gpu: true,
            batch_size: 32,
            normalize: true,
        }
    }
}

} // verus!
