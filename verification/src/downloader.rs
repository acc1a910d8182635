//! Deciding which model files to fetch, keep or remove.

use crate::config::{e2b_model, e4b_model, gemma_e2b_config, gemma_e4b_config, ModelConfig};
use crate::text::str_eq;
use vstd::prelude::*;

verus! {

/// The known models other than `keep`, in the order E2B, E4B: those whose
/// cache file name differs from that of `keep`.
pub open spec fn models_other_than(keep: ModelConfig) -> Seq<ModelConfig> {
    let a: Seq<ModelConfig> = if e2b_model().expected_filename@ != keep.expected_filename@ {
        seq![e2b_model()]
    } else {
        Seq::empty()
    };
    let b: Seq<ModelConfig> = if e4b_model().expected_filename@ != keep.expected_filename@ {
        seq![e4b_model()]
    } else {
        Seq::empty()
    };
    a + b
}

/// The models whose cached files are removed when `keep` is the one in use.
pub fn other_models(keep: &ModelConfig) -> (r: Vec<ModelConfig>)
    ensures
        r@ == models_other_than(*keep),
{
    let mut r: Vec<ModelConfig> = Vec::new();
    let e2b = gemma_e2b_config();
    if !str_eq(e2b.expected_filename, keep.expected_filename) {
        r.push(e2b);
    }
    let e4b = gemma_e4b_config();
    if !str_eq(e4b.expected_filename, keep.expected_filename) {
        r.push(e4b);
    }
    assert(r@ =~= models_other_than(*keep));
    r
}

/// What to do with a model file that is already cached.
#[derive(Clone, Copy, Debug, PartialEq, Eq)]
pub enum CachedModel {
    /// Its size is the size the server reports: use it.
    Complete,
    /// Its size differs from the size the server reports: fetch it again.
    Incomplete { local: u64, expected: u64 },
    /// The server's size could not be learned: use the file as it is.
    Unverified,
}

/// Judges a cached model file of `local` bytes against the size that the
/// server reports for it, if it reported one.
pub fn check_cached_model(expected: Option<u64>, local: u64) -> (r: CachedModel)
    ensures
        r == match expected {
            None => CachedModel::Unverified,
            Some(e) => if e == local {
                CachedModel::Complete
            } else {
                CachedModel::Incomplete { local, expected: e }
            },
        },
{
    match expected {
        None => CachedModel::Unverified,
        Some(e) => if e == local {
            CachedModel::Complete
        } else {
            CachedModel::Incomplete { local, expected: e }
        },
    }
}

/// Keeping one known model removes exactly the other one.
pub proof fn lemma_other_model_is_removed()
    ensures
        models_other_than(e2b_model()) == seq![e4b_model()],
        models_other_than(e4b_model()) == seq![e2b_model()],
{
    reveal_strlit("gemma-4-E2B-it-Q4_K_M.gguf");
    reveal_strlit("gemma-4-E4B-it-Q4_K_M.gguf");
    assert("gemma-4-E2B-it-Q4_K_M.gguf"@[9] != "gemma-4-E4B-it-Q4_K_M.gguf"@[9]);
    assert(models_other_than(e2b_model()) =~= seq![e4b_model()]);
    assert(models_other_than(e4b_model()) =~= seq![e2b_model()]);
}

} // verus!
