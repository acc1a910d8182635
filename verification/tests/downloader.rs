use sage::config::{gemma_e2b_config, gemma_e4b_config};
use sage::downloader::{check_cached_model, other_models, CachedModel};

#[test]
fn keeping_one_model_removes_the_other() {
    let others = other_models(&gemma_e2b_config());
    assert_eq!(others.len(), 1);
    assert_eq!(others[0].expected_filename, "gemma-4-E4B-it-Q4_K_M.gguf");
    let others = other_models(&gemma_e4b_config());
    assert_eq!(others.len(), 1);
    assert_eq!(others[0].expected_filename, "gemma-4-E2B-it-Q4_K_M.gguf");
}

#[test]
fn cached_model_is_judged_by_size() {
    assert_eq!(check_cached_model(Some(100), 100), CachedModel::Complete);
    assert_eq!(
        check_cached_model(Some(100), 40),
        CachedModel::Incomplete { local: 40, expected: 100 }
    );
    assert_eq!(check_cached_model(None, 40), CachedModel::Unverified);
    assert_eq!(check_cached_model(Some(0), 0), CachedModel::Complete);
}
