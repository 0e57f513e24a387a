use pyano::model_manager::{Acquire, ModelManager, ModelStatus};

fn holders(m: &ModelManager, name: &str) -> Option<(ModelStatus, u64)> {
    m.show_model_details().into_iter().find(|e| e.name == name).map(|e| (e.status, e.holders))
}

#[test]
fn concurrent_requests_load_once() {
    let mut m = ModelManager::new();
    assert_eq!(m.get_llm("M".to_string()), Acquire::Load);
    assert_eq!(m.get_llm("M".to_string()), Acquire::Wait);
    assert_eq!(holders(&m, "M"), Some((ModelStatus::Loading, 0)));
    m.load_finished("M".to_string(), true);
    assert_eq!(holders(&m, "M"), Some((ModelStatus::Ready, 1)));
    assert_eq!(m.get_llm("M".to_string()), Acquire::Use);
    assert_eq!(holders(&m, "M"), Some((ModelStatus::Ready, 2)));
    assert_eq!(m.show_model_details().len(), 1);
}

#[test]
fn failed_load_is_evicted_and_retried() {
    let mut m = ModelManager::new();
    assert_eq!(m.get_llm("M".to_string()), Acquire::Load);
    m.load_finished("M".to_string(), false);
    assert_eq!(holders(&m, "M"), None);
    assert_eq!(m.get_llm("M".to_string()), Acquire::Load);
}

#[test]
fn names_are_independent() {
    let mut m = ModelManager::new();
    assert_eq!(m.get_llm("a".to_string()), Acquire::Load);
    assert_eq!(m.get_llm("b".to_string()), Acquire::Load);
    m.load_finished("b".to_string(), true);
    assert_eq!(m.get_llm("a".to_string()), Acquire::Wait);
    assert_eq!(m.get_llm("b".to_string()), Acquire::Use);
    assert_eq!(m.show_model_details().len(), 2);
}

#[test]
fn last_release_drops_the_model() {
    let mut m = ModelManager::new();
    m.get_llm("M".to_string());
    m.load_finished("M".to_string(), true);
    m.get_llm("M".to_string());
    m.release("M".to_string());
    assert_eq!(holders(&m, "M"), Some((ModelStatus::Ready, 1)));
    m.release("M".to_string());
    assert_eq!(holders(&m, "M"), None);
    m.release("M".to_string());
    assert!(m.show_model_details().is_empty());
}

#[test]
fn report_for_unknown_name_changes_nothing() {
    let mut m = ModelManager::new();
    m.load_finished("x".to_string(), true);
    assert!(m.show_model_details().is_empty());
}
