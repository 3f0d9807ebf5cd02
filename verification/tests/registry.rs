use daebug::registry::PageState;
use daebug::registry::Registry;

#[test]
fn test_registry_create() {
    let mut registry = Registry::new(".");
    let page = registry.get_or_create("test-page", "http://localhost:8080");

    assert_eq!(page.name, "test-page");
    assert_eq!(page.url, "http://localhost:8080");
    assert_eq!(page.state, PageState::Idle);
}

#[test]
fn test_registry_update_state() {
    let mut registry = Registry::new(".");
    registry.get_or_create("test-page", "http://localhost:8080");
    registry.update_state("test-page", PageState::Executing);

    let pages = registry.list_pages();
    assert_eq!(pages.len(), 1);
    assert_eq!(pages[0].state, PageState::Executing);
}

#[test]
fn second_sight_changes_nothing() {
    let mut registry = Registry::new(".");
    let first = registry.get_or_create_at("page", "http://a", 10);
    assert_eq!(first.last_seen, 10);
    let again = registry.get_or_create_at("page", "http://b", 99);
    assert_eq!(again.url, "http://a");
    assert_eq!(again.last_seen, 10);
    assert_eq!(again.state, PageState::Idle);
    assert_eq!(registry.list_pages().len(), 1);
}

#[test]
fn update_sets_state_and_time() {
    let mut registry = Registry::new(".");
    registry.get_or_create_at("page", "http://a", 10);
    registry.get_or_create_at("other", "http://o", 11);
    registry.update_state_at("page", PageState::Failed, 20);
    let pages = registry.list_pages();
    assert_eq!(pages.len(), 2);
    assert_eq!(pages[0].name, "page");
    assert_eq!(pages[0].state, PageState::Failed);
    assert_eq!(pages[0].last_seen, 20);
    assert_eq!(pages[0].url, "http://a");
    assert_eq!(pages[1].name, "other");
    assert_eq!(pages[1].state, PageState::Idle);
    assert_eq!(pages[1].last_seen, 11);
}

#[test]
fn update_of_unknown_page_is_a_no_op() {
    let mut registry = Registry::new(".");
    registry.update_state_at("ghost", PageState::Executing, 5);
    registry.update_state("ghost", PageState::Executing);
    assert!(registry.list_pages().is_empty());
}

#[test]
fn stale_pages_are_evicted_in_order() {
    let mut registry = Registry::new(".");
    registry.get_or_create_at("a", "http://a", 10);
    registry.get_or_create_at("b", "http://b", 50);
    registry.get_or_create_at("c", "http://c", 20);
    registry.get_or_create_at("d", "http://d", 70);
    registry.evict_stale(80, 30);
    let names: Vec<String> = registry.list_pages().into_iter().map(|p| p.name).collect();
    assert_eq!(names, vec!["b", "d"]);
    registry.evict_stale(80, 30);
    assert_eq!(registry.list_pages().len(), 2);
    registry.evict_stale(100, 30);
    let names: Vec<String> = registry.list_pages().into_iter().map(|p| p.name).collect();
    assert_eq!(names, vec!["d"]);
    registry.evict_stale(5, 0);
    assert_eq!(registry.list_pages().len(), 1);
}

#[test]
fn evicted_page_is_created_anew_with_the_new_url() {
    let mut registry = Registry::new(".");
    registry.get_or_create_at("page", "http://old", 10);
    registry.evict_stale(100, 30);
    let page = registry.get_or_create_at("page", "http://new", 100);
    assert_eq!(page.url, "http://new");
    assert_eq!(page.last_seen, 100);
}

#[test]
fn upsert_registers_and_refreshes() {
    let mut registry = Registry::new(".");
    let first = registry.upsert_at("page", "http://a", 10);
    assert_eq!((first.url.as_str(), first.last_seen, first.state), ("http://a", 10, PageState::Idle));
    registry.update_state_at("page", PageState::Executing, 12);
    let again = registry.upsert_at("page", "http://b", 30);
    assert_eq!((again.url.as_str(), again.last_seen, again.state), ("http://a", 30, PageState::Executing));
    assert_eq!(registry.list_pages().len(), 1);
    let other = registry.upsert("other", "http://o");
    assert_eq!(other.name, "other");
    assert_eq!(registry.list_pages().len(), 2);
}
