use container_logs::filter::NameFilter;
use container_logs::source::accepted_name;
use container_logs::watch::WatchList;

#[test]
fn new_list_watches_nothing() {
    let list = WatchList::new();
    assert!(!list.contains("a"));
    assert_eq!(list.next_color(), 0);
}

#[test]
fn claims_hand_out_rising_color_indices() {
    let mut list = WatchList::new();
    assert_eq!(list.claim("a"), Some(0));
    assert_eq!(list.claim("b"), Some(1));
    assert_eq!(list.claim("c"), Some(2));
    assert_eq!(list.next_color(), 3);
    assert!(list.contains("a") && list.contains("b") && list.contains("c"));
}

#[test]
fn a_watched_id_is_not_claimed_again() {
    let mut list = WatchList::new();
    assert_eq!(list.claim("a"), Some(0));
    assert_eq!(list.claim("a"), None);
    assert_eq!(list.next_color(), 1);
    assert!(list.contains("a"));
}

#[test]
fn released_ids_can_come_back_with_a_new_color() {
    let mut list = WatchList::new();
    assert_eq!(list.claim("a"), Some(0));
    assert_eq!(list.claim("b"), Some(1));
    list.release("a");
    assert!(!list.contains("a"));
    assert!(list.contains("b"));
    list.release("nobody");
    assert!(list.contains("b"));
    assert_eq!(list.claim("a"), Some(2));
    assert_eq!(list.next_color(), 3);
}

#[test]
fn filtered_out_containers_leave_the_watch_list() {
    let filter = NameFilter::new(regex::Regex::new("^app-").unwrap());
    let mut list = WatchList::new();
    let mut attached = Vec::new();
    for (id, raw) in [("1", "/app-api"), ("2", "/app-db"), ("3", "/cache")] {
        assert!(list.claim(id).is_some());
        match accepted_name(Some(raw), &filter) {
            Some(name) => attached.push(name),
            None => list.release(id),
        }
    }
    assert_eq!(attached, vec!["app-api".to_string(), "app-db".to_string()]);
    assert!(list.contains("1"));
    assert!(list.contains("2"));
    assert!(!list.contains("3"));
}
