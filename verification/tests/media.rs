use hive::media::{order_predicate, scope_predicate};

#[test]
fn each_scope_has_its_own_condition() {
    assert_eq!(scope_predicate(None), "is_trashed = 0 AND is_hidden = 0 AND is_archived = 0");
    assert_eq!(scope_predicate(Some("library")), "is_trashed = 0 AND is_hidden = 0 AND is_archived = 0");
    assert_eq!(scope_predicate(Some("trash")), "is_trashed = 1");
    assert_eq!(scope_predicate(Some("hidden")), "is_trashed = 0 AND is_hidden = 1");
    assert_eq!(scope_predicate(Some("archive")), "is_trashed = 0 AND is_archived = 1");
    assert_eq!(scope_predicate(Some("all")), "is_trashed = 0");
    assert_eq!(scope_predicate(Some("bogus")), "is_trashed = 0 AND is_hidden = 0 AND is_archived = 0");
}

#[test]
fn sort_orders_come_from_a_fixed_set() {
    assert_eq!(order_predicate(Some("added"), None), "indexed_at DESC");
    assert_eq!(order_predicate(Some("name"), None), "filename COLLATE NOCASE ASC");
    assert_eq!(order_predicate(Some("size"), None), "size DESC");
    assert_eq!(order_predicate(Some("oldest"), None), "COALESCE(taken_at_override, taken_at, created_at) ASC");
    assert_eq!(order_predicate(Some("viewed"), None), "last_viewed_at DESC");
    assert_eq!(order_predicate(None, Some("trash")), "COALESCE(trashed_at, modified_at) DESC");
    assert_eq!(order_predicate(Some("; DROP"), None), "COALESCE(taken_at_override, taken_at, created_at) DESC");
}
