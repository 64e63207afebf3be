use bookmarks::error::Error;
use bookmarks::model::{Bookmark, BookmarkUser, BookmarkWithUser, TagOperation};
use bookmarks::store::{
    get_by_tag, get_by_url, get_by_user, get_tag_count_by_user, get_with_user_data, save,
    update_tags, upsert_user_bookmark, BookmarkStore, BOOKMARK_PKEY, BOOKMARK_URL_KEY,
    BOOKMARK_USER_UNIQUE, DUPLICATE_KEY, UNEXPECTED_ROW_COUNT,
};

const ALICE: u128 = 0x1111_1111_1111_1111_1111_1111_1111_1111;
const BOB: u128 = 0x2222_2222_2222_2222_2222_2222_2222_2222;

fn texts(items: &[&str]) -> Vec<String> {
    items.iter().map(|s| s.to_string()).collect()
}

fn page(id: &str, url: &str) -> Bookmark {
    Bookmark {
        bookmark_id: id.to_string(),
        url: url.to_string(),
        domain: "example.com".to_string(),
        title: format!("title of {id}"),
        text_content: format!("text of {id}"),
        created_at: 0,
    }
}

fn store_with_pages(ids: &[&str]) -> BookmarkStore {
    let mut store = BookmarkStore::new();
    for (n, id) in ids.iter().enumerate() {
        let url = format!("https://example.com/{id}");
        assert!(save(&mut store, &page(id, &url), 10 + n as i64).is_ok());
    }
    store
}

fn ids(rows: &[BookmarkWithUser]) -> Vec<String> {
    rows.iter().map(|r| r.bookmark_id.clone()).collect()
}

fn sorted(mut counts: Vec<(String, i64)>) -> Vec<(String, i64)> {
    counts.sort();
    counts
}

#[test]
fn new_store_is_empty() {
    let store = BookmarkStore::new();
    assert!(store.bookmarks().is_empty());
    assert!(store.associations().is_empty());
    assert!(get_by_user(&store, ALICE).is_empty());
    assert!(get_by_url(&store, "https://example.com/a").is_none());
    assert_eq!(get_tag_count_by_user(&store, ALICE).unwrap(), vec![]);
}

#[test]
fn save_stamps_creation_time_and_keeps_fields() {
    let mut store = BookmarkStore::new();
    let mut b = page("b1", "https://example.com/a");
    b.created_at = 999;
    assert!(save(&mut store, &b, 42).is_ok());
    let found = get_by_url(&store, "https://example.com/a").unwrap();
    assert_eq!(found.bookmark_id, "b1");
    assert_eq!(found.url, "https://example.com/a");
    assert_eq!(found.domain, "example.com");
    assert_eq!(found.title, "title of b1");
    assert_eq!(found.text_content, "text of b1");
    assert_eq!(found.created_at, 42);
    assert_eq!(store.bookmarks().len(), 1);
}

#[test]
fn save_refuses_a_taken_url() {
    let mut store = BookmarkStore::new();
    assert!(save(&mut store, &page("b1", "https://example.com/a"), 1).is_ok());
    let err = save(&mut store, &page("b2", "https://example.com/a"), 2).unwrap_err();
    match err {
        Error::ConstraintViolation { constraint, message } => {
            assert_eq!(constraint, BOOKMARK_URL_KEY);
            assert_eq!(constraint, "bookmark_url_key");
            assert_eq!(message, DUPLICATE_KEY);
        }
        other => panic!("unexpected error {other:?}"),
    }
    assert_eq!(store.bookmarks().len(), 1);
    assert_eq!(get_by_url(&store, "https://example.com/a").unwrap().bookmark_id, "b1");
}

#[test]
fn save_refuses_a_taken_identifier_first() {
    let mut store = BookmarkStore::new();
    assert!(save(&mut store, &page("b1", "https://example.com/a"), 1).is_ok());
    let err = save(&mut store, &page("b1", "https://example.com/a"), 2).unwrap_err();
    match err {
        Error::ConstraintViolation { constraint, message } => {
            assert_eq!(constraint, BOOKMARK_PKEY);
            assert_eq!(constraint, "bookmark_pkey");
            assert_eq!(message, "duplicate key value violates unique constraint");
        }
        other => panic!("unexpected error {other:?}"),
    }
    let err = save(&mut store, &page("b1", "https://example.com/other"), 3).unwrap_err();
    assert!(matches!(err, Error::ConstraintViolation { .. }));
    assert_eq!(store.bookmarks().len(), 1);
}

#[test]
fn get_by_url_misses_without_error() {
    let store = store_with_pages(&["a"]);
    assert!(get_by_url(&store, "https://example.com/b").is_none());
    assert!(get_by_url(&store, "https://example.com/A").is_none());
    assert!(get_by_url(&store, "").is_none());
}

#[test]
fn upsert_creates_then_replaces() {
    let mut store = store_with_pages(&["a"]);
    let first = upsert_user_bookmark(&mut store, "a", ALICE, &texts(&["x", "y"]), 100, 50);
    assert_eq!(first, 100);
    let second = upsert_user_bookmark(&mut store, "a", ALICE, &texts(&["z"]), 200, 60);
    assert_eq!(second, 100);
    let rows = store.associations();
    assert_eq!(rows.len(), 1);
    assert_eq!(rows[0].bookmark_user_id, 100);
    assert_eq!(rows[0].bookmark_id, "a");
    assert_eq!(rows[0].user_id, ALICE);
    assert_eq!(rows[0].tags, texts(&["z"]));
    assert_eq!(rows[0].created_at, 50);
    assert_eq!(rows[0].updated_at, 60);
}

#[test]
fn association_is_found_by_its_pair() {
    let mut store = store_with_pages(&["a"]);
    upsert_user_bookmark(&mut store, "a", ALICE, &texts(&["x"]), 1, 50);
    let found = store.association("a", ALICE).unwrap();
    assert_eq!(found, store.associations()[0]);
    assert_eq!((found.bookmark_user_id, found.tags.clone()), (1, texts(&["x"])));
    assert!(store.association("a", BOB).is_none());
    assert!(store.association("b", ALICE).is_none());
}

#[test]
fn upsert_keeps_users_apart() {
    let mut store = store_with_pages(&["a"]);
    upsert_user_bookmark(&mut store, "a", ALICE, &texts(&["x"]), 1, 50);
    upsert_user_bookmark(&mut store, "a", BOB, &texts(&["y"]), 2, 51);
    upsert_user_bookmark(&mut store, "a", ALICE, &texts(&["z"]), 3, 52);
    assert_eq!(store.associations().len(), 2);
    assert_eq!(get_with_user_data(&store, ALICE, "a").unwrap().tags, Some(texts(&["z"])));
    assert_eq!(get_with_user_data(&store, BOB, "a").unwrap().tags, Some(texts(&["y"])));
    assert_eq!(store.bookmarks().len(), 1);
}

#[test]
fn upsert_works_without_a_bookmark_row() {
    let mut store = BookmarkStore::new();
    let id = upsert_user_bookmark(&mut store, "ghost", ALICE, &texts(&["x"]), 9, 5);
    assert_eq!(id, 9);
    assert_eq!(store.associations().len(), 1);
    assert!(get_with_user_data(&store, ALICE, "ghost").is_none());
    assert!(get_by_user(&store, ALICE).is_empty());
}

#[test]
fn append_is_concatenation() {
    let mut store = store_with_pages(&["a"]);
    upsert_user_bookmark(&mut store, "a", ALICE, &texts(&["a", "b"]), 1, 50);
    let op = TagOperation::Append(texts(&["b", "c"]));
    let row = update_tags(&mut store, ALICE, "a", &op, 70).unwrap();
    assert_eq!(row.tags, Some(texts(&["a", "b", "b", "c"])));
    assert_eq!(row.user_created_at, Some(50));
    assert_eq!(row.user_updated_at, Some(70));
    assert_eq!(row.user_id, Some(ALICE));
    assert_eq!(store.associations()[0].tags, texts(&["a", "b", "b", "c"]));
}

#[test]
fn set_is_replacement() {
    let mut store = store_with_pages(&["a"]);
    upsert_user_bookmark(&mut store, "a", ALICE, &texts(&["a", "b"]), 1, 50);
    let op = TagOperation::Replace(texts(&["c"]));
    let row = update_tags(&mut store, ALICE, "a", &op, 70).unwrap();
    assert_eq!(row.tags, Some(texts(&["c"])));
    assert_eq!(row.bookmark_id, "a");
    assert_eq!(row.url, "https://example.com/a");
    assert_eq!(row.title, "title of a");
    assert_eq!(row.created_at, 10);
    assert_eq!(store.associations()[0].tags, texts(&["c"]));
    assert_eq!(store.associations()[0].updated_at, 70);
    assert_eq!(store.associations()[0].created_at, 50);
}

#[test]
fn tag_operation_apply_on_lists() {
    let existing = texts(&["a", "b"]);
    assert_eq!(TagOperation::Append(texts(&["b", "c"])).apply(&existing), texts(&["a", "b", "b", "c"]));
    assert_eq!(TagOperation::Replace(texts(&["c"])).apply(&existing), texts(&["c"]));
    assert_eq!(TagOperation::Append(vec![]).apply(&existing), existing);
    assert_eq!(TagOperation::Replace(vec![]).apply(&existing), Vec::<String>::new());
}

#[test]
fn update_tags_fails_without_association() {
    let mut store = store_with_pages(&["a"]);
    upsert_user_bookmark(&mut store, "a", BOB, &texts(&["x"]), 1, 50);
    let op = TagOperation::Append(texts(&["y"]));
    let err = update_tags(&mut store, ALICE, "a", &op, 70).unwrap_err();
    match err {
        Error::DatabaseError(detail) => {
            assert_eq!(detail, UNEXPECTED_ROW_COUNT);
            assert_eq!(detail, "query returned an unexpected number of rows");
        }
        other => panic!("unexpected error {other:?}"),
    }
    let rows = store.associations();
    assert_eq!(rows.len(), 1);
    assert_eq!(rows[0].tags, texts(&["x"]));
    assert_eq!(rows[0].updated_at, 50);
}

#[test]
fn update_tags_fails_without_bookmark_and_changes_nothing() {
    let mut store = BookmarkStore::new();
    upsert_user_bookmark(&mut store, "ghost", ALICE, &texts(&["x"]), 1, 50);
    let op = TagOperation::Replace(texts(&["y"]));
    assert!(matches!(update_tags(&mut store, ALICE, "ghost", &op, 70), Err(Error::DatabaseError(_))));
    assert_eq!(store.associations()[0].tags, texts(&["x"]));
    assert_eq!(store.associations()[0].updated_at, 50);
}

#[test]
fn get_with_user_data_is_empty_without_association() {
    let mut store = store_with_pages(&["a", "b"]);
    upsert_user_bookmark(&mut store, "a", ALICE, &texts(&["x"]), 1, 50);
    assert!(get_with_user_data(&store, ALICE, "b").is_none());
    assert!(get_with_user_data(&store, BOB, "a").is_none());
    assert!(get_with_user_data(&store, ALICE, "missing").is_none());
    let row = get_with_user_data(&store, ALICE, "a").unwrap();
    assert_eq!(row.bookmark_id, "a");
    assert_eq!(row.user_id, Some(ALICE));
    assert_eq!(row.tags, Some(texts(&["x"])));
}

#[test]
fn get_by_tag_matches_the_exact_tag() {
    let mut store = store_with_pages(&["a", "b", "c", "d"]);
    upsert_user_bookmark(&mut store, "a", ALICE, &texts(&["rust", "web"]), 1, 50);
    upsert_user_bookmark(&mut store, "b", ALICE, &texts(&["Rust"]), 2, 51);
    upsert_user_bookmark(&mut store, "c", ALICE, &texts(&["rusty", "rust"]), 3, 52);
    upsert_user_bookmark(&mut store, "d", BOB, &texts(&["rust"]), 4, 53);
    assert_eq!(ids(&get_by_tag(&store, ALICE, "rust")), texts(&["a", "c"]));
    assert_eq!(ids(&get_by_tag(&store, ALICE, "Rust")), texts(&["b"]));
    assert_eq!(ids(&get_by_tag(&store, ALICE, "rus")), Vec::<String>::new());
    assert_eq!(ids(&get_by_tag(&store, ALICE, "")), Vec::<String>::new());
    assert_eq!(ids(&get_by_tag(&store, BOB, "rust")), texts(&["d"]));
    for row in get_by_tag(&store, ALICE, "rust") {
        assert!(row.tags.unwrap().contains(&"rust".to_string()));
    }
}

#[test]
fn get_by_user_lists_in_saving_order() {
    let mut store = store_with_pages(&["a", "b", "c"]);
    upsert_user_bookmark(&mut store, "a", ALICE, &texts(&[]), 1, 100);
    upsert_user_bookmark(&mut store, "b", ALICE, &texts(&[]), 2, 200);
    upsert_user_bookmark(&mut store, "c", ALICE, &texts(&[]), 3, 300);
    assert_eq!(ids(&get_by_user(&store, ALICE)), texts(&["a", "b", "c"]));
    let times: Vec<Option<i64>> = get_by_user(&store, ALICE).iter().map(|r| r.user_created_at).collect();
    assert_eq!(times, vec![Some(100), Some(200), Some(300)]);
}

#[test]
fn get_by_user_orders_by_time_not_by_arrival() {
    let mut store = store_with_pages(&["a", "b", "c", "d"]);
    upsert_user_bookmark(&mut store, "b", ALICE, &texts(&[]), 1, 200);
    upsert_user_bookmark(&mut store, "c", ALICE, &texts(&[]), 2, 300);
    upsert_user_bookmark(&mut store, "a", ALICE, &texts(&[]), 3, 100);
    upsert_user_bookmark(&mut store, "d", ALICE, &texts(&[]), 4, 200);
    assert_eq!(ids(&get_by_user(&store, ALICE)), texts(&["a", "b", "d", "c"]));
    // A later change of tags does not move a bookmark.
    upsert_user_bookmark(&mut store, "a", ALICE, &texts(&["x"]), 5, 900);
    assert_eq!(ids(&get_by_user(&store, ALICE)), texts(&["a", "b", "d", "c"]));
}

#[test]
fn get_by_user_skips_other_users_and_missing_bookmarks() {
    let mut store = store_with_pages(&["a"]);
    upsert_user_bookmark(&mut store, "a", ALICE, &texts(&["x"]), 1, 1);
    upsert_user_bookmark(&mut store, "a", BOB, &texts(&["y"]), 2, 2);
    upsert_user_bookmark(&mut store, "ghost", ALICE, &texts(&["z"]), 3, 3);
    let rows = get_by_user(&store, ALICE);
    assert_eq!(rows.len(), 1);
    assert_eq!(rows[0].bookmark_id, "a");
    assert_eq!(rows[0].tags, Some(texts(&["x"])));
}

#[test]
fn tag_counts_aggregate_over_bookmarks() {
    let mut store = store_with_pages(&["p", "q", "r"]);
    upsert_user_bookmark(&mut store, "p", ALICE, &texts(&["a", "b"]), 1, 1);
    upsert_user_bookmark(&mut store, "q", ALICE, &texts(&["a"]), 2, 2);
    upsert_user_bookmark(&mut store, "r", ALICE, &texts(&["a", "c"]), 3, 3);
    upsert_user_bookmark(&mut store, "p", BOB, &texts(&["a", "zzz"]), 4, 4);
    let counts = sorted(get_tag_count_by_user(&store, ALICE).unwrap());
    assert_eq!(
        counts,
        vec![("a".to_string(), 3), ("b".to_string(), 1), ("c".to_string(), 1)]
    );
    let counts = sorted(get_tag_count_by_user(&store, BOB).unwrap());
    assert_eq!(counts, vec![("a".to_string(), 1), ("zzz".to_string(), 1)]);
}

#[test]
fn tag_counts_count_repeats_within_one_list() {
    let mut store = store_with_pages(&["p"]);
    upsert_user_bookmark(&mut store, "p", ALICE, &texts(&["a", "b"]), 1, 1);
    let op = TagOperation::Append(texts(&["b", "c"]));
    update_tags(&mut store, ALICE, "p", &op, 2).unwrap();
    let counts = sorted(get_tag_count_by_user(&store, ALICE).unwrap());
    assert_eq!(
        counts,
        vec![("a".to_string(), 1), ("b".to_string(), 2), ("c".to_string(), 1)]
    );
}

#[test]
fn tag_counts_include_associations_without_bookmark() {
    let mut store = BookmarkStore::new();
    upsert_user_bookmark(&mut store, "ghost", ALICE, &texts(&["a"]), 1, 1);
    assert_eq!(get_tag_count_by_user(&store, ALICE).unwrap(), vec![("a".to_string(), 1)]);
}

fn association(id: u128, bookmark: &str, user: u128, tags: &[&str], at: i64) -> BookmarkUser {
    BookmarkUser {
        bookmark_user_id: id,
        bookmark_id: bookmark.to_string(),
        user_id: user,
        tags: texts(tags),
        created_at: at,
        updated_at: at + 1,
    }
}

#[test]
fn load_keeps_rows_and_orders_associations() {
    let pages = vec![page("a", "https://example.com/a"), page("b", "https://example.com/b")];
    let rows = vec![
        association(1, "a", ALICE, &["x"], 30),
        association(2, "b", ALICE, &["y"], 10),
        association(3, "a", BOB, &["z"], 30),
        association(4, "b", BOB, &[], 20),
    ];
    let store = BookmarkStore::load(pages, rows).unwrap();
    assert_eq!(store.bookmarks().len(), 2);
    assert_eq!(store.bookmarks()[0].bookmark_id, "a");
    let order: Vec<u128> = store.associations().iter().map(|a| a.bookmark_user_id).collect();
    assert_eq!(order, vec![2, 4, 1, 3]);
    assert_eq!(store.associations()[0].updated_at, 11);
    assert_eq!(ids(&get_by_user(&store, ALICE)), texts(&["b", "a"]));
}

#[test]
fn load_refuses_duplicate_keys() {
    let clash = |r: Result<BookmarkStore, Error>| match r {
        Err(Error::ConstraintViolation { constraint, .. }) => constraint,
        other => panic!("unexpected result {other:?}"),
    };
    let same_id = vec![page("a", "https://example.com/a"), page("a", "https://example.com/b")];
    assert_eq!(clash(BookmarkStore::load(same_id, vec![])), BOOKMARK_PKEY);
    let same_url = vec![page("a", "https://example.com/a"), page("b", "https://example.com/a")];
    assert_eq!(clash(BookmarkStore::load(same_url, vec![])), BOOKMARK_URL_KEY);
    let same_pair = vec![association(1, "a", ALICE, &[], 1), association(2, "a", ALICE, &[], 2)];
    assert_eq!(clash(BookmarkStore::load(vec![], same_pair)), BOOKMARK_USER_UNIQUE);
    assert_eq!(BOOKMARK_USER_UNIQUE, "bookmark_user_unique");
    let both = vec![page("a", "u"), page("b", "u"), page("a", "v")];
    assert_eq!(clash(BookmarkStore::load(both, vec![])), BOOKMARK_PKEY);
}
