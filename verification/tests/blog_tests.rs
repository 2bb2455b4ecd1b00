use blog_backend::blogs::{parse_user_id, BlogStore, CreateBlogPayload, UpdateBlogPayload};
use blog_backend::decimal::{parse_u128, u128_to_string};
use blog_backend::errors::ApiError;

fn create_payload(title: &str, content: &str) -> CreateBlogPayload {
    CreateBlogPayload { title: title.to_string(), content: content.to_string(), author_id: 0 }
}

fn update_payload(title: &str, content: &str) -> UpdateBlogPayload {
    UpdateBlogPayload { title: title.to_string(), content: content.to_string() }
}

#[test]
fn create_sets_author_and_timestamps() {
    let mut store = BlogStore::new(0);
    let blog = store.create_blog(9, create_payload("t", "c"), 10);
    assert_eq!(blog.author_id, 9);
    assert_eq!(blog.created_at, 10);
    assert_eq!(blog.updated_at, 10);
    assert_eq!(blog.id, 0);
}

#[test]
fn create_ignores_client_supplied_author() {
    let mut store = BlogStore::new(0);
    let payload =
        CreateBlogPayload { title: "t".to_string(), content: "c".to_string(), author_id: 999 };
    let blog = store.create_blog(4, payload, 1);
    assert_eq!(blog.author_id, 4);
}

#[test]
fn update_refreshes_updated_at_strictly_later() {
    let mut store = BlogStore::new(0);
    let blog = store.create_blog(1, create_payload("t", "c"), 10);
    let updated = store.update_blog(blog.id, 1, &update_payload("t2", "c2"), 20).unwrap();
    assert_eq!(updated.created_at, 10);
    assert_eq!(updated.updated_at, 20);
    assert!(updated.updated_at > updated.created_at);
    assert_eq!(updated.title, "t2");
    assert_eq!(updated.content, "c2");
}

#[test]
fn update_by_other_author_fails_like_missing_id() {
    let mut store = BlogStore::new(0);
    let blog = store.create_blog(1, create_payload("t", "c"), 10);
    let as_other = store.update_blog(blog.id, 2, &update_payload("x", "y"), 20).err();
    let missing = store.update_blog(999, 2, &update_payload("x", "y"), 20).err();
    assert_eq!(as_other, Some(ApiError::NotFound));
    assert_eq!(as_other, missing);
    // The post is untouched.
    let read = store.get_blog(blog.id).unwrap();
    assert_eq!(read.title, "t");
    assert_eq!(read.updated_at, 10);
}

#[test]
fn delete_by_other_author_fails_like_missing_id() {
    let mut store = BlogStore::new(0);
    let blog = store.create_blog(1, create_payload("t", "c"), 10);
    let as_other = store.delete_blog(blog.id, 2);
    let missing = store.delete_blog(999, 2);
    assert_eq!(as_other, Err(ApiError::NotFound));
    assert_eq!(as_other, missing);
    assert!(store.get_blog(blog.id).is_ok());
    // The author deletes it, and the read now misses.
    assert_eq!(store.delete_blog(blog.id, 1), Ok(()));
    assert_eq!(store.get_blog(blog.id).err(), Some(ApiError::NotFound));
}

#[test]
fn get_blog_is_public_and_exact() {
    let mut store = BlogStore::new(0);
    let blog = store.create_blog(5, create_payload("title", "body"), 3);
    let read = store.get_blog(blog.id).unwrap();
    assert_eq!(read.id, blog.id);
    assert_eq!(read.title, "title");
    assert_eq!(read.content, "body");
    assert_eq!(read.author_id, 5);
    assert_eq!(store.get_blog(42).err(), Some(ApiError::NotFound));
}

#[test]
fn list_mine_filters_and_orders_newest_first() {
    let mut store = BlogStore::new(0);
    store.create_blog(1, create_payload("a", ""), 1);
    store.create_blog(2, create_payload("other", ""), 2);
    store.create_blog(1, create_payload("b", ""), 3);
    store.create_blog(1, create_payload("c", ""), 4);
    let mine = store.get_blogs(1);
    assert_eq!(mine.len(), 3);
    assert_eq!(mine[0].title, "c");
    assert_eq!(mine[1].title, "b");
    assert_eq!(mine[2].title, "a");
    for blog in &mine {
        assert_eq!(blog.author_id, 1);
    }
    let created: Vec<i64> = mine.iter().map(|b| b.created_at).collect();
    let mut sorted = created.clone();
    sorted.sort_by(|a, b| b.cmp(a));
    assert_eq!(created, sorted);
}

#[test]
fn list_mine_empty_for_unknown_author() {
    let mut store = BlogStore::new(0);
    store.create_blog(1, create_payload("a", ""), 1);
    assert!(store.get_blogs(77).is_empty());
}

#[test]
fn parse_user_id_accepts_only_canonical_decimal() {
    assert_eq!(parse_user_id("0"), Ok(0));
    assert_eq!(parse_user_id("12345"), Ok(12345));
    assert_eq!(parse_user_id(""), Err(ApiError::BadRequest));
    assert_eq!(parse_user_id("abc"), Err(ApiError::BadRequest));
    assert_eq!(parse_user_id("007"), Err(ApiError::BadRequest));
    assert_eq!(parse_user_id("-1"), Err(ApiError::BadRequest));
    assert_eq!(parse_user_id("12 "), Err(ApiError::BadRequest));
}

#[test]
fn decimal_rendering_and_parsing_round_trip() {
    assert_eq!(u128_to_string(0), "0");
    assert_eq!(u128_to_string(7), "7");
    assert_eq!(u128_to_string(105), "105");
    assert_eq!(u128_to_string(u128::MAX), u128::MAX.to_string());
    for n in [0u128, 1, 9, 10, 99, 100, 12345678901234567890, u128::MAX] {
        assert_eq!(parse_u128(&u128_to_string(n)), Some(n));
    }
    // One past the largest value no longer parses.
    assert_eq!(parse_u128("340282366920938463463374607431768211455"), Some(u128::MAX));
    assert_eq!(parse_u128("340282366920938463463374607431768211456"), None);
}
