use blog_backend::blogs::{parse_user_id, BlogStore, CreateBlogPayload, UpdateBlogPayload};
use blog_backend::middleware::auth_middleware;
use blog_backend::users::{LoginPayload, RegisterPayload, UserStore};

#[test]
fn full_flow_register_login_authenticate_create_list() {
    let secret = b"flow-secret";
    let mut users = UserStore::new();
    let mut blogs = BlogStore::new(0);
    let id = users
        .register(&RegisterPayload {
            username: "zoe".to_string(),
            email: "z@example.com".to_string(),
            password: "pw".to_string(),
        })
        .unwrap();
    let token = users
        .login(
            &LoginPayload { email: "z@example.com".to_string(), password: "pw".to_string() },
            100,
            secret,
        )
        .unwrap()
        .token;
    let header = format!("Bearer {}", token);
    let sub = auth_middleware(Some(&header), secret, 200).unwrap();
    let caller = parse_user_id(&sub).unwrap();
    assert_eq!(caller, id);
    let payload = CreateBlogPayload {
        title: "hello".to_string(),
        content: "world".to_string(),
        author_id: 0,
    };
    let blog = blogs.create_blog(caller, payload, 300);
    let mine = blogs.get_blogs(caller);
    assert_eq!(mine.len(), 1);
    assert_eq!(mine[0].id, blog.id);
    assert_eq!(mine[0].author_id, id);
    assert_eq!(mine[0].title, "hello");
}

#[test]
fn update_keeps_listing_in_creation_order() {
    let mut blogs = BlogStore::new(0);
    let payload = |t: &str| CreateBlogPayload {
        title: t.to_string(),
        content: String::new(),
        author_id: 0,
    };
    let first = blogs.create_blog(1, payload("a"), 1);
    blogs.create_blog(1, payload("b"), 2);
    blogs.create_blog(1, payload("c"), 3);
    // Updating the oldest post later does not move it up the listing:
    // the order goes by creation time, which an update never changes.
    blogs
        .update_blog(
            first.id,
            1,
            &UpdateBlogPayload { title: "a2".to_string(), content: String::new() },
            10,
        )
        .unwrap();
    let mine = blogs.get_blogs(1);
    assert_eq!(mine.len(), 3);
    assert_eq!(mine[0].title, "c");
    assert_eq!(mine[1].title, "b");
    assert_eq!(mine[2].title, "a2");
    assert_eq!(mine[2].updated_at, 10);
    assert_eq!(mine[2].created_at, 1);
}
