use blog_service::handler::{
    article_path_of, article_reply, favicon_reply, image_path_of, not_found_reply, page_reply,
    path_in, static_image_reply, Status, CSS_DIR,
};
use blog_service::state::AppState;

#[test]
fn handler_paths() {
    assert_eq!(image_path_of("post", "a.png"), "./public/images/post/a.png");
    assert_eq!(article_path_of("hello"), "./public/articles/hello.html");
    assert_eq!(path_in(CSS_DIR, "main.css"), "./public/css/main.css");
}

#[test]
fn handler_replies() {
    let r = static_image_reply(Some(vec![1, 2]), b"404".to_vec());
    assert_eq!(r.status, Status::Found);
    assert_eq!(r.content_type.as_deref(), Some("image/jpeg"));
    assert_eq!(r.body, vec![1, 2]);
    let r = static_image_reply(None, b"404".to_vec());
    assert_eq!(r.status, Status::NotFound);
    assert_eq!(r.content_type, None);
    assert_eq!(r.body, b"404".to_vec());
    let r = favicon_reply(Some(vec![3]), vec![]);
    assert_eq!(r.content_type.as_deref(), Some("image/x-icon"));
    let r = article_reply(Some(b"<p/>".to_vec()), vec![]);
    assert_eq!((r.status, r.content_type), (Status::Found, None));
    let r = page_reply(b"x".to_vec(), Some("text/css"));
    assert_eq!(r.content_type.as_deref(), Some("text/css"));
    let r = not_found_reply(b"nf".to_vec());
    assert_eq!((r.status, r.body), (Status::NotFound, b"nf".to_vec()));
}

#[test]
fn app_state_holds_counter() {
    let s = AppState { health_check_response: "I am OK".into(), vis_count: std::sync::Mutex::new(0) };
    assert_eq!(*s.vis_count.lock().unwrap(), 0);
    assert_eq!(s.health_check_response, "I am OK");
}
