use text_relay::routes::{content_type, route, Route};

#[test]
fn root_is_the_page() {
    assert_eq!(route("/"), Some(Route::Page));
}

#[test]
fn stylesheet_path() {
    assert_eq!(route("/static/style.css"), Some(Route::Stylesheet));
}

#[test]
fn script_path() {
    assert_eq!(route("/static/app.js"), Some(Route::Script));
}

#[test]
fn socket_path() {
    assert_eq!(route("/ws"), Some(Route::Socket));
}

#[test]
fn other_paths_have_no_route() {
    for path in ["", "/index.html", "/static", "/static/", "/static/app.css", "/ws/", "/WS", "ws", "/static/style.css/x"] {
        assert_eq!(route(path), None);
    }
}

#[test]
fn content_types_of_the_assets() {
    assert_eq!(content_type(Route::Page), Some("text/html; charset=utf-8"));
    assert_eq!(content_type(Route::Stylesheet), Some("text/css; charset=utf-8"));
    assert_eq!(content_type(Route::Script), Some("application/javascript; charset=utf-8"));
}

#[test]
fn socket_has_no_content_type() {
    assert_eq!(content_type(Route::Socket), None);
}
