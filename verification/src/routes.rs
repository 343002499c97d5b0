//! The fixed paths of the server and what each of them answers with.

use vstd::prelude::*;
use vstd::string::*;

verus! {

/// What a path of the server leads to.
#[derive(Clone, Copy, Debug, PartialEq, Eq, Structural)]
pub enum Route {
    /// The page with the text box.
    Page,
    /// The page's stylesheet.
    Stylesheet,
    /// The page's script.
    Script,
    /// The endpoint on which a client opens its connection to the relay.
    Socket,
}

/// The route of a request path: one of four fixed paths, or none.
pub open spec fn route_of(path: Seq<char>) -> Option<Route> {
    if path == "/"@ {
        Some(Route::Page)
    } else if path == "/static/style.css"@ {
        Some(Route::Stylesheet)
    } else if path == "/static/app.js"@ {
        Some(Route::Script)
    } else if path == "/ws"@ {
        Some(Route::Socket)
    } else {
        None
    }
}

/// The content type with which a route's body is served. The socket has no
/// body and so no content type.
pub open spec fn content_type_of(route: Route) -> Option<Seq<char>> {
    match route {
        Route::Page => Some("text/html; charset=utf-8"@),
        Route::Stylesheet => Some("text/css; charset=utf-8"@),
        Route::Script => Some("application/javascript; charset=utf-8"@),
        Route::Socket => None,
    }
}

/// Finds the route of a request path.
pub fn route(path: &str) -> (found: Option<Route>)
    ensures
        found == route_of(path@),
{
    let wanted = String::from_str(path);
    if wanted == String::from_str("/") {
        Some(Route::Page)
    } else if wanted == String::from_str("/static/style.css") {
        Some(Route::Stylesheet)
    } else if wanted == String::from_str("/static/app.js") {
        Some(Route::Script)
    } else if wanted == String::from_str("/ws") {
        Some(Route::Socket)
    } else {
        None
    }
}

/// The content type of a route's body, if it has one.
pub fn content_type(route: Route) -> (header: Option<&'static str>)
    ensures
        match header {
            Some(value) => content_type_of(route) == Some(value@),
            None => content_type_of(route) is None,
        },
{
    match route {
        Route::Page => Some("text/html; charset=utf-8"),
        Route::Stylesheet => Some("text/css; charset=utf-8"),
        Route::Script => Some("application/javascript; charset=utf-8"),
        Route::Socket => None,
    }
}

} // verus!
