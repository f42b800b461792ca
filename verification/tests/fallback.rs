use sitevik::fallback::{final_segment_is_asset, lookup_parsed, step, Action, Event, Metadata, Opened, Reply, State};
use sitevik::request_path::parse_request_path;

/// Runs the handler from the start over `events`, collecting its actions.
fn run(spa: bool, events: Vec<Event>) -> Vec<Action> {
    let mut state = State::Start;
    let mut actions = Vec::new();
    for event in events {
        let (next, action) = step(spa, state, event);
        state = next;
        actions.push(action);
    }
    actions
}

fn request(path: &str) -> Event {
    Event::Request(path.to_string())
}

fn lookup(relative: &str) -> Action {
    Action::QueryCandidate { relative: relative.to_string() }
}

#[test]
fn requests_resolve_to_relative_paths() {
    let cases = [
        ("/", ""),
        ("/about", "about"),
        ("/about/", "about"),
        ("/assets/app.js", "assets/app.js"),
        ("/.site-meta", ".site-meta"),
        ("//nested//profile", "nested/profile"),
        ("/caf%C3%A9", "café"),
        ("/a%20b", "a b"),
    ];
    for (path, relative) in cases {
        assert_eq!(run(false, vec![request(path)]), vec![lookup(relative)], "{path}");
    }
}

#[test]
fn parse_gives_relative_path_and_final_segment() {
    assert_eq!(parse_request_path("/assets/app.js"), Some(("assets/app.js".to_string(), Some("app.js".to_string()))));
    assert_eq!(parse_request_path("/"), Some((String::new(), None)));
    assert_eq!(parse_request_path("/a/./b"), Some(("a/./b".to_string(), Some("b".to_string()))));
    assert_eq!(parse_request_path("/../x"), None);
    assert_eq!(parse_request_path("/./x"), None);
    assert_eq!(parse_request_path("//%2e/x"), None);
    assert_eq!(parse_request_path("/a%2Fb"), None);
    assert_eq!(parse_request_path("/*star"), None);
    assert_eq!(parse_request_path("/name:"), None);
}

#[test]
fn spa_disabled_missing_route_is_not_found() {
    let actions = run(false, vec![request("/dashboard"), Event::Metadata(Metadata::NotFound)]);
    assert_eq!(actions, vec![lookup("dashboard"), Action::Respond(Reply::NotFound)]);
}

#[test]
fn spa_enabled_missing_route_serves_root_index() {
    for (path, relative) in [("/dashboard", "dashboard"), ("/nested/profile", "nested/profile"), ("/assets/missing", "assets/missing")] {
        let actions = run(true, vec![request(path), Event::Metadata(Metadata::NotFound), Event::Opened(Opened::File)]);
        assert_eq!(
            actions,
            vec![lookup(relative), Action::OpenRootIndex, Action::Respond(Reply::RootIndex)],
            "{path}"
        );
    }
}

#[test]
fn spa_enabled_missing_dotted_final_segment_is_not_found() {
    let actions = run(true, vec![request("/missing.js"), Event::Metadata(Metadata::NotFound)]);
    assert_eq!(actions, vec![lookup("missing.js"), Action::Respond(Reply::NotFound)]);
}

#[test]
fn spa_enabled_without_root_index_is_not_found() {
    let actions = run(true, vec![request("/dashboard"), Event::Metadata(Metadata::NotFound), Event::Opened(Opened::NotFound)]);
    assert_eq!(actions.last(), Some(&Action::Respond(Reply::NotFound)));
}

#[test]
fn root_index_open_failure_is_internal_error() {
    let actions = run(true, vec![request("/dashboard"), Event::Metadata(Metadata::NotFound), Event::Opened(Opened::Failed)]);
    assert_eq!(actions.last(), Some(&Action::Respond(Reply::InternalServerError)));
}

#[test]
fn traversal_requests_are_not_found_at_once() {
    for spa in [false, true] {
        for path in [
            "/../private/secret.txt",
            "/%2e%2e/private/secret.txt",
            "/%2E%2E/private/secret.txt",
            "/%2e%2e%2fprivate/secret.txt",
            "/%00",
        ] {
            assert_eq!(run(spa, vec![request(path)]), vec![Action::Respond(Reply::NotFound)], "{path}");
        }
    }
}

#[test]
fn unparsable_paths_are_not_found() {
    for path in ["/*star", "/a%2Fb", "/./x", "/x>"] {
        assert_eq!(run(true, vec![request(path)]), vec![Action::Respond(Reply::NotFound)], "{path}");
    }
}

#[test]
fn directory_without_index_is_not_found() {
    let actions = run(false, vec![request("/empty"), Event::Metadata(Metadata::Directory), Event::Metadata(Metadata::NotFound)]);
    assert_eq!(actions, vec![lookup("empty"), Action::QueryDirectoryIndex, Action::Respond(Reply::NotFound)]);
}

#[test]
fn directory_index_trouble_is_internal_error() {
    for found in [Metadata::Failed, Metadata::NotDirectory, Metadata::Directory] {
        let actions = run(true, vec![request("/about"), Event::Metadata(Metadata::Directory), Event::Metadata(found)]);
        assert_eq!(actions.last(), Some(&Action::Respond(Reply::InternalServerError)));
    }
}

#[test]
fn filesystem_failure_is_internal_error() {
    for found in [Metadata::Failed, Metadata::NotDirectory] {
        let actions = run(true, vec![request("/unreadable.txt"), Event::Metadata(found)]);
        assert_eq!(actions.last(), Some(&Action::Respond(Reply::InternalServerError)));
    }
}

#[test]
fn final_segments_classify_assets() {
    assert!(!final_segment_is_asset(&None));
    assert!(final_segment_is_asset(&Some("app.js".to_string())));
    assert!(final_segment_is_asset(&Some(".site-meta".to_string())));
    assert!(!final_segment_is_asset(&Some("profile".to_string())));
    let actions = run(true, vec![request("/"), Event::Metadata(Metadata::NotFound), Event::Opened(Opened::File)]);
    assert_eq!(actions.last(), Some(&Action::Respond(Reply::RootIndex)));
}

#[test]
fn lookup_follows_the_parse() {
    assert_eq!(lookup_parsed(None), (State::Done, Action::Respond(Reply::NotFound)));
    assert_eq!(
        lookup_parsed(Some(("assets/app.js".to_string(), Some("app.js".to_string())))),
        (State::LookingUp { asset: true }, lookup("assets/app.js"))
    );
    assert_eq!(
        lookup_parsed(Some(("assets/missing".to_string(), Some("missing".to_string())))),
        (State::LookingUp { asset: false }, lookup("assets/missing"))
    );
}
