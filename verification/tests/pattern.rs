use salvo_t::filter::Filter;
use salvo_t::http::Request;
use salvo_t::path::{default_registry, BuilderKind, CharWispBuilder, PathFilter};
use salvo_t::routing::PathState;
use salvo_t::wisp::CharKind;

fn param<'a>(state: &'a PathState, name: &str) -> Option<&'a String> {
    state.params().get(name)
}

#[test]
fn test_literal_template_matches_itself() {
    let f = PathFilter::new("level1/level2/hello").unwrap();
    let mut state = PathState::new("/level1/level2/hello");
    assert!(f.detect(&mut state));
    assert!(state.ended());
    assert!(param(&state, "level1").is_none());
}

#[test]
fn test_empty_template_is_refused() {
    assert!(PathFilter::new("").is_err());
}

#[test]
fn test_named_captures() {
    let f = PathFilter::new("users/<id>/articles/<aid>").unwrap();
    let mut state = PathState::new("users/12/articles/99");
    assert!(f.detect(&mut state));
    assert_eq!(param(&state, "id").unwrap(), "12");
    assert_eq!(param(&state, "aid").unwrap(), "99");

    let mut state = PathState::new("users/12/articles");
    assert!(!f.detect(&mut state));
}

#[test]
fn test_named_capture_needs_text() {
    let f = PathFilter::new("users/<id>").unwrap();
    // Empty segments are dropped, so nothing is left for `<id>` to take.
    let mut state = PathState::new("users//");
    assert!(!f.detect(&mut state));
}

#[test]
fn test_double_star_takes_empty_rest_single_star_does_not() {
    let star = PathFilter::new("<*rest>").unwrap();
    let double = PathFilter::new("<**rest>").unwrap();

    let mut state = PathState::new("/");
    assert!(!star.detect(&mut state));
    let mut state = PathState::new("/");
    assert!(double.detect(&mut state));
    assert_eq!(param(&state, "**rest").unwrap(), "");

    let mut state = PathState::new("/abc/def");
    assert!(star.detect(&mut state));
    assert_eq!(param(&state, "*rest").unwrap(), "abc/def");
}

#[test]
fn test_star_regex_capture() {
    let f = PathFilter::new("users/<*sub:/(images|css)/>/<filename>").unwrap();

    let mut state = PathState::new("users/12/m.jpg");
    assert!(!f.detect(&mut state));

    let mut state = PathState::new("users/css/m.jpg");
    assert!(f.detect(&mut state));
    assert_eq!(param(&state, "filename").unwrap(), "m.jpg");
}

#[test]
fn test_regex_capture_in_segment() {
    let f = PathFilter::new(r"user/<id:/[0-9a-z]{8}(-[0-9a-z]{4}){3}-[0-9a-z]{12}/>").unwrap();
    let mut state = PathState::new("user/726d694c-7af0-4bb0-9d22-706f7e38641e");
    assert!(f.detect(&mut state));

    let mut state = PathState::new("user/726d694c-7af0-4bb0-9d22-706f7e386e");
    assert!(!f.detect(&mut state));
}

#[test]
fn test_composite_segment() {
    let f = PathFilter::new("avatars/<width:num>x<height:num>.<ext>").unwrap();

    let mut state = PathState::new("avatars/320x640.webp");
    assert!(f.detect(&mut state));
    assert_eq!(param(&state, "width").unwrap(), "320");
    assert_eq!(param(&state, "height").unwrap(), "640");
    assert_eq!(param(&state, "ext").unwrap(), "webp");

    let mut state = PathState::new("avatars/321x641f.webp");
    assert!(!f.detect(&mut state));
}

#[test]
fn test_char_class_widths() {
    let f = PathFilter::new("code/<id:hex(4)>").unwrap();
    let mut state = PathState::new("code/a1b2");
    assert!(f.detect(&mut state));
    assert_eq!(param(&state, "id").unwrap(), "a1b2");

    let mut state = PathState::new("code/a1b");
    assert!(!f.detect(&mut state));
}

#[test]
fn test_unknown_builder_is_refused() {
    assert!(PathFilter::new("users/<id:uuid>").is_err());
}

#[test]
fn test_unterminated_tokens_are_refused() {
    assert!(PathFilter::new("users/<id").is_err());
    assert!(PathFilter::new("users/<>").is_err());
    assert!(PathFilter::new("users/<id:/abc>").is_err());
}

#[test]
fn test_percent_encoded_segment_is_decoded() {
    let f = PathFilter::new("api/<p>").unwrap();
    let mut state = PathState::new("api/a%2fb%2fc");
    assert!(f.detect(&mut state));
    assert_eq!(param(&state, "p").unwrap(), "a/b/c");
}

#[test]
fn test_regex_matches_only_at_position() {
    // The capture must hold from the cursor's position on, not somewhere
    // later in the segment.
    let f = PathFilter::new(r"users/<id:/[0-9]+/>").unwrap();

    let mut state = PathState::new("users/a12");
    assert!(!f.detect(&mut state));

    let mut state = PathState::new("users/12");
    assert!(f.detect(&mut state));
    assert_eq!(param(&state, "id").unwrap(), "12");
}

#[test]
fn test_char_class_width_span() {
    let f = PathFilter::new("code/<id:num(2,4)>").unwrap();
    let mut state = PathState::new("code/123");
    assert!(f.detect(&mut state));
    assert_eq!(param(&state, "id").unwrap(), "123");

    let mut state = PathState::new("code/7");
    assert!(!f.detect(&mut state));
}

#[test]
fn test_registry_later_registration_wins() {
    let mut registry = default_registry();
    // Re-bind `num` to the hexadecimal class: the later binding wins.
    registry.register("num".to_owned(), BuilderKind::Char(CharWispBuilder::new(CharKind::Hex)));

    let f = PathFilter::with_registry("code/<id:num>", &registry).unwrap();
    let mut state = PathState::new("code/ab12");
    assert!(f.detect(&mut state));
    assert_eq!(param(&state, "id").unwrap(), "ab12");

    assert!(registry.lookup("nope").is_none());
}

#[test]
fn test_error_message() {
    let err = salvo_t::Error::other("boom".to_owned());
    assert_eq!(err.message(), "boom");
}

#[test]
fn test_scheme_and_port_filters() {
    let mut req = Request::new("/".to_owned());
    let mut state = PathState::new("/");

    let by_scheme = salvo_t::filter::scheme("https".to_owned(), false);
    assert!(!by_scheme.filter(&req, &mut state));
    req.scheme = Some("https".to_owned());
    assert!(by_scheme.filter(&req, &mut state));

    let by_port = salvo_t::filter::port(8080, true);
    assert!(by_port.filter(&req, &mut state));
    req.port = Some(80);
    assert!(!by_port.filter(&req, &mut state));
    req.port = Some(8080);
    assert!(by_port.filter(&req, &mut state));
}

#[test]
fn test_path_state_cursor() {
    let mut state = PathState::new("/users/12/");
    assert!(!state.ended());
    assert_eq!(state.pick().unwrap(), "users");
    assert_eq!(state.all_rest().unwrap(), "users/12/");
    state.forward(5);
    assert_eq!(state.pick().unwrap(), "12");
    state.forward(2);
    assert!(state.ended());
    assert!(state.pick().is_none());
    assert!(state.all_rest().is_none());
}
