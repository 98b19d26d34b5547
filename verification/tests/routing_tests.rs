use bouedig::config::{parse_port, server_settings};
use bouedig::routing::{absolutize, api_base, nested_base_path, trailing_slash_redirect};

#[test]
fn trailing_slash_under_base_path_redirects() {
    assert_eq!(trailing_slash_redirect("/bouedig/", None).as_deref(), Some("/bouedig"));
    assert_eq!(trailing_slash_redirect("/bouedig/api/grocery", None), None);
    assert_eq!(trailing_slash_redirect("/", None), None);
    assert_eq!(trailing_slash_redirect("/a//", Some("x=1")).as_deref(), Some("/a?x=1"));
    assert_eq!(trailing_slash_redirect("/a/", Some("")).as_deref(), Some("/a"));
    assert_eq!(trailing_slash_redirect("//", None).as_deref(), Some(""));
}

#[test]
fn redirect_target_is_not_redirected_again() {
    for p in ["/bouedig/", "/x/y///", "/recipes/"] {
        let target = trailing_slash_redirect(p, None).unwrap();
        assert_eq!(trailing_slash_redirect(&target, None), None, "{p}");
    }
}

#[test]
fn base_path_nesting() {
    assert_eq!(nested_base_path(&Some("/bouedig".to_owned())).as_deref(), Some("/bouedig"));
    assert_eq!(nested_base_path(&Some("/".to_owned())), None);
    assert_eq!(nested_base_path(&None), None);
}

#[test]
fn client_urls() {
    assert_eq!(api_base(), "http://10.0.2.2:3000");
    assert_eq!(absolutize("/api/images/images/a.png"), "http://10.0.2.2:3000/api/images/images/a.png");
    assert_eq!(absolutize("https://x/y.png"), "https://x/y.png");
    assert_eq!(absolutize(""), "");
}

#[test]
fn ports_parse_like_std() {
    for s in ["3000", "+80", "0", "65535", "65536", "", "+", "-1", "30a", " 80", "00042"] {
        assert_eq!(parse_port(s), s.parse::<u16>().ok(), "{s:?}");
    }
}

#[test]
fn settings_defaults() {
    let s = server_settings(None, None, None, None, None);
    assert_eq!(s.port, 3000);
    assert_eq!(s.db_url, "sqlite://bouedig.db?mode=rwc");
    assert_eq!(s.base_path, None);
    assert_eq!(s.static_dir, None);
    assert_eq!(s.data_dir, "data");
    let s = server_settings(
        Some("8080".to_owned()),
        Some("sqlite::memory:".to_owned()),
        Some("/bouedig".to_owned()),
        Some("".to_owned()),
        Some("/var/lib/bouedig".to_owned()),
    );
    assert_eq!(s.port, 8080);
    assert_eq!(s.db_url, "sqlite::memory:");
    assert_eq!(s.base_path.as_deref(), Some("/bouedig"));
    assert_eq!(s.static_dir, None);
    assert_eq!(s.data_dir, "/var/lib/bouedig");
    assert_eq!(server_settings(Some("nope".to_owned()), None, None, None, None).port, 3000);
}
