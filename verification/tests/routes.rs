use filmcraft::requests::{
    character_voice_update, check_new_character, check_new_project, normalize_project_update,
    normalized, parse_shot_request, ShotStage,
};
use filmcraft::routes::{
    all_routes, film_routes, hub_routes, route_request, spec_admin, spec_public, Endpoint,
    HttpMethod,
};

/// A concrete path for a declared pattern: each `:param` and `*` becomes `x`.
fn sample_path(pattern: &str) -> String {
    pattern
        .split('/')
        .map(|s| if s.starts_with(':') || s == "*" { "x" } else { s })
        .collect::<Vec<_>>()
        .join("/")
}

#[test]
fn routes_declares_twentyone_film_endpoints_with_auth_matrix() {
    let routes = all_routes();
    assert_eq!(
        routes.len(),
        45,
        "应有 45 条路由（21 基线 + 21 FilmHub 新链 + 3 story 文档管线 clean/chapterize/profile）: {routes:?}"
    );
    assert!(routes.iter().all(|r| r.handler_component == "film"), "全部归属 film 组件");
    for r in &routes {
        if r.method == HttpMethod::Get {
            assert!(!r.requires_auth, "GET 应公开: {r:?}");
            assert!(r.required_roles.is_empty(), "GET 无角色要求: {r:?}");
        } else {
            assert!(r.requires_auth, "写端点需鉴权: {r:?}");
            assert_eq!(r.required_roles, vec!["admin".to_string()], "写端点需 admin: {r:?}");
        }
    }
    let paths: Vec<&str> = routes.iter().map(|r| r.path.as_str()).collect();
    for expect in [
        "/api/v1/film/projects",
        "/api/v1/film/projects/:id",
        "/api/v1/film/projects/:id/script",
        "/api/v1/film/projects/:id/shots/:n/image",
        "/api/v1/film/projects/:id/shots/:n/video",
        "/api/v1/film/projects/:id/shots/:n/tts",
        "/api/v1/film/projects/:id/music",
        "/api/v1/film/projects/:id/compose",
        "/api/v1/film/projects/:id/characters",
        "/api/v1/film/characters/:cid",
        "/api/v1/film/projects/:id/characters/:cid/portrait",
        "/api/v1/film/projects/:id/characters/:cid/portrait/generate",
        "/api/v1/film/projects/:id/refs",
        "/api/v1/film/tasks",
        "/api/v1/film/tasks/:id",
        "/api/v1/film/tools",
        "/api/v1/film/projects/:id/story/import",
        "/api/v1/film/projects/:id/story/generate",
        "/api/v1/film/projects/:id/story/clean",
        "/api/v1/film/projects/:id/story/chapterize",
        "/api/v1/film/projects/:id/story/profile",
        "/api/v1/film/projects/:id/storyboard/generate",
        "/api/v1/film/projects/:id/casting/extract",
        "/api/v1/film/projects/:id/casting/:type",
        "/api/v1/film/projects/:id/casting/:type/:name",
        "/api/v1/film/projects/:id/casting/:type/:name/views/generate",
        "/api/v1/film/projects/:id/casting/:type/:name/views/import",
        "/api/v1/film/projects/:id/audio/bgm",
        "/api/v1/film/projects/:id/audio/bgm/:track",
        "/api/v1/film/projects/:id/audio/bgm/:track/generate",
        "/api/v1/film/projects/:id/cache/:file/commit",
        "/api/v1/film/projects/:id/files",
        "/api/v1/film/projects/:id/files/*",
        "/api/v1/film/projects/:id/export",
        "/api/v1/film/projects/:id/import",
        "/api/v1/film/projects/:id/cost",
    ] {
        assert!(paths.contains(&expect), "缺路由 {expect}: {paths:?}");
    }
}

#[test]
fn film_and_hub_route_tables_split_the_routes() {
    assert_eq!(film_routes().len(), 24);
    assert_eq!(hub_routes().len(), 21);
}

#[test]
fn spec_helpers_set_access_rules() {
    let a = spec_admin(HttpMethod::Put, "/p");
    assert!(a.requires_auth && a.required_roles == vec!["admin".to_string()] && a.path == "/p");
    let p = spec_public(HttpMethod::Get, "/p");
    assert!(!p.requires_auth && p.required_roles.is_empty() && p.handler_component == "film");
}

#[test]
fn every_declared_route_is_routed() {
    for r in all_routes() {
        let path = sample_path(&r.path);
        assert!(route_request(r.method, &path).is_some(), "{:?} {path}", r.method);
    }
}

#[test]
fn route_request_captures_parameters() {
    let (e, c) = route_request(HttpMethod::Post, "/api/v1/film/projects/film-7/shots/3/video").unwrap();
    assert_eq!(e, Endpoint::ShotStage);
    assert_eq!(c, vec!["film-7", "3", "video"]);
    let (e, c) = route_request(HttpMethod::Get, "/api/v1/film/projects/film-7/files/story/story.md?x=1").unwrap();
    assert_eq!(e, Endpoint::FilesGet);
    assert_eq!(c, vec!["film-7", "story", "story.md"]);
    let (e, c) = route_request(HttpMethod::Get, "/api/v1/film/projects/film-7/files").unwrap();
    assert_eq!(e, Endpoint::FilesTree);
    assert_eq!(c, vec!["film-7"]);
    let (e, c) = route_request(HttpMethod::Put, "//api/v1/film/characters/char-2/").unwrap();
    assert_eq!(e, Endpoint::UpdateCharacter);
    assert_eq!(c, vec!["char-2"]);
    assert_eq!(route_request(HttpMethod::Get, "/api/v1/film/projects").unwrap().0, Endpoint::ListProjects);
}

#[test]
fn route_request_refuses_unknown_paths_and_methods() {
    assert!(route_request(HttpMethod::Delete, "/api/v1/film/projects").is_none());
    assert!(route_request(HttpMethod::Get, "/api/v1/film/projects/a/unknown").is_none());
    assert!(route_request(HttpMethod::Put, "/api/v1/film/projects/a/files").is_none());
    assert!(route_request(HttpMethod::Get, "/api/v2/film/tools").is_none());
}

#[test]
fn new_project_checks_in_order() {
    assert_eq!(check_new_project(" ", "idea", "16:9").unwrap_err(), "title 不可为空");
    assert_eq!(check_new_project("t", "", "16:9").unwrap_err(), "idea 不可为空");
    assert_eq!(
        check_new_project("t", "i", "21:9").unwrap_err(),
        "ratio 必须是 16:9 / 9:16 / 1:1 / 2.39:1 / 1.85:1 / 4:3（当前 21:9）"
    );
    assert!(check_new_project("t", "i", "2.39:1").is_ok());
}

#[test]
fn project_update_normalizes_fields() {
    let u = normalize_project_update(
        &Some("  新标题 ".into()),
        &Some("   ".into()),
        &Some(" 4:3 ".into()),
        &Some(" 水墨 ".into()),
        None,
    )
    .unwrap();
    assert_eq!(u.title.as_deref(), Some("新标题"));
    assert_eq!(u.idea, None);
    assert_eq!(u.ratio.as_deref(), Some("4:3"));
    assert_eq!(u.style_hint.as_deref(), Some("水墨"));
    let cleared = normalize_project_update(&None, &None, &None, &Some("x".into()), Some(true)).unwrap();
    assert_eq!(cleared.style_hint.as_deref(), Some(""));
    let bad = normalize_project_update(&None, &None, &Some("5:4".into()), &None, None).unwrap_err();
    assert!(bad.contains("当前 5:4"), "{bad}");
    assert_eq!(normalized(&Some(" a ".into())).as_deref(), Some("a"));
}

#[test]
fn character_checks_and_voice_update() {
    assert_eq!(check_new_character("", "d").unwrap_err(), "name 不可为空");
    assert_eq!(check_new_character("小明", " ").unwrap_err(), "description 不可为空");
    assert!(check_new_character("小明", "黑发").is_ok());
    assert_eq!(character_voice_update(&None), None);
    assert_eq!(character_voice_update(&Some("  ".into())), Some(None));
    assert_eq!(character_voice_update(&Some(" onyx ".into())), Some(Some("onyx".to_string())));
}

#[test]
fn shot_request_parses_number_and_stage() {
    assert_eq!(parse_shot_request("3", "video").unwrap(), (3, ShotStage::Video));
    assert_eq!(parse_shot_request("+2", "tts").unwrap(), (2, ShotStage::Tts));
    let (s, m) = parse_shot_request("x", "image").unwrap_err();
    assert_eq!((s, m.as_str()), (400, "镜头号须为正整数（当前 x）"));
    let (s, m) = parse_shot_request("4294967296", "image").unwrap_err();
    assert_eq!((s, m.as_str()), (400, "镜头号须为正整数（当前 4294967296）"));
    let (s, m) = parse_shot_request("0", "image").unwrap_err();
    assert_eq!((s, m.as_str()), (400, "镜头号从 1 起（与 script.shot 一致）"));
    let (s, m) = parse_shot_request("1", "music").unwrap_err();
    assert_eq!((s, m.as_str()), (404, "未知镜头阶段: music（image/video/tts）"));
}
