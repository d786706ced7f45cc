use filmcraft::model::FilmCharacter;
use filmcraft::ownership::{check_object_key, check_owner, check_section_key, is_hub_stage, parse_frequency};
use filmcraft::requests::{
    character_name_taken, counter_seed, export_dir_shape, id_verdict, ids_exhausted_message, max_project_seq, project_candidate,
    project_seq, IdVerdict, ID_ATTEMPTS,
};
use filmcraft::script::normalize_character_names;

#[test]
fn ownership_keys_and_owners() {
    assert!(is_hub_stage("compose"));
    assert_eq!(check_section_key("story"), None);
    let err = check_section_key("budget").unwrap();
    assert!(err.contains("枚举") && err.contains("budget"), "{err}");
    assert_eq!(check_object_key("characters/小明"), None);
    assert!(check_object_key("weapons/长刀").unwrap().contains("weapons"));
    assert!(check_object_key("characters/小明/x").unwrap().contains("slug 形态"));
    assert!(check_object_key("characters").unwrap().contains("<type>/<name>"));
    assert_eq!(check_owner(Some(" "), "casting_objects[\"characters/小明\"].owner").unwrap(), "casting_objects[\"characters/小明\"].owner 须为非空字符串");
    assert_eq!(check_owner(None, "sections.story.owner").unwrap(), "sections.story.owner 须为非空字符串");
    assert_eq!(check_owner(Some("a/b"), "members[].name").unwrap(), "members[].name 不可含路径分隔符");
    assert_eq!(check_owner(Some("carol"), "members[].name"), None);
}

#[test]
fn extraction_counts_read_from_text() {
    assert_eq!(parse_frequency("2次"), Some(2));
    assert_eq!(parse_frequency(" 3 "), Some(3));
    assert_eq!(parse_frequency("多次"), None);
}

#[test]
fn export_dir_shape_checks() {
    assert_eq!(export_dir_shape(" /tank/exports/a/ ", None).unwrap(), "/tank/exports/a");
    assert_eq!(export_dir_shape("  ", None).unwrap_err(), "export_dir 不可为空串路径");
    assert_eq!(
        export_dir_shape("~/films", None).unwrap_err(),
        "export_dir 须为绝对路径（当前 ~/films；~ 不会自动展开），如 /tank/os-data/exports/my-film"
    );
    assert!(export_dir_shape("/tank/exports/a", Some("/tank/exports")).is_ok());
    assert!(export_dir_shape("/tank//./exports/a", Some("/tank/exports/")).is_ok());
    assert_eq!(
        export_dir_shape("/tank/exports2/a", Some(" /tank/exports ")).unwrap_err(),
        "export_dir 须位于 NEXOS_FILM_EXPORT_BASE（/tank/exports）之下（当前 /tank/exports2/a）"
    );
    assert!(export_dir_shape("/x/a", Some("relative/base")).is_err());
    assert!(export_dir_shape("/x/a", Some("/")).is_ok());
    assert!(export_dir_shape("/x/a", Some("  ")).is_ok());
}

#[test]
fn project_ids_resume_above_the_largest() {
    assert_eq!(project_seq("film-101"), Some(101));
    assert_eq!(project_seq("film-x"), None);
    assert_eq!(project_seq("char-3"), None);
    let ids = vec!["film-7".to_string(), "film-101".to_string(), "other".to_string()];
    assert_eq!(max_project_seq(&ids), 101);
    assert_eq!(max_project_seq(&vec![]), 0);
    let (id, dir) = project_candidate("/data/films/", 102);
    assert_eq!(id, "film-102");
    assert_eq!(dir, "/data/films/film-102");
    assert!(!ids.contains(&id));
}

#[test]
fn normalized_names_are_stable() {
    let once = normalize_character_names(&[" 小明 ".into(), "".into(), "小红".into(), "小明".into()]);
    assert_eq!(once, vec!["小明".to_string(), "小红".to_string()]);
    assert_eq!(normalize_character_names(&once), once);
}

#[test]
fn restart_counter_seeds_from_the_largest_id() {
    let ids: Vec<String> = vec!["film-7".into(), "film-250".into(), "other".into()];
    assert_eq!(counter_seed(&ids), 250);
    assert_eq!(counter_seed(&vec!["film-3".to_string()]), 100);
    assert_eq!(counter_seed(&vec![]), 100);
}

#[test]
fn id_candidates_accept_retry_or_give_up() {
    assert_eq!(id_verdict(0, false, false), IdVerdict::Accept);
    assert_eq!(id_verdict(0, true, false), IdVerdict::TryNext);
    assert_eq!(id_verdict(5, false, true), IdVerdict::TryNext);
    assert_eq!(id_verdict(ID_ATTEMPTS - 1, true, true), IdVerdict::GiveUp);
    assert_eq!(id_verdict(ID_ATTEMPTS - 1, false, false), IdVerdict::Accept);
    assert!(ids_exhausted_message().starts_with("连续 1 万次 id 候选均冲突"));
}

#[test]
fn character_names_are_checked_against_others() {
    let mk = |id: &str, name: &str| FilmCharacter {
        id: id.into(),
        project_id: "film-1".into(),
        name: name.into(),
        description: "d".into(),
        voice: None,
        portrait_ref: None,
        created_at: String::new(),
        updated_at: String::new(),
    };
    let roster = vec![mk("char-1", "小明"), mk("char-2", "小红")];
    assert!(character_name_taken(&roster, "小明", ""));
    assert!(!character_name_taken(&roster, "小明", "char-1"), "renaming to its own name");
    assert!(character_name_taken(&roster, "小红", "char-1"));
    assert!(!character_name_taken(&roster, "老陈", ""));
}
