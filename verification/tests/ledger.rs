use filmcraft::claims::{Claim, ClaimBook};
use filmcraft::cost::{
    cost_groups, event_source, group_costs, parse_cost_axis, priced_token_count, row_key,
    CostAxis, CostRow,
};
use filmcraft::listing::{
    artifact_dirs, merge_artifacts, shots_naming, view_files, FileEntry,
};
use filmcraft::model::{FilmProject, ModelRef, ScriptShot};

fn claim_pairs(book: &ClaimBook) -> Vec<(String, Option<String>)> {
    let mut v: Vec<(String, Option<String>)> = book
        .entries()
        .iter()
        .map(|(k, c)| (k.clone(), c.owner.clone()))
        .collect();
    v.sort();
    v
}

#[test]
fn claims_read_back_what_was_written() {
    let mut b = ClaimBook::new();
    b.set_claim("characters/xiaoming", "alice", "2026-01-01T00:00:00Z");
    b.set_claim("props/sword", "bob", "2026-01-02T00:00:00Z");
    assert_eq!(b.claimer("characters/xiaoming"), Some("alice".to_string()));
    assert_eq!(b.claimer("props/sword"), Some("bob".to_string()));
    assert_eq!(b.claimer("props/shield"), None);
    b.set_claim("props/sword", "carol", "2026-01-03T00:00:00Z");
    assert_eq!(b.claimer("props/sword"), Some("carol".to_string()));
    assert_eq!(b.entries().len(), 2);
}

#[test]
fn claims_move_and_remove() {
    let mut b = ClaimBook::new();
    b.set_claim("characters/a", "alice", "t1");
    b.move_claim("characters/a", "characters/b");
    assert_eq!(b.claimer("characters/a"), None);
    assert_eq!(b.claimer("characters/b"), Some("alice".to_string()));
    b.move_claim("characters/zzz", "characters/c");
    assert_eq!(b.claimer("characters/c"), None);
    b.move_claim("characters/b", "characters/a");
    assert_eq!(claim_pairs(&b), vec![("characters/a".to_string(), Some("alice".to_string()))]);
    b.remove_claim("characters/a");
    assert_eq!(b.claimer("characters/a"), None);
    assert!(b.entries().is_empty());
}

#[test]
fn claim_book_from_entries_keeps_later_duplicate() {
    let c = |o: Option<&str>| Claim { owner: o.map(String::from), claimed_at: None };
    let b = ClaimBook::from_entries(vec![
        ("props/a".to_string(), c(Some("x"))),
        ("props/b".to_string(), c(None)),
        ("props/a".to_string(), c(Some("y"))),
    ]);
    assert_eq!(b.claimer("props/a"), Some("y".to_string()));
    assert_eq!(b.claimer("props/b"), None);
    assert_eq!(b.entries().len(), 2);
}

fn row(stage: &str, channel: Option<&str>, bytes: u64, p: u64, c: u64, at: &str) -> CostRow {
    CostRow {
        stage: stage.into(),
        channel_id: channel.map(String::from),
        bytes,
        prompt_tokens: p,
        completion_tokens: c,
        created_at: at.into(),
    }
}

fn sample_rows() -> Vec<CostRow> {
    vec![
        row("story", Some("ch-1"), 0, 100, 50, "2026-09-01T10:00:00Z"),
        row("image", None, 2048, 0, 0, "2026-09-01T11:00:00Z"),
        row("story", Some("ch-2"), 0, 10, 5, "2026-09-02T09:00:00Z"),
        row("video", Some("ch-1"), 4096, 0, 0, "2026-09-02T10:00:00Z"),
    ]
}

#[test]
fn cost_groups_by_stage_in_first_seen_order() {
    let g = cost_groups(&sample_rows(), "stage").unwrap();
    assert_eq!(g.keys, vec!["story", "image", "video"]);
    assert_eq!(g.group_of, vec![0, 1, 0, 2]);
    assert_eq!(g.events, vec![2, 1, 1]);
    assert_eq!(g.bytes, vec![0, 2048, 4096]);
    assert_eq!(g.tokens, vec![165, 0, 0]);
    assert_eq!(g.total_bytes, 6144);
    assert_eq!(g.total_tokens, 165);
}

#[test]
fn cost_groups_by_channel_and_day() {
    let g = cost_groups(&sample_rows(), "channel").unwrap();
    assert_eq!(g.keys, vec!["ch-1", "local", "ch-2"]);
    assert_eq!(g.events, vec![2, 1, 1]);
    let d = cost_groups(&sample_rows(), "day").unwrap();
    assert_eq!(d.keys, vec!["2026-09-01", "2026-09-02"]);
    assert_eq!(d.group_of, vec![0, 0, 1, 1]);
    assert_eq!(row_key(&row("x", None, 0, 0, 0, "2026"), CostAxis::Day), "2026");
    let e = group_costs(&vec![], CostAxis::Stage);
    assert!(e.keys.is_empty() && e.total_bytes == 0);
}

#[test]
fn cost_axis_rejects_unknown() {
    assert_eq!(parse_cost_axis("day"), Ok(CostAxis::Day));
    assert_eq!(
        cost_groups(&sample_rows(), "model").unwrap_err(),
        "by 须为 stage|channel|day（当前 model）"
    );
}

#[test]
fn cost_event_tokens_and_source() {
    assert_eq!(priced_token_count(Some((10, 5, 0))), 15);
    assert_eq!(priced_token_count(Some((10, 5, 40))), 40);
    assert_eq!(priced_token_count(None), 0);
    let mr = ModelRef {
        source: "channel".into(),
        channel_id: Some("ch-1".into()),
        capability: "chat".into(),
        model: Some("  ".into()),
    };
    assert_eq!(
        event_source(&Some(mr.clone()), Some("gpt-x".into())),
        ("channel".to_string(), Some("ch-1".to_string()), Some("gpt-x".to_string()))
    );
    let local = ModelRef { source: "local".into(), channel_id: None, capability: "image".into(), model: Some("sd".into()) };
    assert_eq!(event_source(&Some(local), None), ("local".to_string(), None, Some("sd".to_string())));
    assert_eq!(event_source(&None, None), (String::new(), None, None));
}

fn shot(n: u32, characters: &[&str]) -> ScriptShot {
    ScriptShot {
        shot: n,
        desc: String::new(),
        image_prompt: String::new(),
        video_prompt: String::new(),
        line: String::new(),
        duration_secs: 5,
        characters: characters.iter().map(|s| s.to_string()).collect(),
        props: vec![],
        pets: vec![],
        scenes: vec![],
        actions: vec![],
    }
}

#[test]
fn shots_naming_sorted_and_deduplicated() {
    let shots = vec![shot(3, &["小明"]), shot(1, &["小红", "小明"]), shot(3, &["小明"]), shot(2, &["小红"])];
    assert_eq!(shots_naming(&shots, "小明"), vec![1, 3]);
    assert_eq!(shots_naming(&shots, "小红"), vec![1, 2]);
    assert_eq!(shots_naming(&shots, "老陈"), Vec::<u32>::new());
}

fn fe(name: &str, bytes: u64) -> FileEntry {
    FileEntry { name: name.into(), bytes }
}

#[test]
fn artifacts_merge_output_dirs_and_sort() {
    let base = vec![fe("script.json", 10), fe("final.mp4", 1), fe("bgm.mp3", 5)];
    let export = vec![fe("final.mp4", 900), fe("_about.md", 3)];
    let dist = vec![fe("final-v2.mp4", 800)];
    let r = merge_artifacts(&base, &vec![export, dist]);
    let got: Vec<(String, u64)> = r.into_iter().map(|e| (e.name, e.bytes)).collect();
    assert_eq!(
        got,
        vec![
            ("bgm.mp3".to_string(), 5),
            ("final-v2.mp4".to_string(), 800),
            ("final.mp4".to_string(), 900),
            ("script.json".to_string(), 10),
        ]
    );
}

fn project(dir: &str, export_dir: Option<&str>) -> FilmProject {
    FilmProject {
        id: "film-001".into(),
        title: String::new(),
        idea: String::new(),
        ratio: "16:9".into(),
        style_hint: None,
        status: "draft".into(),
        dir: dir.into(),
        export_dir: export_dir.map(String::from),
        created_at: String::new(),
        updated_at: String::new(),
    }
}

#[test]
fn artifact_dirs_skip_blank_and_same_export_dir() {
    assert_eq!(artifact_dirs(&project("/d/p/", None)), vec!["/d/p/hub/dist"]);
    assert_eq!(
        artifact_dirs(&project("/d/p", Some(" /out "))),
        vec!["/out", "/d/p/hub/dist"]
    );
    assert_eq!(artifact_dirs(&project("/d/p", Some("/d/p"))), vec!["/d/p/hub/dist"]);
    assert_eq!(artifact_dirs(&project("/d/p", Some("  "))), vec!["/d/p/hub/dist"]);
}

#[test]
fn view_files_take_stems_and_sort() {
    let files = vec![fe("side.png", 3), fe("README", 1), fe("front.v2.png", 2), fe("back.jpg", 4)];
    let got: Vec<(String, String, u64)> = view_files(&files)
        .into_iter()
        .map(|v| (v.stem, v.file, v.bytes))
        .collect();
    assert_eq!(
        got,
        vec![
            ("back".to_string(), "back.jpg".to_string(), 4),
            ("front.v2".to_string(), "front.v2.png".to_string(), 2),
            ("side".to_string(), "side.png".to_string(), 3),
        ]
    );
}
