//! The HTTP surface of the film component: the routes it declares with
//! their access rules, and the routing of a request to the endpoint that
//! serves it, with the path parameters it captures.
use vstd::prelude::*;
use crate::paths::{path_segments, segments};
use crate::text::{chars_eq, chars_of, strs};

verus! {

/// Request method.
#[derive(Debug, Clone, Copy, PartialEq, Eq, Structural)]
pub enum HttpMethod {
    Get,
    Post,
    Put,
    Delete,
}

/// A declared route: method, path pattern (`:name` one segment, `*` the
/// rest), owning component and access rule.
#[derive(Debug, Clone)]
pub struct RouteSpec {
    pub method: HttpMethod,
    pub path: String,
    pub handler_component: String,
    pub requires_auth: bool,
    pub required_roles: Vec<String>,
}

/// What a declared route is: its method and path, owned by `film`; open to
/// all when `admin` is false, for the `admin` role alone otherwise.
pub open spec fn declares(r: RouteSpec, method: HttpMethod, path: Seq<char>, admin: bool) -> bool {
    &&& r.method == method
    &&& r.path@ == path
    &&& r.handler_component@ == "film"@
    &&& r.requires_auth == admin
    &&& strs(r.required_roles@) == if admin {
        seq!["admin"@]
    } else {
        Seq::<Seq<char>>::empty()
    }
}

/// A route of the film component that only administrators may call.
pub fn spec_admin(method: HttpMethod, path: &str) -> (r: RouteSpec)
    ensures
        declares(r, method, path@, true),
{
    let mut roles: Vec<String> = Vec::new();
    roles.push(String::from_str("admin"));
    assert(strs(roles@) =~= seq!["admin"@]);
    RouteSpec {
        method,
        path: String::from_str(path),
        handler_component: String::from_str("film"),
        requires_auth: true,
        required_roles: roles,
    }
}

/// A route of the film component open to every caller.
pub fn spec_public(method: HttpMethod, path: &str) -> (r: RouteSpec)
    ensures
        declares(r, method, path@, false),
{
    let roles: Vec<String> = Vec::new();
    assert(strs(roles@) =~= Seq::<Seq<char>>::empty());
    RouteSpec {
        method,
        path: String::from_str(path),
        handler_component: String::from_str("film"),
        requires_auth: false,
        required_roles: roles,
    }
}

/// The project, character, task and tool routes, and the story document
/// pipeline (clean, chapterize, profile): method, path, admin only.
pub open spec fn film_table() -> Seq<(HttpMethod, Seq<char>, bool)> {
    seq![
        (HttpMethod::Post, "/api/v1/film/projects"@, true),
        (HttpMethod::Get, "/api/v1/film/projects"@, false),
        (HttpMethod::Get, "/api/v1/film/projects/:id"@, false),
        (HttpMethod::Put, "/api/v1/film/projects/:id"@, true),
        (HttpMethod::Delete, "/api/v1/film/projects/:id"@, true),
        (HttpMethod::Post, "/api/v1/film/projects/:id/script"@, true),
        (HttpMethod::Post, "/api/v1/film/projects/:id/shots/:n/image"@, true),
        (HttpMethod::Post, "/api/v1/film/projects/:id/shots/:n/video"@, true),
        (HttpMethod::Post, "/api/v1/film/projects/:id/shots/:n/tts"@, true),
        (HttpMethod::Post, "/api/v1/film/projects/:id/music"@, true),
        (HttpMethod::Post, "/api/v1/film/projects/:id/compose"@, true),
        (HttpMethod::Get, "/api/v1/film/projects/:id/characters"@, false),
        (HttpMethod::Post, "/api/v1/film/projects/:id/characters"@, true),
        (HttpMethod::Put, "/api/v1/film/characters/:cid"@, true),
        (HttpMethod::Delete, "/api/v1/film/characters/:cid"@, true),
        (HttpMethod::Post, "/api/v1/film/projects/:id/characters/:cid/portrait"@, true),
        (HttpMethod::Post, "/api/v1/film/projects/:id/characters/:cid/portrait/generate"@, true),
        (HttpMethod::Post, "/api/v1/film/projects/:id/refs"@, true),
        (HttpMethod::Get, "/api/v1/film/tasks"@, false),
        (HttpMethod::Get, "/api/v1/film/tasks/:id"@, false),
        (HttpMethod::Get, "/api/v1/film/tools"@, false),
        (HttpMethod::Post, "/api/v1/film/projects/:id/story/clean"@, true),
        (HttpMethod::Post, "/api/v1/film/projects/:id/story/chapterize"@, true),
        (HttpMethod::Post, "/api/v1/film/projects/:id/story/profile"@, true),
    ]
}

/// The FilmHub routes: method, path, admin only.
pub open spec fn hub_table() -> Seq<(HttpMethod, Seq<char>, bool)> {
    seq![
        (HttpMethod::Post, "/api/v1/film/projects/:id/story/import"@, true),
        (HttpMethod::Post, "/api/v1/film/projects/:id/story/generate"@, true),
        (HttpMethod::Post, "/api/v1/film/projects/:id/storyboard/generate"@, true),
        (HttpMethod::Post, "/api/v1/film/projects/:id/casting/extract"@, true),
        (HttpMethod::Get, "/api/v1/film/projects/:id/casting/:type"@, false),
        (HttpMethod::Post, "/api/v1/film/projects/:id/casting/:type"@, true),
        (HttpMethod::Put, "/api/v1/film/projects/:id/casting/:type/:name"@, true),
        (HttpMethod::Delete, "/api/v1/film/projects/:id/casting/:type/:name"@, true),
        (HttpMethod::Post, "/api/v1/film/projects/:id/casting/:type/:name/views/generate"@, true),
        (HttpMethod::Post, "/api/v1/film/projects/:id/casting/:type/:name/views/import"@, true),
        (HttpMethod::Get, "/api/v1/film/projects/:id/audio/bgm"@, false),
        (HttpMethod::Post, "/api/v1/film/projects/:id/audio/bgm"@, true),
        (HttpMethod::Delete, "/api/v1/film/projects/:id/audio/bgm/:track"@, true),
        (HttpMethod::Post, "/api/v1/film/projects/:id/audio/bgm/:track/generate"@, true),
        (HttpMethod::Post, "/api/v1/film/projects/:id/cache/:file/commit"@, true),
        (HttpMethod::Get, "/api/v1/film/projects/:id/files"@, false),
        (HttpMethod::Get, "/api/v1/film/projects/:id/files/*"@, false),
        (HttpMethod::Put, "/api/v1/film/projects/:id/files/*"@, true),
        (HttpMethod::Post, "/api/v1/film/projects/:id/export"@, true),
        (HttpMethod::Post, "/api/v1/film/projects/:id/import"@, true),
        (HttpMethod::Get, "/api/v1/film/projects/:id/cost"@, false),
    ]
}

/// The routes hold exactly the entries of the table, in order.
pub open spec fn declares_table(rs: Seq<RouteSpec>, t: Seq<(HttpMethod, Seq<char>, bool)>) -> bool {
    rs.len() == t.len() && forall|i: int|
        0 <= i < rs.len() ==> declares(#[trigger] rs[i], t[i].0, t[i].1, t[i].2)
}

/// The access rule of the whole component: reads (`GET`) are public, every
/// other method is for administrators.
pub open spec fn reads_public_writes_admin(t: Seq<(HttpMethod, Seq<char>, bool)>) -> bool {
    forall|i: int| 0 <= i < t.len() ==> (#[trigger] t[i]).2 == (t[i].0 != HttpMethod::Get)
}

/// The project, character, task and tool routes, and the story document
/// pipeline routes.
pub fn film_routes() -> (r: Vec<RouteSpec>)
    ensures
        declares_table(r@, film_table()),
        reads_public_writes_admin(film_table()),
{
    let r = vec![
        spec_admin(HttpMethod::Post, "/api/v1/film/projects"),
        spec_public(HttpMethod::Get, "/api/v1/film/projects"),
        spec_public(HttpMethod::Get, "/api/v1/film/projects/:id"),
        spec_admin(HttpMethod::Put, "/api/v1/film/projects/:id"),
        spec_admin(HttpMethod::Delete, "/api/v1/film/projects/:id"),
        spec_admin(HttpMethod::Post, "/api/v1/film/projects/:id/script"),
        spec_admin(HttpMethod::Post, "/api/v1/film/projects/:id/shots/:n/image"),
        spec_admin(HttpMethod::Post, "/api/v1/film/projects/:id/shots/:n/video"),
        spec_admin(HttpMethod::Post, "/api/v1/film/projects/:id/shots/:n/tts"),
        spec_admin(HttpMethod::Post, "/api/v1/film/projects/:id/music"),
        spec_admin(HttpMethod::Post, "/api/v1/film/projects/:id/compose"),
        spec_public(HttpMethod::Get, "/api/v1/film/projects/:id/characters"),
        spec_admin(HttpMethod::Post, "/api/v1/film/projects/:id/characters"),
        spec_admin(HttpMethod::Put, "/api/v1/film/characters/:cid"),
        spec_admin(HttpMethod::Delete, "/api/v1/film/characters/:cid"),
        spec_admin(HttpMethod::Post, "/api/v1/film/projects/:id/characters/:cid/portrait"),
        spec_admin(HttpMethod::Post, "/api/v1/film/projects/:id/characters/:cid/portrait/generate"),
        spec_admin(HttpMethod::Post, "/api/v1/film/projects/:id/refs"),
        spec_public(HttpMethod::Get, "/api/v1/film/tasks"),
        spec_public(HttpMethod::Get, "/api/v1/film/tasks/:id"),
        spec_public(HttpMethod::Get, "/api/v1/film/tools"),
        spec_admin(HttpMethod::Post, "/api/v1/film/projects/:id/story/clean"),
        spec_admin(HttpMethod::Post, "/api/v1/film/projects/:id/story/chapterize"),
        spec_admin(HttpMethod::Post, "/api/v1/film/projects/:id/story/profile"),
    ];
    assert(declares_table(r@, film_table()));
    r
}

/// The FilmHub routes.
pub fn hub_routes() -> (r: Vec<RouteSpec>)
    ensures
        declares_table(r@, hub_table()),
        reads_public_writes_admin(hub_table()),
{
    let r = vec![
        spec_admin(HttpMethod::Post, "/api/v1/film/projects/:id/story/import"),
        spec_admin(HttpMethod::Post, "/api/v1/film/projects/:id/story/generate"),
        spec_admin(HttpMethod::Post, "/api/v1/film/projects/:id/storyboard/generate"),
        spec_admin(HttpMethod::Post, "/api/v1/film/projects/:id/casting/extract"),
        spec_public(HttpMethod::Get, "/api/v1/film/projects/:id/casting/:type"),
        spec_admin(HttpMethod::Post, "/api/v1/film/projects/:id/casting/:type"),
        spec_admin(HttpMethod::Put, "/api/v1/film/projects/:id/casting/:type/:name"),
        spec_admin(HttpMethod::Delete, "/api/v1/film/projects/:id/casting/:type/:name"),
        spec_admin(HttpMethod::Post, "/api/v1/film/projects/:id/casting/:type/:name/views/generate"),
        spec_admin(HttpMethod::Post, "/api/v1/film/projects/:id/casting/:type/:name/views/import"),
        spec_public(HttpMethod::Get, "/api/v1/film/projects/:id/audio/bgm"),
        spec_admin(HttpMethod::Post, "/api/v1/film/projects/:id/audio/bgm"),
        spec_admin(HttpMethod::Delete, "/api/v1/film/projects/:id/audio/bgm/:track"),
        spec_admin(HttpMethod::Post, "/api/v1/film/projects/:id/audio/bgm/:track/generate"),
        spec_admin(HttpMethod::Post, "/api/v1/film/projects/:id/cache/:file/commit"),
        spec_public(HttpMethod::Get, "/api/v1/film/projects/:id/files"),
        spec_public(HttpMethod::Get, "/api/v1/film/projects/:id/files/*"),
        spec_admin(HttpMethod::Put, "/api/v1/film/projects/:id/files/*"),
        spec_admin(HttpMethod::Post, "/api/v1/film/projects/:id/export"),
        spec_admin(HttpMethod::Post, "/api/v1/film/projects/:id/import"),
        spec_public(HttpMethod::Get, "/api/v1/film/projects/:id/cost"),
    ];
    assert(declares_table(r@, hub_table()));
    r
}

/// Every route of the component: the project routes, then the FilmHub ones.
pub fn all_routes() -> (r: Vec<RouteSpec>)
    ensures
        declares_table(r@, film_table() + hub_table()),
        reads_public_writes_admin(film_table() + hub_table()),
{
    let mut r = film_routes();
    let mut h = hub_routes();
    let ghost a = r@;
    let ghost b = h@;
    r.append(&mut h);
    assert(r@ =~= a + b);
    assert forall|i: int| 0 <= i < r@.len() implies declares(
        #[trigger] r@[i],
        (film_table() + hub_table())[i].0,
        (film_table() + hub_table())[i].1,
        (film_table() + hub_table())[i].2,
    ) by {
        if i >= a.len() {
            assert(r@[i] == b[i - a.len()]);
        }
    }
    r
}

// ---------------------------------------------------------------------------
// Routing
// ---------------------------------------------------------------------------

/// The endpoint a request is routed to.
#[derive(Debug, Clone, Copy, PartialEq, Eq, Structural)]
pub enum Endpoint {
    /// Create a project.
    CreateProject,
    /// List the projects.
    ListProjects,
    /// One project with its artifacts.
    GetProject,
    /// Update a project's fields or script.
    UpdateProject,
    /// Delete a project.
    DeleteProject,
    /// Generate the storyboard script.
    GenerateScript,
    /// Run a shot stage (`image`, `video` or `tts`).
    ShotStage,
    /// Generate the project music.
    GenerateMusic,
    /// Compose the final film.
    Compose,
    /// List the characters.
    ListCharacters,
    /// Create a character.
    CreateCharacter,
    /// Update a character.
    UpdateCharacter,
    /// Delete a character.
    DeleteCharacter,
    /// Upload a character portrait.
    UploadPortrait,
    /// Generate a character portrait.
    GeneratePortrait,
    /// Upload reference images.
    UploadRefs,
    /// List the stage tasks.
    ListTasks,
    /// One stage task.
    GetTask,
    /// The external tools found (ffmpeg).
    Tools,
    /// Import a source text.
    StoryImport,
    /// Generate the story.
    StoryGenerate,
    /// Clean the imported source text.
    StoryClean,
    /// Split the source text into chapters.
    StoryChapterize,
    /// Profile the characters of the source text.
    StoryProfile,
    /// Generate the storyboard.
    StoryboardGenerate,
    /// Extract casting objects from the story.
    CastingExtract,
    /// List the casting objects of a type.
    CastingList,
    /// Create a casting object.
    CastingCreate,
    /// Update a casting object.
    CastingUpdate,
    /// Delete a casting object.
    CastingDelete,
    /// Generate a view of a casting object.
    ViewGenerate,
    /// Import a view of a casting object.
    ViewImport,
    /// List the BGM tracks.
    BgmList,
    /// Create a BGM track.
    BgmCreate,
    /// Delete a BGM track.
    BgmDelete,
    /// Generate a BGM track.
    BgmGenerate,
    /// Promote a trial artifact.
    CacheCommit,
    /// The hub file tree.
    FilesTree,
    /// Read a hub file.
    FilesGet,
    /// Write a hub file.
    FilesPut,
    /// Export the hub.
    Export,
    /// Import into the hub.
    Import,
    /// The cost summary.
    Cost,
}

/// The dispatch arms in order: method, path pattern, endpoint. A pattern
/// segment `:name` captures one segment, `*` captures the rest (at least one).
pub open spec fn arm_table() -> Seq<(HttpMethod, Seq<char>, Endpoint)> {
    seq![
        (HttpMethod::Post, "/api/v1/film/projects"@, Endpoint::CreateProject),
        (HttpMethod::Get, "/api/v1/film/projects"@, Endpoint::ListProjects),
        (HttpMethod::Get, "/api/v1/film/projects/:id"@, Endpoint::GetProject),
        (HttpMethod::Put, "/api/v1/film/projects/:id"@, Endpoint::UpdateProject),
        (HttpMethod::Delete, "/api/v1/film/projects/:id"@, Endpoint::DeleteProject),
        (HttpMethod::Post, "/api/v1/film/projects/:id/script"@, Endpoint::GenerateScript),
        (HttpMethod::Post, "/api/v1/film/projects/:id/shots/:n/:stage"@, Endpoint::ShotStage),
        (HttpMethod::Post, "/api/v1/film/projects/:id/music"@, Endpoint::GenerateMusic),
        (HttpMethod::Post, "/api/v1/film/projects/:id/compose"@, Endpoint::Compose),
        (HttpMethod::Get, "/api/v1/film/projects/:id/characters"@, Endpoint::ListCharacters),
        (HttpMethod::Post, "/api/v1/film/projects/:id/characters"@, Endpoint::CreateCharacter),
        (HttpMethod::Put, "/api/v1/film/characters/:cid"@, Endpoint::UpdateCharacter),
        (HttpMethod::Delete, "/api/v1/film/characters/:cid"@, Endpoint::DeleteCharacter),
        (HttpMethod::Post, "/api/v1/film/projects/:id/characters/:cid/portrait"@, Endpoint::UploadPortrait),
        (HttpMethod::Post, "/api/v1/film/projects/:id/characters/:cid/portrait/generate"@, Endpoint::GeneratePortrait),
        (HttpMethod::Post, "/api/v1/film/projects/:id/refs"@, Endpoint::UploadRefs),
        (HttpMethod::Get, "/api/v1/film/tasks"@, Endpoint::ListTasks),
        (HttpMethod::Get, "/api/v1/film/tasks/:id"@, Endpoint::GetTask),
        (HttpMethod::Get, "/api/v1/film/tools"@, Endpoint::Tools),
        (HttpMethod::Post, "/api/v1/film/projects/:id/story/import"@, Endpoint::StoryImport),
        (HttpMethod::Post, "/api/v1/film/projects/:id/story/generate"@, Endpoint::StoryGenerate),
        (HttpMethod::Post, "/api/v1/film/projects/:id/story/clean"@, Endpoint::StoryClean),
        (HttpMethod::Post, "/api/v1/film/projects/:id/story/chapterize"@, Endpoint::StoryChapterize),
        (HttpMethod::Post, "/api/v1/film/projects/:id/story/profile"@, Endpoint::StoryProfile),
        (HttpMethod::Post, "/api/v1/film/projects/:id/storyboard/generate"@, Endpoint::StoryboardGenerate),
        (HttpMethod::Post, "/api/v1/film/projects/:id/casting/extract"@, Endpoint::CastingExtract),
        (HttpMethod::Get, "/api/v1/film/projects/:id/casting/:type"@, Endpoint::CastingList),
        (HttpMethod::Post, "/api/v1/film/projects/:id/casting/:type"@, Endpoint::CastingCreate),
        (HttpMethod::Put, "/api/v1/film/projects/:id/casting/:type/:name"@, Endpoint::CastingUpdate),
        (HttpMethod::Delete, "/api/v1/film/projects/:id/casting/:type/:name"@, Endpoint::CastingDelete),
        (HttpMethod::Post, "/api/v1/film/projects/:id/casting/:type/:name/views/generate"@, Endpoint::ViewGenerate),
        (HttpMethod::Post, "/api/v1/film/projects/:id/casting/:type/:name/views/import"@, Endpoint::ViewImport),
        (HttpMethod::Get, "/api/v1/film/projects/:id/audio/bgm"@, Endpoint::BgmList),
        (HttpMethod::Post, "/api/v1/film/projects/:id/audio/bgm"@, Endpoint::BgmCreate),
        (HttpMethod::Delete, "/api/v1/film/projects/:id/audio/bgm/:track"@, Endpoint::BgmDelete),
        (HttpMethod::Post, "/api/v1/film/projects/:id/audio/bgm/:track/generate"@, Endpoint::BgmGenerate),
        (HttpMethod::Post, "/api/v1/film/projects/:id/cache/:file/commit"@, Endpoint::CacheCommit),
        (HttpMethod::Get, "/api/v1/film/projects/:id/files"@, Endpoint::FilesTree),
        (HttpMethod::Get, "/api/v1/film/projects/:id/files/*"@, Endpoint::FilesGet),
        (HttpMethod::Put, "/api/v1/film/projects/:id/files/*"@, Endpoint::FilesPut),
        (HttpMethod::Post, "/api/v1/film/projects/:id/export"@, Endpoint::Export),
        (HttpMethod::Post, "/api/v1/film/projects/:id/import"@, Endpoint::Import),
        (HttpMethod::Get, "/api/v1/film/projects/:id/cost"@, Endpoint::Cost),
    ]
}

/// The views of the exec arms.
pub open spec fn arm_views(a: Seq<(HttpMethod, &str, Endpoint)>) -> Seq<(HttpMethod, Seq<char>, Endpoint)> {
    a.map_values(|x: (HttpMethod, &str, Endpoint)| (x.0, x.1@, x.2))
}

/// Whether a pattern segment captures one path segment (`:name`).
pub open spec fn is_capture(p: Seq<char>) -> bool {
    p.len() > 0 && p[0] == ':'
}

/// The segments a pattern captures from a path, when the path fits it:
/// literal segments must be equal, `:name` takes one segment, a final `*`
/// takes all remaining segments (at least one).
pub open spec fn match_segs(pat: Seq<Seq<char>>, segs: Seq<Seq<char>>) -> Option<Seq<Seq<char>>>
    decreases pat.len(),
{
    if pat.len() == 0 {
        if segs.len() == 0 {
            Some(seq![])
        } else {
            None
        }
    } else if pat[0] == seq!['*'] {
        if pat.len() == 1 && segs.len() > 0 {
            Some(segs)
        } else {
            None
        }
    } else if segs.len() == 0 {
        None
    } else if is_capture(pat[0]) {
        match match_segs(pat.drop_first(), segs.drop_first()) {
            Some(c) => Some(seq![segs[0]] + c),
            None => None,
        }
    } else if pat[0] == segs[0] {
        match_segs(pat.drop_first(), segs.drop_first())
    } else {
        None
    }
}

/// The first arm with the request's method whose pattern fits its segments,
/// with what the pattern captured.
pub open spec fn dispatch(
    arms: Seq<(HttpMethod, Seq<char>, Endpoint)>,
    m: HttpMethod,
    segs: Seq<Seq<char>>,
) -> Option<(Endpoint, Seq<Seq<char>>)>
    decreases arms.len(),
{
    if arms.len() == 0 {
        None
    } else if arms[0].0 == m && match_segs(segments(arms[0].1), segs) is Some {
        Some((arms[0].2, match_segs(segments(arms[0].1), segs)->0))
    } else {
        dispatch(arms.drop_first(), m, segs)
    }
}

fn arms() -> (r: Vec<(HttpMethod, &'static str, Endpoint)>)
    ensures
        arm_views(r@) == arm_table(),
{
    let r = vec![
        (HttpMethod::Post, "/api/v1/film/projects", Endpoint::CreateProject),
        (HttpMethod::Get, "/api/v1/film/projects", Endpoint::ListProjects),
        (HttpMethod::Get, "/api/v1/film/projects/:id", Endpoint::GetProject),
        (HttpMethod::Put, "/api/v1/film/projects/:id", Endpoint::UpdateProject),
        (HttpMethod::Delete, "/api/v1/film/projects/:id", Endpoint::DeleteProject),
        (HttpMethod::Post, "/api/v1/film/projects/:id/script", Endpoint::GenerateScript),
        (HttpMethod::Post, "/api/v1/film/projects/:id/shots/:n/:stage", Endpoint::ShotStage),
        (HttpMethod::Post, "/api/v1/film/projects/:id/music", Endpoint::GenerateMusic),
        (HttpMethod::Post, "/api/v1/film/projects/:id/compose", Endpoint::Compose),
        (HttpMethod::Get, "/api/v1/film/projects/:id/characters", Endpoint::ListCharacters),
        (HttpMethod::Post, "/api/v1/film/projects/:id/characters", Endpoint::CreateCharacter),
        (HttpMethod::Put, "/api/v1/film/characters/:cid", Endpoint::UpdateCharacter),
        (HttpMethod::Delete, "/api/v1/film/characters/:cid", Endpoint::DeleteCharacter),
        (HttpMethod::Post, "/api/v1/film/projects/:id/characters/:cid/portrait", Endpoint::UploadPortrait),
        (HttpMethod::Post, "/api/v1/film/projects/:id/characters/:cid/portrait/generate", Endpoint::GeneratePortrait),
        (HttpMethod::Post, "/api/v1/film/projects/:id/refs", Endpoint::UploadRefs),
        (HttpMethod::Get, "/api/v1/film/tasks", Endpoint::ListTasks),
        (HttpMethod::Get, "/api/v1/film/tasks/:id", Endpoint::GetTask),
        (HttpMethod::Get, "/api/v1/film/tools", Endpoint::Tools),
        (HttpMethod::Post, "/api/v1/film/projects/:id/story/import", Endpoint::StoryImport),
        (HttpMethod::Post, "/api/v1/film/projects/:id/story/generate", Endpoint::StoryGenerate),
        (HttpMethod::Post, "/api/v1/film/projects/:id/story/clean", Endpoint::StoryClean),
        (HttpMethod::Post, "/api/v1/film/projects/:id/story/chapterize", Endpoint::StoryChapterize),
        (HttpMethod::Post, "/api/v1/film/projects/:id/story/profile", Endpoint::StoryProfile),
        (HttpMethod::Post, "/api/v1/film/projects/:id/storyboard/generate", Endpoint::StoryboardGenerate),
        (HttpMethod::Post, "/api/v1/film/projects/:id/casting/extract", Endpoint::CastingExtract),
        (HttpMethod::Get, "/api/v1/film/projects/:id/casting/:type", Endpoint::CastingList),
        (HttpMethod::Post, "/api/v1/film/projects/:id/casting/:type", Endpoint::CastingCreate),
        (HttpMethod::Put, "/api/v1/film/projects/:id/casting/:type/:name", Endpoint::CastingUpdate),
        (HttpMethod::Delete, "/api/v1/film/projects/:id/casting/:type/:name", Endpoint::CastingDelete),
        (HttpMethod::Post, "/api/v1/film/projects/:id/casting/:type/:name/views/generate", Endpoint::ViewGenerate),
        (HttpMethod::Post, "/api/v1/film/projects/:id/casting/:type/:name/views/import", Endpoint::ViewImport),
        (HttpMethod::Get, "/api/v1/film/projects/:id/audio/bgm", Endpoint::BgmList),
        (HttpMethod::Post, "/api/v1/film/projects/:id/audio/bgm", Endpoint::BgmCreate),
        (HttpMethod::Delete, "/api/v1/film/projects/:id/audio/bgm/:track", Endpoint::BgmDelete),
        (HttpMethod::Post, "/api/v1/film/projects/:id/audio/bgm/:track/generate", Endpoint::BgmGenerate),
        (HttpMethod::Post, "/api/v1/film/projects/:id/cache/:file/commit", Endpoint::CacheCommit),
        (HttpMethod::Get, "/api/v1/film/projects/:id/files", Endpoint::FilesTree),
        (HttpMethod::Get, "/api/v1/film/projects/:id/files/*", Endpoint::FilesGet),
        (HttpMethod::Put, "/api/v1/film/projects/:id/files/*", Endpoint::FilesPut),
        (HttpMethod::Post, "/api/v1/film/projects/:id/export", Endpoint::Export),
        (HttpMethod::Post, "/api/v1/film/projects/:id/import", Endpoint::Import),
        (HttpMethod::Get, "/api/v1/film/projects/:id/cost", Endpoint::Cost),
    ];
    assert(arm_views(r@) =~= arm_table());
    r
}

/// `c` followed by the captures, when there are any.
pub open spec fn prepend(c: Seq<Seq<char>>, o: Option<Seq<Seq<char>>>) -> Option<Seq<Seq<char>>> {
    match o {
        Some(x) => Some(c + x),
        None => None,
    }
}

fn match_pattern(pat: &Vec<String>, segs: &Vec<String>) -> (r: Option<Vec<String>>)
    ensures
        match (r, match_segs(strs(pat@), strs(segs@))) {
            (Some(c), Some(x)) => strs(c@) == x,
            (None, None) => true,
            _ => false,
        },
{
    let ghost ps = strs(pat@);
    let ghost ss = strs(segs@);
    let mut caps: Vec<String> = Vec::new();
    let mut i: usize = 0;
    assert(ps.skip(0) =~= ps);
    assert(ss.skip(0) =~= ss);
    assert(Seq::<Seq<char>>::empty() + ss =~= ss);
    loop
        invariant
            i <= pat@.len(),
            i <= segs@.len(),
            ps == strs(pat@),
            ss == strs(segs@),
            match_segs(ps, ss) == prepend(strs(caps@), match_segs(ps.skip(i as int), ss.skip(i as int))),
        decreases pat@.len() - i,
    {
        let ghost p_rest = ps.skip(i as int);
        let ghost s_rest = ss.skip(i as int);
        if i == pat.len() {
            if i == segs.len() {
                assert(strs(caps@) + Seq::<Seq<char>>::empty() =~= strs(caps@));
                return Some(caps);
            }
            return None;
        }
        assert(p_rest[0] == ps[i as int]);
        assert(p_rest.drop_first() =~= ps.skip(i + 1));
        let p = chars_of(pat[i].as_str());
        let star: Vec<char> = vec!['*'];
        assert(star@ =~= seq!['*']);
        if chars_eq(&p, &star) {
            if i + 1 == pat.len() && i < segs.len() {
                let ghost base = strs(caps@);
                let mut j = i;
                assert(ss.subrange(i as int, i as int) =~= Seq::<Seq<char>>::empty());
                assert(base + Seq::<Seq<char>>::empty() =~= base);
                while j < segs.len()
                    invariant
                        i <= j <= segs@.len(),
                        ss == strs(segs@),
                        strs(caps@) == base + ss.subrange(i as int, j as int),
                    decreases segs@.len() - j,
                {
                    let ghost before = strs(caps@);
                    caps.push(segs[j].clone());
                    assert(strs(caps@) =~= before.push(ss[j as int]));
                    assert(base + ss.subrange(i as int, j + 1) =~= before.push(ss[j as int]));
                    j = j + 1;
                }
                assert(ss.subrange(i as int, segs@.len() as int) =~= s_rest);
                assert(p_rest.len() == 1);
                return Some(caps);
            }
            return None;
        }
        if i == segs.len() {
            return None;
        }
        assert(s_rest[0] == ss[i as int]);
        assert(s_rest.drop_first() =~= ss.skip(i + 1));
        if p.len() > 0 && p[0] == ':' {
            let ghost before = strs(caps@);
            caps.push(segs[i].clone());
            assert(strs(caps@) =~= before.push(ss[i as int]));
            assert forall|c: Seq<Seq<char>>| #[trigger] (before + (seq![ss[i as int]] + c)) =~= before.push(
                ss[i as int],
            ) + c by {}
        } else {
            let sc = chars_of(segs[i].as_str());
            if !chars_eq(&p, &sc) {
                return None;
            }
        }
        i = i + 1;
    }
}

/// The number of arms of the component's own routes; the arms after them
/// are served under an existing project (the FilmHub routes).
pub const FILM_ARMS: usize = 19;

/// A dispatch over two tables in turn is the dispatch over the first, else
/// over the second.
pub proof fn lemma_dispatch_concat(
    a: Seq<(HttpMethod, Seq<char>, Endpoint)>,
    b: Seq<(HttpMethod, Seq<char>, Endpoint)>,
    m: HttpMethod,
    segs: Seq<Seq<char>>,
)
    ensures
        dispatch(a + b, m, segs) == match dispatch(a, m, segs) {
            Some(x) => Some(x),
            None => dispatch(b, m, segs),
        },
    decreases a.len(),
{
    if a.len() > 0 {
        assert((a + b).drop_first() =~= a.drop_first() + b);
        assert((a + b)[0] == a[0]);
        lemma_dispatch_concat(a.drop_first(), b, m, segs);
    } else {
        assert(a + b =~= b);
    }
}

fn route_span(method: HttpMethod, path: &str, lo: usize, hi: usize) -> (r: Option<(Endpoint, Vec<String>)>)
    requires
        lo <= hi <= arm_table().len(),
    ensures
        match (r, dispatch(arm_table().subrange(lo as int, hi as int), method, segments(path@))) {
            (Some((e, c)), Some((e2, c2))) => e == e2 && strs(c@) == c2,
            (None, None) => true,
            _ => false,
        },
{
    let segs = path_segments(path);
    let table = arms();
    let ghost t = arm_table().subrange(lo as int, hi as int);
    let ghost sv = segments(path@);
    let mut i: usize = lo;
    assert(arm_table().subrange(lo as int, hi as int) =~= arm_table().subrange(i as int, hi as int));
    while i < hi
        invariant
            lo <= i <= hi,
            hi <= arm_table().len(),
            arm_views(table@) == arm_table(),
            t == arm_table().subrange(lo as int, hi as int),
            sv == segments(path@),
            strs(segs@) == sv,
            dispatch(t, method, sv) == dispatch(arm_table().subrange(i as int, hi as int), method, sv),
        decreases hi - i,
    {
        let ghost rest = arm_table().subrange(i as int, hi as int);
        assert(rest.drop_first() =~= arm_table().subrange(i + 1, hi as int));
        assert(rest[0] == arm_table()[i as int]);
        assert(table@.len() == arm_table().len());
        let (m, pat, e) = table[i];
        assert(arm_table()[i as int] == (m, pat@, e));
        if m == method {
            let ps = path_segments(pat);
            match match_pattern(&ps, &segs) {
                Some(c) => {
                    return Some((e, c));
                },
                None => {},
            }
        }
        i = i + 1;
    }
    assert(arm_table().subrange(i as int, hi as int) =~= Seq::<(HttpMethod, Seq<char>, Endpoint)>::empty());
    None
}

/// Routes a request: the first arm whose method is the request's and whose
/// pattern fits the segments of the path (query string ignored), with the
/// segments its pattern captured. `None` when no arm fits.
pub fn route_request(method: HttpMethod, path: &str) -> (r: Option<(Endpoint, Vec<String>)>)
    ensures
        match (r, dispatch(arm_table(), method, segments(path@))) {
            (Some((e, c)), Some((e2, c2))) => e == e2 && strs(c@) == c2,
            (None, None) => true,
            _ => false,
        },
{
    assert(arm_table().subrange(0, arm_table().len() as int) =~= arm_table());
    route_span(method, path, 0, 43)
}

/// Routes a request among the component's own arms (see [`FILM_ARMS`]).
pub fn route_film(method: HttpMethod, path: &str) -> (r: Option<(Endpoint, Vec<String>)>)
    ensures
        match (r, dispatch(arm_table().take(FILM_ARMS as int), method, segments(path@))) {
            (Some((e, c)), Some((e2, c2))) => e == e2 && strs(c@) == c2,
            (None, None) => true,
            _ => false,
        },
{
    assert(arm_table().subrange(0, FILM_ARMS as int) =~= arm_table().take(FILM_ARMS as int));
    route_span(method, path, 0, FILM_ARMS)
}

/// Routes a request among the arms served under a project.
pub fn route_hub(method: HttpMethod, path: &str) -> (r: Option<(Endpoint, Vec<String>)>)
    ensures
        match (r, dispatch(arm_table().skip(FILM_ARMS as int), method, segments(path@))) {
            (Some((e, c)), Some((e2, c2))) => e == e2 && strs(c@) == c2,
            (None, None) => true,
            _ => false,
        },
{
    assert(arm_table().subrange(FILM_ARMS as int, 43) =~= arm_table().skip(FILM_ARMS as int));
    route_span(method, path, FILM_ARMS, 43)
}

/// Whether some dispatch arm leads to the endpoint.
pub open spec fn has_arm(e: Endpoint) -> bool {
    exists|i: int| 0 <= i < arm_table().len() && #[trigger] arm_table()[i].2 == e
}

/// The position of an endpoint in the endpoint list.
spec fn endpoint_rank(e: Endpoint) -> int {
    match e {
        Endpoint::CreateProject => 0,
        Endpoint::ListProjects => 1,
        Endpoint::GetProject => 2,
        Endpoint::UpdateProject => 3,
        Endpoint::DeleteProject => 4,
        Endpoint::GenerateScript => 5,
        Endpoint::ShotStage => 6,
        Endpoint::GenerateMusic => 7,
        Endpoint::Compose => 8,
        Endpoint::ListCharacters => 9,
        Endpoint::CreateCharacter => 10,
        Endpoint::UpdateCharacter => 11,
        Endpoint::DeleteCharacter => 12,
        Endpoint::UploadPortrait => 13,
        Endpoint::GeneratePortrait => 14,
        Endpoint::UploadRefs => 15,
        Endpoint::ListTasks => 16,
        Endpoint::GetTask => 17,
        Endpoint::Tools => 18,
        Endpoint::StoryImport => 19,
        Endpoint::StoryGenerate => 20,
        Endpoint::StoryClean => 21,
        Endpoint::StoryChapterize => 22,
        Endpoint::StoryProfile => 23,
        Endpoint::StoryboardGenerate => 24,
        Endpoint::CastingExtract => 25,
        Endpoint::CastingList => 26,
        Endpoint::CastingCreate => 27,
        Endpoint::CastingUpdate => 28,
        Endpoint::CastingDelete => 29,
        Endpoint::ViewGenerate => 30,
        Endpoint::ViewImport => 31,
        Endpoint::BgmList => 32,
        Endpoint::BgmCreate => 33,
        Endpoint::BgmDelete => 34,
        Endpoint::BgmGenerate => 35,
        Endpoint::CacheCommit => 36,
        Endpoint::FilesTree => 37,
        Endpoint::FilesGet => 38,
        Endpoint::FilesPut => 39,
        Endpoint::Export => 40,
        Endpoint::Import => 41,
        Endpoint::Cost => 42,
    }
}

/// Every endpoint is served by exactly one dispatch arm: two arms never lead
/// to the same endpoint, and each endpoint has its arm. A request is thus
/// never taken to the handler of another path (the storyboard for the
/// story, say).
pub proof fn law_one_arm_per_endpoint()
    ensures
        forall|i: int, j: int|
            0 <= i < arm_table().len() && 0 <= j < arm_table().len() && #[trigger] arm_table()[i].2
                == #[trigger] arm_table()[j].2 ==> i == j,
        forall|e: Endpoint| #[trigger] has_arm(e),
{
    assert forall|i: int| 0 <= i < arm_table().len() implies endpoint_rank(#[trigger] arm_table()[i].2) == i by {
        if i == 0 {
            assert(arm_table()[0].2 == Endpoint::CreateProject);
        } else if i == 1 {
            assert(arm_table()[1].2 == Endpoint::ListProjects);
        } else if i == 2 {
            assert(arm_table()[2].2 == Endpoint::GetProject);
        } else if i == 3 {
            assert(arm_table()[3].2 == Endpoint::UpdateProject);
        } else if i == 4 {
            assert(arm_table()[4].2 == Endpoint::DeleteProject);
        } else if i == 5 {
            assert(arm_table()[5].2 == Endpoint::GenerateScript);
        } else if i == 6 {
            assert(arm_table()[6].2 == Endpoint::ShotStage);
        } else if i == 7 {
            assert(arm_table()[7].2 == Endpoint::GenerateMusic);
        } else if i == 8 {
            assert(arm_table()[8].2 == Endpoint::Compose);
        } else if i == 9 {
            assert(arm_table()[9].2 == Endpoint::ListCharacters);
        } else if i == 10 {
            assert(arm_table()[10].2 == Endpoint::CreateCharacter);
        } else if i == 11 {
            assert(arm_table()[11].2 == Endpoint::UpdateCharacter);
        } else if i == 12 {
            assert(arm_table()[12].2 == Endpoint::DeleteCharacter);
        } else if i == 13 {
            assert(arm_table()[13].2 == Endpoint::UploadPortrait);
        } else if i == 14 {
            assert(arm_table()[14].2 == Endpoint::GeneratePortrait);
        } else if i == 15 {
            assert(arm_table()[15].2 == Endpoint::UploadRefs);
        } else if i == 16 {
            assert(arm_table()[16].2 == Endpoint::ListTasks);
        } else if i == 17 {
            assert(arm_table()[17].2 == Endpoint::GetTask);
        } else if i == 18 {
            assert(arm_table()[18].2 == Endpoint::Tools);
        } else if i == 19 {
            assert(arm_table()[19].2 == Endpoint::StoryImport);
        } else if i == 20 {
            assert(arm_table()[20].2 == Endpoint::StoryGenerate);
        } else if i == 21 {
            assert(arm_table()[21].2 == Endpoint::StoryClean);
        } else if i == 22 {
            assert(arm_table()[22].2 == Endpoint::StoryChapterize);
        } else if i == 23 {
            assert(arm_table()[23].2 == Endpoint::StoryProfile);
        } else if i == 24 {
            assert(arm_table()[24].2 == Endpoint::StoryboardGenerate);
        } else if i == 25 {
            assert(arm_table()[25].2 == Endpoint::CastingExtract);
        } else if i == 26 {
            assert(arm_table()[26].2 == Endpoint::CastingList);
        } else if i == 27 {
            assert(arm_table()[27].2 == Endpoint::CastingCreate);
        } else if i == 28 {
            assert(arm_table()[28].2 == Endpoint::CastingUpdate);
        } else if i == 29 {
            assert(arm_table()[29].2 == Endpoint::CastingDelete);
        } else if i == 30 {
            assert(arm_table()[30].2 == Endpoint::ViewGenerate);
        } else if i == 31 {
            assert(arm_table()[31].2 == Endpoint::ViewImport);
        } else if i == 32 {
            assert(arm_table()[32].2 == Endpoint::BgmList);
        } else if i == 33 {
            assert(arm_table()[33].2 == Endpoint::BgmCreate);
        } else if i == 34 {
            assert(arm_table()[34].2 == Endpoint::BgmDelete);
        } else if i == 35 {
            assert(arm_table()[35].2 == Endpoint::BgmGenerate);
        } else if i == 36 {
            assert(arm_table()[36].2 == Endpoint::CacheCommit);
        } else if i == 37 {
            assert(arm_table()[37].2 == Endpoint::FilesTree);
        } else if i == 38 {
            assert(arm_table()[38].2 == Endpoint::FilesGet);
        } else if i == 39 {
            assert(arm_table()[39].2 == Endpoint::FilesPut);
        } else if i == 40 {
            assert(arm_table()[40].2 == Endpoint::Export);
        } else if i == 41 {
            assert(arm_table()[41].2 == Endpoint::Import);
        } else if i == 42 {
            assert(arm_table()[42].2 == Endpoint::Cost);
        }
    }
    assert forall|e: Endpoint| #[trigger] has_arm(e) by {
        let k = endpoint_rank(e);
        assert(arm_table()[k].2 == e);
    }
}

} // verus!
