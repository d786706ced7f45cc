//! Verified core of the film production pipeline: prompt construction,
//! script parsing, timeline and ffmpeg argument planning, hub paths and
//! front-matter documents, casting objects and their claims, cost grouping,
//! upload checks, request validation, the route table and install gate, and
//! the steps of the generation stages around their model calls.
pub mod text;
pub mod model;
pub mod media;
pub mod script;
pub mod paths;
pub mod prompts;
pub mod doc;
pub mod hub;
pub mod routes;
pub mod requests;
pub mod tasks;
pub mod codec;
pub mod assets;
pub mod ownership;
pub mod stages;
pub mod claims;
pub mod cost;
pub mod listing;
pub mod uploads;
pub mod casting;
pub mod story;
pub mod channels;
pub mod replies;
pub mod handler;
pub mod generation;
