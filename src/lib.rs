//! Social-graph and content-visibility engine of an ephemeral sharing service:
//! friendships, groups, direct and group messages, geotagged stories that
//! expire after a day, and proximity queries over them.

pub mod media;
pub mod model;
pub mod friends;
pub mod groups;
pub mod messages;
pub mod ranking;
pub mod stories;
pub mod users;
pub mod api_response;
pub mod auth;
pub mod text;
mod clock;
