//! RustFox core logic: request preparation, script state, WebSocket policy,
//! token cache, update selection and editor helpers, each with its contract.

pub mod text;
pub mod model;
pub mod string_map;
pub mod codec;
pub mod client;
pub mod script;
pub mod ws;
pub mod oauth_cache;
pub mod updater;
pub mod highlight;
pub mod editor;
pub mod lines;
pub mod state;
pub mod feedback;
pub mod openapi_import;
