//! Core of a small personal-site server: documents parsed from
//! metadata-fenced text files, the store decisions around them, the project
//! tag index, the contact-form message shape, and the game-version
//! arithmetic behind the server-download redirects. Everything here is
//! verified; the serving layer around it only routes, reads and sends.

pub mod meta;
pub mod paper;
pub mod post;
pub mod projects;
pub mod site;
pub mod store;
pub mod text;
