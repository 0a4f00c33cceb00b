//! The project records served by the site: plain data loaded from a
//! configuration file by the I/O layer.
use vstd::prelude::*;

verus! {

/// A named link attached to a project.
#[derive(Debug, Clone, PartialEq)]
pub struct Link {
    pub name: String,
    pub dest: String,
}

/// One project entry: descriptive text, languages, status, source, links and
/// tags.
#[derive(Debug, Clone, PartialEq)]
pub struct Project {
    pub title: String,
    pub description: String,
    pub languages: Vec<String>,
    pub status: String,
    pub source: String,
    pub links: Vec<Link>,
    pub tags: Vec<String>,
}

} // verus!
