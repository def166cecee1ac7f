//! Browser descriptions and the plain records their stores yield.

use vstd::prelude::*;

verus! {

/// The engine family a browser belongs to.
#[derive(Debug, Clone, Copy, PartialEq, Eq, Structural)]
pub enum Driver {
    BLINK,
    QUANTUM,
}

/// One browser installation: its identifier, profile path, engine family,
/// and whether the profile was found present.
#[derive(Debug, Clone)]
pub struct Browser {
    pub id: String,
    pub path: String,
    pub driver: Driver,
    pub support: bool,
}

impl Browser {
    /// Describes a browser; the caller reports whether the profile path
    /// exists.
    pub fn new(id: String, path: String, driver: Driver, support: bool) -> (r: Browser)
        ensures
            r.id@ == id@,
            r.path@ == path@,
            r.driver == driver,
            r.support == support,
    {
        Browser { id, path, driver, support }
    }

    /// Whether the profile was found present.
    pub fn is_present(&self) -> (r: bool)
        ensures
            r == self.support,
    {
        self.support
    }
}

/// One download record.
#[derive(Debug, Clone)]
pub struct DownloadDat {
    pub browser: String,
    pub file: String,
    pub url: String,
    pub timestamp: i64,
}

/// One page-visit record.
#[derive(Debug, Clone)]
pub struct VisitDat {
    pub browser: String,
    pub title: String,
    pub url: String,
    pub timestamp: i64,
}

/// One cache record.
#[derive(Debug, Clone)]
pub struct CacheDat {
    pub browser: String,
    pub url: String,
}

} // verus!
