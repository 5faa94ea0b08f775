//! The releases of the target engine, and the cell that holds the release
//! that was detected.

use vstd::prelude::*;

verus! {

/// A release of the target engine whose material format is known, oldest
/// first.
#[derive(Clone, Copy, Debug, PartialEq, Eq, Structural)]
pub enum Version {
    V1_18_30,
    V1_19_60,
    V1_20_80,
    V1_21_20,
    V1_21_110,
}

/// What was found out about the running engine: the release whose material
/// format it reads, and whether it is at or above the release from which the
/// light map coordinate loses precision.
#[derive(Clone, Copy, Debug, PartialEq, Eq, Structural)]
pub struct Detection {
    pub version: Option<Version>,
    pub recent: bool,
}

/// A cell that is settled once: the first detection handed to it stays, and
/// every later one is dropped.
#[derive(Clone, Copy, Debug)]
pub struct VersionCache {
    settled: Option<Detection>,
}

impl VersionCache {
    /// What the cell holds, `None` before it is settled.
    pub closed spec fn value(&self) -> Option<Detection> {
        self.settled
    }

    /// A cell that is not settled yet.
    pub fn new() -> (cache: VersionCache)
        ensures
            cache.value() is None,
    {
        VersionCache { settled: None }
    }

    /// What the cell holds, `None` before it is settled.
    pub fn get(&self) -> (held: Option<Detection>)
        ensures
            held == self.value(),
    {
        self.settled
    }

    /// Settles the cell with `detection` unless it is settled already, and
    /// hands back what it holds from then on.
    pub fn settle(&mut self, detection: Detection) -> (held: Detection)
        ensures
            final(self).value() == settled_with(old(self).value(), detection),
            final(self).value() == Some(held),
    {
        match self.settled {
            Some(earlier) => earlier,
            None => {
                self.settled = Some(detection);
                detection
            },
        }
    }

    /// The detected release, once the cell is settled and a release was found.
    pub fn version(&self) -> (version: Option<Version>)
        ensures
            version == match self.value() {
                Some(detection) => detection.version,
                None => None,
            },
    {
        match self.settled {
            Some(detection) => detection.version,
            None => None,
        }
    }

    /// Whether the cell is settled with an engine at or above the release
    /// from which the light map coordinate loses precision.
    pub fn is_recent(&self) -> (recent: bool)
        ensures
            recent == match self.value() {
                Some(detection) => detection.recent,
                None => false,
            },
    {
        match self.settled {
            Some(detection) => detection.recent,
            None => false,
        }
    }
}

/// What a cell that held `held` holds after `detection` was handed to it.
pub open spec fn settled_with(held: Option<Detection>, detection: Detection) -> Option<Detection> {
    match held {
        Some(earlier) => Some(earlier),
        None => Some(detection),
    }
}

/// A cell is settled by the first detection handed to it and keeps it,
/// whatever is handed to it later.
pub proof fn lemma_settled_once(held: Option<Detection>, first: Detection, second: Detection)
    ensures
        settled_with(settled_with(held, first), second) == settled_with(held, first),
        settled_with(None, first) == Some(first),
{
}

} // verus!
