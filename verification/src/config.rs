use vstd::prelude::*;

verus! {

/// The settings kept between sessions: the last project opened.
pub struct Config {
    pub latest_project: Option<String>,
}

impl Config {
    /// Settings that remember `latest_project`.
    pub fn new(latest_project: Option<String>) -> (r: Self)
        ensures
            r.latest_project == latest_project,
    {
        Config { latest_project }
    }
}

impl Clone for Config {
    fn clone(&self) -> (r: Self)
        ensures
            r == *self,
    {
        let latest_project = match &self.latest_project {
            Some(p) => Some(p.clone()),
            None => None,
        };
        Config { latest_project }
    }
}

} // verus!
