//! The tool's own bookkeeping record: when updates were last checked for,
//! and which version that check saw.

use vstd::prelude::*;

verus! {

/// The record's content.
pub struct DataContent {
    pub last_update_check: u64,
    pub last_checked_version: Option<String>,
}

impl Default for DataContent {
    fn default() -> (r: Self)
        ensures
            r.last_update_check == 0,
            r.last_checked_version is None,
    {
        DataContent { last_update_check: 0, last_checked_version: None }
    }
}

/// The record, together with the path it is kept under.
pub struct Data {
    pub path: String,
    pub content: DataContent,
}

impl Data {
    /// A fresh record under `path`.
    pub fn new(path: String) -> (r: Data)
        ensures
            r.path@ == path@,
            r.content.last_update_check == 0,
            r.content.last_checked_version is None,
    {
        Data {
            path,
            content: DataContent { last_update_check: 0, last_checked_version: None },
        }
    }

    /// An owned copy of the record's content.
    pub fn get_content(&self) -> (r: DataContent)
        ensures
            r.last_update_check == self.content.last_update_check,
            match r.last_checked_version {
                Option::Some(v) => self.content.last_checked_version is Some
                    && v@ == self.content.last_checked_version->0@,
                Option::None => self.content.last_checked_version is None,
            },
    {
        DataContent {
            last_update_check: self.content.last_update_check,
            last_checked_version: match &self.content.last_checked_version {
                Some(v) => Some(v.clone()),
                None => None,
            },
        }
    }

    /// Records an update check: when it ran and what version it saw.
    pub fn set_content(&mut self, last_update_check: u64, version: String)
        ensures
            final(self).path == old(self).path,
            final(self).content.last_update_check == last_update_check,
            final(self).content.last_checked_version == Option::Some(version),
    {
        self.content = DataContent {
            last_update_check,
            last_checked_version: Some(version),
        };
    }
}

} // verus!
