//! One row of the table of pending upgrades.

use vstd::prelude::*;
use crate::words::{is_word, join_words, words};

verus! {

/// A package for which `winget upgrade` lists an update.
#[derive(Debug, PartialEq, Eq)]
pub struct WingetPackage {
    /// The name shown to the user; it may hold spaces.
    pub name: String,
    /// The identifier by which the package manager knows the package.
    pub id: String,
    /// The version that is installed.
    pub current_version: String,
    /// The version that the update would install.
    pub available_version: String,
    /// The repository that offers the update.
    pub source: String,
}

/// What a [`WingetPackage`] holds, as sequences of characters.
pub struct PackageRecord {
    pub name: Seq<char>,
    pub id: Seq<char>,
    pub current_version: Seq<char>,
    pub available_version: Seq<char>,
    pub source: Seq<char>,
}

impl PackageRecord {
    /// What holds of every record that was read from a row: the identifier,
    /// the versions and the source are single words, and the name is one
    /// word or more, with single spaces between them and none at its ends.
    pub open spec fn wf(self) -> bool {
        &&& is_word(self.id)
        &&& is_word(self.current_version)
        &&& is_word(self.available_version)
        &&& is_word(self.source)
        &&& words(self.name).len() >= 1
        &&& self.name == join_words(words(self.name))
    }

    /// The words of a row that stands for this record: the words of the
    /// name, and behind them the four columns.
    pub open spec fn row_words(self) -> Seq<Seq<char>> {
        words(self.name) + seq![
            self.id,
            self.current_version,
            self.available_version,
            self.source,
        ]
    }
}

impl View for WingetPackage {
    type V = PackageRecord;

    open spec fn view(&self) -> PackageRecord {
        PackageRecord {
            name: self.name@,
            id: self.id@,
            current_version: self.current_version@,
            available_version: self.available_version@,
            source: self.source@,
        }
    }
}

impl DeepView for WingetPackage {
    type V = PackageRecord;

    open spec fn deep_view(&self) -> PackageRecord {
        self@
    }
}

impl Clone for WingetPackage {
    fn clone(&self) -> (copy: Self)
        ensures
            copy@ == self@,
    {
        WingetPackage {
            name: self.name.clone(),
            id: self.id.clone(),
            current_version: self.current_version.clone(),
            available_version: self.available_version.clone(),
            source: self.source.clone(),
        }
    }
}

} // verus!
