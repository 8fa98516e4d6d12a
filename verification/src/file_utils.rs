//! How a path is shown.

use vstd::prelude::*;

verus! {

/// A path as text: as it was given and, where the file system could
/// resolve it, in its canonical form.
pub struct ResolvedPath {
    pub given: String,
    pub canonical: Option<String>,
}

pub trait FileUtils {
    /// The text that shows the path.
    spec fn path_str(&self) -> Seq<char>;

    /// The path as a text to show.
    fn get_path_str(&self) -> (s: String)
        ensures
            s@ == self.path_str(),
    ;
}

impl FileUtils for ResolvedPath {
    /// The canonical form where there is one, else the path as given.
    open spec fn path_str(&self) -> Seq<char> {
        match self.canonical {
            Some(full) => full@,
            None => self.given@,
        }
    }

    fn get_path_str(&self) -> (s: String) {
        if let Some(full) = &self.canonical {
            return full.clone();
        }
        self.given.clone()
    }
}

} // verus!
