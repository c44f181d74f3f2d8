use vstd::prelude::*;

verus! {

/// A word as stored in the `words` table.
///
/// `exp_cn` holds the word's explanations as a JSON list of strings, and
/// `status` counts how often the word was answered correctly; a negative
/// status marks a word that no longer takes part in reviews.
#[derive(Debug, PartialEq, Eq)]
pub struct Word {
    pub id: i32,
    pub name: String,
    pub exp_cn: String,
    pub status: i32,
}

impl Clone for Word {
    fn clone(&self) -> (res: Self)
        ensures
            res == *self,
    {
        Word { id: self.id, name: self.name.clone(), exp_cn: self.exp_cn.clone(), status: self.status }
    }
}

/// A word that is about to be inserted: its name and its encoded explanations.
#[derive(Debug, PartialEq, Eq)]
pub struct NewWord<'a> {
    pub name: &'a str,
    pub exp_cn: &'a str,
}

} // verus!
