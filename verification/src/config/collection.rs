//! A named collection of puzzles, as a configuration file delivers it.

use vstd::prelude::*;

use crate::puzzle::config::PuzzleConfig;

verus! {

/// A collection of puzzles with its display metadata.
#[derive(Debug, Clone)]
pub struct PuzzleConfigCollection {
    name: String,
    description: Option<String>,
    author: String,
    puzzles: Vec<PuzzleConfig>,
}

impl PuzzleConfigCollection {
    pub closed spec fn spec_name(self) -> Seq<char> {
        self.name@
    }

    pub closed spec fn spec_description(self) -> Option<String> {
        self.description
    }

    pub closed spec fn spec_author(self) -> Seq<char> {
        self.author@
    }

    pub closed spec fn spec_puzzles(self) -> Seq<PuzzleConfig> {
        self.puzzles@
    }

    pub fn new(
        name: String,
        description: Option<String>,
        author: String,
        puzzles: Vec<PuzzleConfig>,
    ) -> (res: PuzzleConfigCollection)
        ensures
            res.spec_name() == name@,
            res.spec_description() == description,
            res.spec_author() == author@,
            res.spec_puzzles() == puzzles@,
    {
        PuzzleConfigCollection { name, description, author, puzzles }
    }

    pub fn name(&self) -> (r: &str)
        ensures
            r@ == self.spec_name(),
    {
        self.name.as_str()
    }

    pub fn description(&self) -> (r: &Option<String>)
        ensures
            *r == self.spec_description(),
    {
        &self.description
    }

    pub fn author(&self) -> (r: &str)
        ensures
            r@ == self.spec_author(),
    {
        self.author.as_str()
    }

    pub fn puzzles(&self) -> (r: &Vec<PuzzleConfig>)
        ensures
            r@ == self.spec_puzzles(),
    {
        &self.puzzles
    }
}

} // verus!
