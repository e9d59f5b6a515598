//! The texts that rules were read from.

use vstd::prelude::*;

verus! {

/// One text that rules were read from.
#[derive(Clone, Debug)]
pub struct Source {
    pub filename: Option<String>,
    pub src: String,
}

/// What a source stands for.
pub ghost struct SourceView {
    pub filename: Option<Seq<char>>,
    pub src: Seq<char>,
}

impl View for Source {
    type V = SourceView;

    open spec fn view(&self) -> SourceView {
        SourceView {
            filename: match self.filename {
                Some(name) => Some(name@),
                None => None,
            },
            src: self.src@,
        }
    }
}

/// The texts that the rules of a knowledge base were read from, in the order
/// in which they were recorded.
#[derive(Clone, Debug)]
pub struct Sources {
    pub sources: Vec<Source>,
}

impl View for Sources {
    type V = Seq<SourceView>;

    open spec fn view(&self) -> Seq<SourceView> {
        self.sources@.map_values(|s: Source| s@)
    }
}

impl Default for Sources {
    /// No sources.
    fn default() -> (empty: Sources)
        ensures
            empty@ == Seq::<SourceView>::empty(),
    {
        let empty = Sources { sources: Vec::new() };
        empty
    }
}

impl Sources {
    /// Records `source` and returns its number.
    pub fn add_source(&mut self, source: Source) -> (id: usize)
        ensures
            final(self)@ == old(self)@.push(source@),
            id == old(self)@.len(),
    {
        let id = self.sources.len();
        self.sources.push(source);
        id
    }
}

} // verus!
