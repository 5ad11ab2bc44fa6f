//! Pages of text shown by the game: placards and billboards, and the
//! library that holds them.
use vstd::prelude::*;

verus! {

/// One line of a placard, placed at `(x, y)`.
#[derive(Debug, Clone)]
pub struct PlacardLine {
    pub x: usize,
    pub y: usize,
    pub text: String,
}

/// A named page of text.
#[derive(Debug, Clone)]
pub struct Placard {
    pub name: String,
    pub lines: Vec<PlacardLine>,
}

impl Placard {
    /// Whether the placard is called `name`.
    pub fn is_named(&self, name: &str) -> (r: bool)
        ensures
            r == (self.name@ == name@),
    {
        let other = name.to_owned();
        self.name == other
    }

    /// The placard's name.
    pub fn get_name(&self) -> (r: String)
        ensures
            r@ == self.name@,
    {
        self.name.clone()
    }
}

/// One line of a billboard, placed at `(x, y)`.
#[derive(Debug, Clone)]
pub struct BillboardLine {
    pub x: usize,
    pub y: usize,
    pub text: String,
}

/// A page of text, possibly drawn with a border.
#[derive(Debug, Clone)]
pub struct Billboard {
    /// Whether a border is drawn around the text.
    pub placard: bool,
    pub lines: Vec<BillboardLine>,
}

/// The texts of the game.
#[derive(Debug)]
pub struct GameLibrary {
    pub placards: Vec<Placard>,
}

impl GameLibrary {
    /// The number of placards.
    pub fn get_placard_count(&self) -> (r: usize)
        ensures
            r == self.placards@.len(),
    {
        self.placards.len()
    }

    /// The position of the first placard called `name`.
    pub fn find_placard(&self, name: &str) -> (r: Option<usize>)
        ensures
            match r {
                Some(i) => i < self.placards@.len() && self.placards@[i as int].name@ == name@
                    && forall|j: int| 0 <= j < i ==> #[trigger] self.placards@[j].name@ != name@,
                None => forall|j: int|
                    0 <= j < self.placards@.len() ==> #[trigger] self.placards@[j].name@ != name@,
            },
    {
        let mut pp: usize = 0;
        while pp < self.placards.len()
            invariant
                pp <= self.placards@.len(),
                forall|j: int| 0 <= j < pp ==> #[trigger] self.placards@[j].name@ != name@,
            decreases self.placards@.len() - pp,
        {
            if self.placards[pp].is_named(name) {
                return Some(pp);
            }
            pp = pp + 1;
        }
        None
    }

    /// The placard at `index`, if there is one.
    pub fn get_placard(&self, index: usize) -> (r: Option<&Placard>)
        ensures
            index < self.placards@.len() ==> r == Some(&self.placards@[index as int]),
            index >= self.placards@.len() ==> r is None,
    {
        if index < self.placards.len() {
            Some(&self.placards[index])
        } else {
            None
        }
    }
}

} // verus!
