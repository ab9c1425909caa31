use vstd::prelude::*;

verus! {

/// What the pool needs of a competitor record: an identity that tells
/// competitors apart, a way to compare two records by it, and a name.
pub trait Fencer: Sized {
    /// Two records stand for the same competitor exactly when their
    /// identities are equal.
    spec fn identity(&self) -> Seq<char>;

    fn same_fencer(&self, other: &Self) -> (r: bool)
        ensures
            r == (self.identity() == other.identity()),
    ;

    fn get_fullname(&self) -> String;

    /// A copy of the record, standing for the same competitor.
    fn duplicate(&self) -> (r: Self)
        ensures
            r.identity() == self.identity(),
    ;
}

/// A club that a fencer belongs to.
#[derive(Debug, Clone)]
pub struct Club {
    pub full_name: String,
    pub shortname: String,
}

/// A competitor known by name alone.
#[derive(Debug, Clone)]
pub struct SimpleFencer {
    pub name: String,
    pub clubs: Vec<Club>,
}

impl SimpleFencer {
    pub fn new(name: &str) -> (r: SimpleFencer)
        ensures
            r.name@ == name@,
            r.clubs@.len() == 0,
    {
        SimpleFencer { name: name.to_owned(), clubs: Vec::new() }
    }
}

impl Fencer for SimpleFencer {
    open spec fn identity(&self) -> Seq<char> {
        self.name@
    }

    fn same_fencer(&self, other: &Self) -> (r: bool) {
        self.name == other.name
    }

    fn get_fullname(&self) -> (r: String)
        ensures
            r@ == self.name@,
    {
        self.name.clone()
    }

    fn duplicate(&self) -> (r: SimpleFencer) {
        SimpleFencer { name: self.name.clone(), clubs: self.clubs.clone() }
    }
}

impl PartialEq for SimpleFencer {
    fn eq(&self, other: &SimpleFencer) -> (r: bool) {
        self.name == other.name
    }
}

impl vstd::std_specs::cmp::PartialEqSpecImpl for SimpleFencer {
    open spec fn obeys_eq_spec() -> bool {
        true
    }

    open spec fn eq_spec(&self, other: &SimpleFencer) -> bool {
        self.name@ == other.name@
    }
}

impl Eq for SimpleFencer {

}

/// A USA Fencing classification, with the year it was earned.
#[derive(Debug, Clone, Copy, PartialEq, Eq, Structural)]
pub enum Rating {
    A(usize),
    B(usize),
    C(usize),
    D(usize),
    E(usize),
    NoRating,
}

} // verus!
