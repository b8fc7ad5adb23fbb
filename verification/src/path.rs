//! A small path value; joining puts a single `'/'` between the parts.

use vstd::prelude::*;

verus! {

pub struct Path {
    path: String,
}

impl View for Path {
    type V = Seq<char>;

    closed spec fn view(&self) -> Seq<char> {
        self.path@
    }
}

impl Path {
    /// Wrap a path as given; making it absolute is the application's business.
    pub fn new(path: &str) -> (r: Self)
        ensures
            r@ == path@,
    {
        Path { path: String::from_str(path) }
    }

    pub fn to_str(&self) -> (r: &str)
        ensures
            r@ == self@,
    {
        self.path.as_str()
    }

    pub fn join(self, path: &str) -> (r: Self)
        ensures
            r@ == self@ + "/"@ + path@,
    {
        let mut p = self.path;
        p.append("/");
        p.append(path);
        Path { path: p }
    }
}

} // verus!
