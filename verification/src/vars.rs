//! Typed variable values and the variables mapping bound into a GraphQL
//! document.  A value is one of four scalar shapes; the mapping is an
//! ordered sequence of key/value pairs, and the builders only ever add a
//! key once, so keys stay unique.

use vstd::prelude::*;

verus! {

/// The mathematical shape of a variable value.
pub enum ScalarV {
    Null,
    Bool(bool),
    Num(int),
    Str(Seq<char>),
}

/// A variable value: string, integer, boolean or null.
#[derive(Debug, Clone, PartialEq, Eq)]
pub enum Scalar {
    Null,
    Bool(bool),
    Num(i64),
    Str(String),
}

impl View for Scalar {
    type V = ScalarV;

    open spec fn view(&self) -> ScalarV {
        match self {
            Scalar::Null => ScalarV::Null,
            Scalar::Bool(b) => ScalarV::Bool(*b),
            Scalar::Num(n) => ScalarV::Num(*n as int),
            Scalar::Str(s) => ScalarV::Str(s@),
        }
    }
}

/// The view of a sequence of variable bindings.
pub open spec fn vars_view(s: Seq<(String, Scalar)>) -> Seq<(Seq<char>, ScalarV)> {
    Seq::new(s.len(), |i: int| (s[i].0@, s[i].1@))
}

/// A variables mapping: named values bound into a document at execution
/// time.  Insertion order is kept, and a caller never binds a name twice.
#[derive(Debug)]
pub struct Variables {
    pub pairs: Vec<(String, Scalar)>,
}

impl View for Variables {
    type V = Seq<(Seq<char>, ScalarV)>;

    open spec fn view(&self) -> Seq<(Seq<char>, ScalarV)> {
        vars_view(self.pairs@)
    }
}

impl Variables {
    /// An empty mapping.
    pub fn new() -> (r: Self)
        ensures
            r@ =~= Seq::<(Seq<char>, ScalarV)>::empty(),
    {
        let r = Variables { pairs: Vec::new() };
        proof {
            assert(r@ =~= Seq::<(Seq<char>, ScalarV)>::empty());
        }
        r
    }

    /// Binds one more name; the callers only bind names not yet present.
    pub fn push(&mut self, k: String, v: Scalar)
        ensures
            final(self)@ =~= old(self)@.push((k@, v@)),
    {
        self.pairs.push((k, v));
    }

    /// How many names are bound.
    pub fn len(&self) -> (n: usize)
        ensures
            n == self@.len(),
    {
        self.pairs.len()
    }
}

} // verus!
