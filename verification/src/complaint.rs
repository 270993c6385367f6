//! What is wrong, and what it came of.

use crate::text::{clone_strings, views};
use vstd::prelude::*;

verus! {

/// What is wrong, with what it came of: the nearest cause first, each the cause of the one
/// before it.
#[derive(Debug, PartialEq, Eq)]
pub struct Complaint {
    pub message: String,
    pub causes: Vec<String>,
}

/// A complaint, as values.
pub struct ComplaintView {
    pub message: Seq<char>,
    pub causes: Seq<Seq<char>>,
}

impl View for Complaint {
    type V = ComplaintView;

    open spec fn view(&self) -> ComplaintView {
        ComplaintView { message: self.message@, causes: views(self.causes@) }
    }
}

/// A complaint that came of nothing else.
pub open spec fn plain(message: Seq<char>) -> ComplaintView {
    ComplaintView { message, causes: Seq::empty() }
}

/// A complaint that came of something of which no more is known.
pub open spec fn because_of(message: Seq<char>, cause: Seq<char>) -> ComplaintView {
    over(message, plain(cause))
}

/// A complaint that came of another.
pub open spec fn over(message: Seq<char>, inner: ComplaintView) -> ComplaintView {
    ComplaintView { message, causes: seq![inner.message] + inner.causes }
}

impl Complaint {
    /// A complaint that came of nothing else.
    pub fn new(message: String) -> (r: Self)
        ensures
            r@ == plain(message@),
    {
        let r = Complaint { message, causes: Vec::new() };
        assert(r@.causes =~= Seq::<Seq<char>>::empty());
        r
    }

    /// A complaint that came of something of which no more is known.
    pub fn because(message: String, cause: String) -> (r: Self)
        ensures
            r@ == because_of(message@, cause@),
    {
        Complaint::over(message, Complaint::new(cause))
    }

    /// A complaint that came of another.
    pub fn over(message: String, inner: Complaint) -> (r: Self)
        ensures
            r@ == over(message@, inner@),
    {
        let ghost known = inner@;
        let mut causes = inner.causes;
        causes.insert(0, inner.message);
        let r = Complaint { message, causes };
        assert(r@.causes =~= seq![known.message] + known.causes);
        r
    }
}

impl Clone for Complaint {
    fn clone(&self) -> (r: Self)
        ensures
            r@ == self@,
    {
        let causes = clone_strings(&self.causes);
        Complaint { message: self.message.clone(), causes }
    }
}

} // verus!
