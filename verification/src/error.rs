//! What is reported when a simulation is set up with parameters it cannot run on.

use vstd::prelude::*;
use vstd::string::StringExecFns;

verus! {

/// One kind of violated constraint.
#[derive(Clone, Copy, PartialEq, Eq, Structural, Debug)]
pub enum ErrorKind {
    /// A side of the boundary is shorter than the least length allowed.
    Bound,
    /// The size of a grid cell is negative.
    UnitSize,
    /// The reach of the grid is less than one cell.
    Reach,
    /// The time step is zero or negative.
    Dt,
    /// No step is taken per frame.
    StepsPerFrame,
    /// The target temperature or the injection rate is negative.
    ExtCond,
    /// A particle starts outside the boundary.
    Particle,
}

/// The name under which a kind appears in a message.
pub open spec fn kind_name(kind: ErrorKind) -> Seq<char> {
    match kind {
        ErrorKind::Bound => "Bound"@,
        ErrorKind::UnitSize => "UnitSize"@,
        ErrorKind::Reach => "Reach"@,
        ErrorKind::Dt => "Dt"@,
        ErrorKind::StepsPerFrame => "StepsPerFrame"@,
        ErrorKind::ExtCond => "ExtCond"@,
        ErrorKind::Particle => "Particle"@,
    }
}

/// The names of `kinds`, separated by a comma and a space.
pub open spec fn kind_list(kinds: Seq<ErrorKind>) -> Seq<char>
    decreases kinds.len(),
{
    if kinds.len() == 0 {
        Seq::empty()
    } else if kinds.len() == 1 {
        kind_name(kinds[0])
    } else {
        kind_list(kinds.drop_last()) + ", "@ + kind_name(kinds.last())
    }
}

/// The text of the error that lists `kinds`.
pub open spec fn message_text(kinds: Seq<ErrorKind>) -> Seq<char> {
    "InvalidInputError: ["@ + kind_list(kinds) + "]"@
}

fn name_of(kind: ErrorKind) -> (s: &'static str)
    ensures
        s@ == kind_name(kind),
{
    match kind {
        ErrorKind::Bound => "Bound",
        ErrorKind::UnitSize => "UnitSize",
        ErrorKind::Reach => "Reach",
        ErrorKind::Dt => "Dt",
        ErrorKind::StepsPerFrame => "StepsPerFrame",
        ErrorKind::ExtCond => "ExtCond",
        ErrorKind::Particle => "Particle",
    }
}

/// Every constraint that a set of parameters violates, gathered in one value.
#[derive(Debug)]
pub struct InvalidParamError {
    errors: Vec<ErrorKind>,
}

impl View for InvalidParamError {
    type V = Seq<ErrorKind>;

    /// The violated kinds, in the order in which they were found.
    closed spec fn view(&self) -> Seq<ErrorKind> {
        self.errors@
    }
}

impl InvalidParamError {
    pub fn new(errors: Vec<ErrorKind>) -> (e: Self)
        ensures
            e@ == errors@,
    {
        Self { errors }
    }

    /// The violated kinds, in the order in which they were found.
    pub fn kinds(&self) -> (k: &Vec<ErrorKind>)
        ensures
            k@ == self@,
    {
        &self.errors
    }

    /// Whether `kind` is among the violated kinds.
    pub fn has(&self, kind: ErrorKind) -> (b: bool)
        ensures
            b == self@.contains(kind),
    {
        let mut i: usize = 0;
        while i < self.errors.len()
            invariant
                i <= self.errors@.len(),
                forall|j: int| 0 <= j < i ==> self.errors@[j] != kind,
            decreases self.errors@.len() - i,
        {
            if self.errors[i] == kind {
                return true;
            }
            i += 1;
        }
        false
    }

    /// The error as a line of text: the violated kinds by name, in brackets.
    pub fn message(&self) -> (s: String)
        ensures
            s@ == message_text(self@),
    {
        let mut s = String::from_str("InvalidInputError: [");
        let ghost head = s@;
        let mut i: usize = 0;
        assert(self.errors@.take(0) =~= Seq::empty());
        while i < self.errors.len()
            invariant
                i <= self.errors@.len(),
                s@ == head + kind_list(self.errors@.take(i as int)),
            decreases self.errors@.len() - i,
        {
            proof {
                assert(self.errors@.take(i + 1).drop_last() =~= self.errors@.take(i as int));
                assert(self.errors@.take(i + 1).last() == self.errors@[i as int]);
                assert(self.errors@.take(1)[0] == self.errors@[0]);
            }
            if i > 0 {
                s.append(", ");
            }
            s.append(name_of(self.errors[i]));
            proof {
                assert(s@ =~= head + kind_list(self.errors@.take(i + 1)));
            }
            i += 1;
        }
        assert(self.errors@.take(i as int) =~= self.errors@);
        s.append("]");
        s
    }
}

} // verus!
