//! Errors that the scheduler reports to its callers.

use vstd::prelude::*;
use vstd::string::StringExecFns;

verus! {

/// The kinds of failure a request can end in.
#[derive(Clone, Copy, Debug, PartialEq, Eq, Structural)]
pub enum ErrorKind {
    /// A worker or an operation was looked up under an id that is not known.
    NotFound,
    /// A worker reported on an operation that it does not own.
    OwnershipViolation,
    /// A worker tried to register under an id that is already registered.
    AlreadyConnected,
    /// An operation was submitted under an id that is already in the store.
    AlreadyExists,
    /// Something the scheduler depends on failed.
    CollaboratorFailure,
}

/// An error: its kind, and the context that callers added on its way up,
/// innermost first.
#[derive(Debug, PartialEq, Eq)]
pub struct Error {
    pub kind: ErrorKind,
    pub context: Vec<String>,
}

/// The mathematical value of an [`Error`].
pub struct ErrorView {
    pub kind: ErrorKind,
    pub context: Seq<Seq<char>>,
}

/// The characters of each string of a sequence.
pub open spec fn strings_view(strings: Seq<String>) -> Seq<Seq<char>> {
    strings.map_values(|s: String| s@)
}

/// The name under which a kind appears in a description.
pub open spec fn kind_name(kind: ErrorKind) -> Seq<char> {
    match kind {
        ErrorKind::NotFound => "NotFound"@,
        ErrorKind::OwnershipViolation => "OwnershipViolation"@,
        ErrorKind::AlreadyConnected => "AlreadyConnected"@,
        ErrorKind::AlreadyExists => "AlreadyExists"@,
        ErrorKind::CollaboratorFailure => "CollaboratorFailure"@,
    }
}

/// The text of an error: the kind's name, then each piece of context after
/// a colon and a space, in the order in which it was added.
pub open spec fn description(name: Seq<char>, context: Seq<Seq<char>>) -> Seq<char>
    decreases context.len(),
{
    if context.len() == 0 {
        name
    } else {
        description(name, context.drop_last()) + ": "@ + context.last()
    }
}

/// An error of the given kind that carries no context.
pub open spec fn plain(kind: ErrorKind) -> ErrorView {
    ErrorView { kind, context: Seq::empty() }
}

impl View for Error {
    type V = ErrorView;

    open spec fn view(&self) -> ErrorView {
        ErrorView { kind: self.kind, context: strings_view(self.context@) }
    }
}

impl ErrorKind {
    /// The name of the kind, as [`kind_name`] gives it.
    pub fn name(self) -> (name: String)
        ensures
            name@ == kind_name(self),
    {
        match self {
            ErrorKind::NotFound => String::from_str("NotFound"),
            ErrorKind::OwnershipViolation => String::from_str("OwnershipViolation"),
            ErrorKind::AlreadyConnected => String::from_str("AlreadyConnected"),
            ErrorKind::AlreadyExists => String::from_str("AlreadyExists"),
            ErrorKind::CollaboratorFailure => String::from_str("CollaboratorFailure"),
        }
    }
}

impl Error {
    /// An error of the given kind with no context.
    pub fn new(kind: ErrorKind) -> (error: Error)
        ensures
            error@ == plain(kind),
    {
        let error = Error { kind, context: Vec::new() };
        assert(strings_view(error.context@) =~= Seq::empty());
        error
    }

    /// The same error with one more piece of context, which says what the
    /// caller was doing when it failed.
    pub fn err_tip(self, tip: &str) -> (error: Error)
        ensures
            error@.kind == self@.kind,
            error@.context == self@.context.push(tip@),
    {
        let mut error = self;
        error.context.push(String::from_str(tip));
        assert(strings_view(error.context@) =~= strings_view(self.context@).push(tip@));
        error
    }

    /// Whether the error says that something was looked up and not found.
    pub fn is_not_found(&self) -> (answer: bool)
        ensures
            answer == (self@.kind == ErrorKind::NotFound),
    {
        self.kind == ErrorKind::NotFound
    }

    /// The text of the error, as [`description`] gives it.
    pub fn describe(&self) -> (text: String)
        ensures
            text@ == description(kind_name(self@.kind), self@.context),
    {
        let mut text = self.kind.name();
        let mut i: usize = 0;
        while i < self.context.len()
            invariant
                i <= self.context.len(),
                text@ == description(kind_name(self.kind), strings_view(self.context@).take(i as int)),
            decreases self.context.len() - i,
        {
            let ghost before = strings_view(self.context@).take(i as int);
            let ghost after = strings_view(self.context@).take(i + 1);
            text.append(": ");
            text.append(self.context[i].as_str());
            assert(after.drop_last() =~= before);
            assert(after.last() == self.context@[i as int]@);
            i = i + 1;
        }
        assert(strings_view(self.context@).take(i as int) =~= strings_view(self.context@));
        text
    }
}

} // verus!
