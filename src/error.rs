//! Validation errors, their rendering, and compilation errors.

use vstd::prelude::*;
use crate::number::Number;
use crate::text::{digits_text, number_text, push_digits, push_number};
use crate::value::{copy_path, PathSegment};
use vstd::string::StringExecFns;

verus! {

/// Which constraint an instance broke, with the constraint's parameter.
#[derive(Clone, Copy, Debug, PartialEq, Eq, Structural)]
pub enum ErrorKind {
    /// The number `value` is not a multiple of `multiple_of`.
    MultipleOf { value: Number, multiple_of: Number },
    /// The schema is `false`, which no instance satisfies.
    FalseSchema,
}

/// What a validation error says: where it occurred and what was broken.
pub struct ErrorRecord {
    pub path: Seq<PathSegment>,
    pub kind: ErrorKind,
}

/// A violation found by diagnostic validation.
#[derive(Clone, Debug, PartialEq, Eq)]
pub struct ValidationError {
    /// The location of the offending value, from the instance root.
    pub instance_path: Vec<PathSegment>,
    pub kind: ErrorKind,
}

impl View for ValidationError {
    type V = ErrorRecord;

    open spec fn view(&self) -> ErrorRecord {
        ErrorRecord { path: self.instance_path@, kind: self.kind }
    }
}

/// The records of a sequence of errors, in order.
pub open spec fn records(errors: Seq<ValidationError>) -> Seq<ErrorRecord> {
    errors.map_values(|e: ValidationError| e@)
}

/// The text of one path segment: the key itself, or the index in decimal.
pub open spec fn segment_text(seg: PathSegment) -> Seq<char> {
    match seg {
        PathSegment::Key(k) => k@,
        PathSegment::Index(i) => digits_text(i as nat),
    }
}

/// A path as a pointer: each segment preceded by `/`; the root is empty.
pub open spec fn path_text(path: Seq<PathSegment>) -> Seq<char>
    decreases path.len(),
{
    if path.len() == 0 {
        Seq::empty()
    } else {
        path_text(path.drop_last()) + "/"@ + segment_text(path.last())
    }
}

/// The message of an error kind.
pub open spec fn kind_text(kind: ErrorKind) -> Seq<char> {
    match kind {
        ErrorKind::MultipleOf { value, multiple_of } => number_text(value)
            + " is not a multiple of "@ + number_text(multiple_of),
        ErrorKind::FalseSchema => "False schema does not allow the value"@,
    }
}

/// The full text of an error: its message, then where it occurred.
pub open spec fn error_text(e: ErrorRecord) -> Seq<char> {
    kind_text(e.kind) + " at '"@ + path_text(e.path) + "'"@
}

impl ValidationError {
    /// The instance path as a pointer, such as `/items/0`.
    pub fn path_to_string(&self) -> (r: String)
        ensures
            r@ == path_text(self.instance_path@),
    {
        let mut s = String::new();
        let mut i: usize = 0;
        while i < self.instance_path.len()
            invariant
                i <= self.instance_path@.len(),
                s@ == path_text(self.instance_path@.subrange(0, i as int)),
            decreases self.instance_path@.len() - i,
        {
            let ghost before = s@;
            s.append("/");
            match &self.instance_path[i] {
                PathSegment::Key(k) => s.append(k.as_str()),
                PathSegment::Index(j) => push_digits(&mut s, *j as u64),
            }
            proof {
                let p = self.instance_path@.subrange(0, i + 1);
                assert(p.drop_last() =~= self.instance_path@.subrange(0, i as int));
            }
            i = i + 1;
        }
        assert(self.instance_path@.subrange(0, i as int) =~= self.instance_path@);
        s
    }

    /// The message and location of the error, such as
    /// `7 is not a multiple of 3 at '/items/0'`.
    pub fn to_string(&self) -> (r: String)
        ensures
            r@ == error_text(self@),
    {
        let mut s = String::new();
        match &self.kind {
            ErrorKind::MultipleOf { value, multiple_of } => {
                push_number(&mut s, value);
                s.append(" is not a multiple of ");
                push_number(&mut s, multiple_of);
            },
            ErrorKind::FalseSchema => {
                s.append("False schema does not allow the value");
            },
        }
        s.append(" at '");
        let p = self.path_to_string();
        s.append(p.as_str());
        s.append("'");
        assert(s@ =~= error_text(self@));
        s
    }

    /// The error for the number `value` at `path`, which is not a multiple of `multiple_of`.
    pub fn multiple_of(path: &Vec<PathSegment>, value: Number, multiple_of: Number) -> (r:
        ValidationError)
        ensures
            r@ == (ErrorRecord { path: path@, kind: ErrorKind::MultipleOf { value, multiple_of } }),
    {
        ValidationError {
            instance_path: copy_path(path),
            kind: ErrorKind::MultipleOf { value, multiple_of },
        }
    }

    /// The error for an instance at `path` checked against the `false` schema.
    pub fn false_schema(path: &Vec<PathSegment>) -> (r: ValidationError)
        ensures
            r@ == (ErrorRecord { path: path@, kind: ErrorKind::FalseSchema }),
    {
        ValidationError {
            instance_path: copy_path(path),
            kind: ErrorKind::FalseSchema,
        }
    }
}

/// A schema that cannot be compiled.
#[derive(Clone, Copy, Debug, PartialEq, Eq, Structural)]
pub enum CompilationError {
    /// A keyword's value has the wrong JSON type.
    SchemaError,
}

} // verus!
