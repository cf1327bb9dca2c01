//! Errors of parsing, resolution and tree building.

use vstd::prelude::*;

verus! {

/// Which part of a definition could not be read.
#[derive(Clone, Copy, PartialEq, Eq, Structural, Debug)]
pub enum ParseErrorKind {
    /// A qualified type name whose package or short name is empty.
    BadTypeName,
    /// A field line that does not start with a type token.
    BadType,
    /// A field line whose type token is not followed by a field name.
    BadField,
    /// An array bound that does not fit in `isize`.
    BadArraySize,
}

#[derive(Debug)]
pub enum IntrospectionError {
    /// Malformed text; `text` is the offending type name or line.
    Parse { kind: ParseErrorKind, text: String },
    /// The first definition of a bundle names no type and no root type was given.
    UnspecifiedType,
    /// The definition store holds no text for this package and message name.
    DefinitionNotFound { package: String, name: String },
    /// The type is already being expanded further up the tree.
    CyclicDefinition { package: String, name: String },
}

/// The mathematical content of an [`IntrospectionError`].
pub enum ErrorView {
    Parse(ParseErrorKind, Seq<char>),
    UnspecifiedType,
    DefinitionNotFound(Seq<char>, Seq<char>),
    CyclicDefinition(Seq<char>, Seq<char>),
}

impl View for IntrospectionError {
    type V = ErrorView;

    open spec fn view(&self) -> ErrorView {
        match self {
            IntrospectionError::Parse { kind, text } => ErrorView::Parse(*kind, text@),
            IntrospectionError::UnspecifiedType => ErrorView::UnspecifiedType,
            IntrospectionError::DefinitionNotFound { package, name } => ErrorView::DefinitionNotFound(
                package@,
                name@,
            ),
            IntrospectionError::CyclicDefinition { package, name } => ErrorView::CyclicDefinition(
                package@,
                name@,
            ),
        }
    }
}

} // verus!
