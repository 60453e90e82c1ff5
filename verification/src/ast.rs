//! The data model: qualifiers, types, and function declarations, with their
//! mathematical views and well-formedness.

use vstd::prelude::*;
use crate::basic::{lex_identifier_nondigit, identifier_end, Lex};

verus! {

/// Represents a C type qualifier.
#[derive(Debug, Clone, Copy, PartialEq, Eq, Structural)]
pub enum TypeQualifier {
    /// The const type qualifier.
    Const,
    /// The restrict type qualifier.
    Restrict,
    /// The volatile type qualifier.
    Volatile,
    /// The _Atomic type qualifier.
    Atomic,
}

/// Represents a type in C: an ordered qualifier list, one specifier keyword
/// from a fixed set, and a pointer depth.
///
/// This supports only a subset of possible C types: the specifier is a
/// single keyword, so multi-word specifiers are unsupported.
#[derive(Debug)]
pub struct Type {
    /// The qualifiers used in this type.
    pub qualifiers: Vec<TypeQualifier>,
    /// The specifier used for this type.
    pub specifier: String,
    /// The amount of pointer indirections on this type.
    pub pointer: usize,
}

/// The mathematical view of a [`Type`].
#[verifier::ext_equal]
pub struct TypeView {
    pub qualifiers: Seq<TypeQualifier>,
    pub specifier: Seq<char>,
    pub pointer: nat,
}

impl View for Type {
    type V = TypeView;

    open spec fn view(&self) -> TypeView {
        TypeView {
            qualifiers: self.qualifiers@,
            specifier: self.specifier@,
            pointer: self.pointer as nat,
        }
    }
}

/// Represents a C function prototype.
#[derive(Debug)]
pub struct Function {
    /// The return type of the function.
    pub return_type: Type,
    /// The name identifying the function.
    pub name: String,
    /// The parameters of the function.
    pub parameters: Vec<(Type, String)>,
}

/// The mathematical view of a [`Function`].
#[verifier::ext_equal]
pub struct FunctionView {
    pub return_type: TypeView,
    pub name: Seq<char>,
    pub parameters: Seq<(TypeView, Seq<char>)>,
}

impl View for Function {
    type V = FunctionView;

    open spec fn view(&self) -> FunctionView {
        FunctionView {
            return_type: self.return_type@,
            name: self.name@,
            parameters: self.parameters@.map_values(|p: (Type, String)| (p.0@, p.1@)),
        }
    }
}

/// Whether `kw` is one of the fixed set of type specifier keywords.
pub open spec fn is_specifier_keyword(kw: Seq<char>) -> bool {
    ||| kw == "void"@
    ||| kw == "char"@
    ||| kw == "short"@
    ||| kw == "int"@
    ||| kw == "long"@
    ||| kw == "float"@
    ||| kw == "double"@
    ||| kw == "signed"@
    ||| kw == "unsigned"@
    ||| kw == "_Bool"@
    ||| kw == "_Complex"@
    ||| kw == "size_t"@
}

/// `q` is composed of nondigits, digits and well-formed escapes, does not
/// begin with a digit, and maximal-munch lexing consumes all of it.
pub open spec fn is_identifier_text(q: Seq<char>) -> bool {
    match lex_identifier_nondigit(q, 0) {
        Lex::Take(e0) => identifier_end(q, e0) == q.len(),
        _ => false,
    }
}

/// A well-formed type: its specifier is drawn from the fixed keyword set.
pub open spec fn wf_type(t: TypeView) -> bool {
    is_specifier_keyword(t.specifier)
}

/// A well-formed declaration: well-formed types throughout and valid
/// identifiers as names.
pub open spec fn wf_function(f: FunctionView) -> bool {
    &&& wf_type(f.return_type)
    &&& is_identifier_text(f.name)
    &&& forall|i: int| 0 <= i < f.parameters.len() ==> wf_type(#[trigger] f.parameters[i].0)
    &&& forall|i: int|
        0 <= i < f.parameters.len() ==> is_identifier_text(#[trigger] f.parameters[i].1)
}

} // verus!
