use vstd::prelude::*;
use crate::common::{CompileError, ErrorKind, Keyword, Position, Type};
use crate::parser::grammar::kw_type;

verus! {

/// The type that a type keyword names: `int` or `bool`; any other keyword is
/// an error at `pos`.
pub fn keyword_to_type(kw: &Keyword, pos: &Position) -> (r: Result<Type, CompileError>)
    ensures
        match kw_type(*kw) {
            Some(t) => r == Ok::<Type, CompileError>(t),
            None => r matches Err(e) && e.position == *pos && e.kind == ErrorKind::Parse,
        },
{
    match kw {
        Keyword::Int => Ok(Type::Int),
        Keyword::Bool => Ok(Type::Bool),
        _ => Err(CompileError::new(ErrorKind::Parse, "Unknown type found", *pos)),
    }
}

} // verus!
