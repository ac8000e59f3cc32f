use vstd::prelude::*;

verus! {

/// What a host receives after parsing: the id under which the tree was
/// kept (-1 when it was not) and the diagnostics as JSON text.
pub struct ParseResult {
    pub ast_id: i32,
    pub diagnostics: String,
}

/// What a host receives after code generation: the code and the
/// diagnostics as JSON text.
pub struct EmitResult {
    pub code: String,
    pub diagnostics: String,
}

/// What a host receives after a transformation of a kept tree: the id of
/// the new tree (-1 when there is none) and why it failed, if it did.
pub struct TransformResult {
    pub ast_id: i32,
    pub error: String,
}

} // verus!
