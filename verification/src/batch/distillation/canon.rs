use vstd::prelude::*;

verus! {

/// The source languages that the distillation transforms know.
#[derive(Clone, Copy, Debug, PartialEq, Eq, Structural)]
pub enum Language {
    Rust,
    Python,
    JavaScript,
    TypeScript,
    Tsx,
    Java,
    Go,
    C,
    Cpp,
    CSharp,
    Kotlin,
    Swift,
    Ruby,
    /// Any other file kind (documentation, configuration, ...).
    Other,
}

/// A name that a file refers to, with the byte offset of the reference.
pub struct Reference {
    pub name: String,
    pub byte_offset: usize,
}

/// A symbol that a file defines, with the number of references to it.
pub struct CanonSymbol {
    pub name: String,
    pub references: usize,
}

/// What the canon records of one source file.
pub struct FileInfo {
    pub path: String,
    pub language: Language,
    pub symbols: Vec<CanonSymbol>,
    pub references: Vec<Reference>,
    pub original_tokens: usize,
}

} // verus!
