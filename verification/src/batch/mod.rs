pub mod distillation;
pub mod fidelity;
pub mod resolver;

use vstd::prelude::*;

verus! {

/// A batch of distilled layers on disk, with its manifest.
pub struct Batch {
    pub root: String,
    pub source_root: String,
    pub manifest: BatchManifest,
    pub embedding_provider: String,
}

/// The kinds of symbols that the index records.
#[derive(Debug, Clone, Copy, PartialEq, Eq, Structural)]
pub enum SymbolKind {
    Function,
    Method,
    Class,
    Struct,
    Enum,
    Interface,
    Trait,
    Module,
    Constant,
    Variable,
}

/// The name of a symbol kind, as debug output writes it.
pub open spec fn kind_name(kind: SymbolKind) -> Seq<char> {
    match kind {
        SymbolKind::Function => "Function"@,
        SymbolKind::Method => "Method"@,
        SymbolKind::Class => "Class"@,
        SymbolKind::Struct => "Struct"@,
        SymbolKind::Enum => "Enum"@,
        SymbolKind::Interface => "Interface"@,
        SymbolKind::Trait => "Trait"@,
        SymbolKind::Module => "Module"@,
        SymbolKind::Constant => "Constant"@,
        SymbolKind::Variable => "Variable"@,
    }
}

impl SymbolKind {
    /// The kind's name, as debug output writes it.
    pub fn name(&self) -> (res: String)
        ensures
            res@ == kind_name(*self),
    {
        match self {
            SymbolKind::Function => String::from_str("Function"),
            SymbolKind::Method => String::from_str("Method"),
            SymbolKind::Class => String::from_str("Class"),
            SymbolKind::Struct => String::from_str("Struct"),
            SymbolKind::Enum => String::from_str("Enum"),
            SymbolKind::Interface => String::from_str("Interface"),
            SymbolKind::Trait => String::from_str("Trait"),
            SymbolKind::Module => String::from_str("Module"),
            SymbolKind::Constant => String::from_str("Constant"),
            SymbolKind::Variable => String::from_str("Variable"),
        }
    }
}

/// A symbol of the index, with the lines it spans (numbered from 1).
pub struct Symbol {
    pub name: String,
    pub kind: SymbolKind,
    pub line_start: usize,
    pub line_end: usize,
    pub exported: bool,
    pub signature: Option<String>,
}

/// A source file of the index and its symbols.
pub struct FileInfo {
    pub path: String,
    pub symbols: Vec<Symbol>,
}

/// The manifest of a batch: where its source and canon are, when it was made,
/// and which embedding provider patches its canon.
pub struct BatchManifest {
    pub source: String,
    pub canon: String,
    pub created: String,
    pub embedding_provider: String,
}

/// The embedding provider of a manifest that names none: `none`.
pub fn default_embedding_provider() -> (res: String)
    ensures
        res@ == "none"@,
{
    String::from_str("none")
}

impl Batch {
    /// The batch rooted at `root` with this manifest: its source root is the
    /// manifest's source, and its embedding provider the manifest's.
    pub fn from_manifest(root: String, manifest: BatchManifest) -> (res: Batch)
        ensures
            res.root@ == root@,
            res.source_root@ == manifest.source@,
            res.embedding_provider@ == manifest.embedding_provider@,
            res.manifest == manifest,
    {
        let source_root = manifest.source.clone();
        let embedding_provider = manifest.embedding_provider.clone();
        Batch { root, source_root, manifest, embedding_provider }
    }
}

} // verus!
