//! A language-neutral description of what a source file holds.

use vstd::prelude::*;

verus! {

#[derive(Debug)]
pub struct FilePath(pub String);

#[derive(Debug)]
pub struct SymbolId(pub String);

#[derive(Clone, Copy, PartialEq, Eq, Structural, Debug)]
pub enum LanguageId {
    Java,
    Empty,
}

/// A stretch of a source text, from the byte at `start` up to the byte at `end`.
#[derive(Clone, Copy, PartialEq, Eq, Structural, Debug)]
pub struct Span {
    pub start: u32,
    pub end: u32,
}

#[derive(Clone, Copy, PartialEq, Eq, Structural, Debug)]
pub enum SymbolKind {
    Method,
    Class,
    Enum,
    Interface,
    Module,
    Variable,
    Constant,
}

#[derive(Debug)]
pub struct Symbol {
    pub id: SymbolId,
    pub name: String,
    pub kind: SymbolKind,
    pub span: Option<Span>,
}

#[derive(Debug)]
pub struct Import {
    pub path: String,
    pub is_static: bool,
    pub span: Option<Span>,
}

#[derive(Debug)]
pub struct Package {
    pub name: String,
    pub span: Option<Span>,
}

#[derive(Clone, Copy, PartialEq, Eq, Structural, Debug)]
pub enum Severity {
    Error,
    Warning,
    Info,
}

#[derive(Debug)]
pub struct Diagnostic {
    pub severity: Severity,
    pub message: String,
    pub span: Option<Span>,
}

#[derive(Debug)]
pub struct FileIr {
    pub language: LanguageId,
    pub path: FilePath,
    pub package: Option<Package>,
    pub imports: Vec<Import>,
    pub symbols: Vec<Symbol>,
    pub diagnostics: Vec<Diagnostic>,
}

/// Something an adapter for a language may be able to find.
#[derive(Clone, Copy, PartialEq, Eq, Structural, Debug)]
pub enum Capability {
    Symbols,
    Imports,
    BasicTypes,
    ControlFlow,
    DataFlow,
}

/// What an adapter is able to find.
#[derive(Debug)]
pub struct Capabilities {
    pub supported: Vec<Capability>,
}

impl Capabilities {
    pub fn none() -> (capabilities: Capabilities)
        ensures
            capabilities.supported@ == Seq::<Capability>::empty(),
    {
        Capabilities { supported: Vec::new() }
    }

    pub fn from(capabilities: Vec<Capability>) -> (r: Capabilities)
        ensures
            r.supported@ == capabilities@,
    {
        Capabilities { supported: capabilities }
    }

    pub fn supports(&self, capability: Capability) -> (r: bool)
        ensures
            r == self.supported@.contains(capability),
    {
        let mut i: usize = 0;
        while i < self.supported.len()
            invariant
                i <= self.supported.len(),
                forall|j: int| 0 <= j < i ==> self.supported@[j] != capability,
            decreases self.supported.len() - i,
        {
            if self.supported[i] == capability {
                return true;
            }
            i += 1;
        }
        false
    }
}

// ---------------------------------------------------------------------------
// As specifications speak of them
// ---------------------------------------------------------------------------

pub struct SymbolModel {
    pub id: Seq<char>,
    pub name: Seq<char>,
    pub kind: SymbolKind,
    pub span: Option<Span>,
}

pub struct ImportModel {
    pub path: Seq<char>,
    pub is_static: bool,
    pub span: Option<Span>,
}

pub struct PackageModel {
    pub name: Seq<char>,
    pub span: Option<Span>,
}

pub struct DiagnosticModel {
    pub severity: Severity,
    pub message: Seq<char>,
    pub span: Option<Span>,
}

pub struct FileIrModel {
    pub language: LanguageId,
    pub path: Seq<char>,
    pub package: Option<PackageModel>,
    pub imports: Seq<ImportModel>,
    pub symbols: Seq<SymbolModel>,
    pub diagnostics: Seq<DiagnosticModel>,
}

impl View for Symbol {
    type V = SymbolModel;

    open spec fn view(&self) -> SymbolModel {
        SymbolModel { id: self.id.0@, name: self.name@, kind: self.kind, span: self.span }
    }
}

impl View for Import {
    type V = ImportModel;

    open spec fn view(&self) -> ImportModel {
        ImportModel { path: self.path@, is_static: self.is_static, span: self.span }
    }
}

impl View for Package {
    type V = PackageModel;

    open spec fn view(&self) -> PackageModel {
        PackageModel { name: self.name@, span: self.span }
    }
}

impl View for Diagnostic {
    type V = DiagnosticModel;

    open spec fn view(&self) -> DiagnosticModel {
        DiagnosticModel { severity: self.severity, message: self.message@, span: self.span }
    }
}

pub open spec fn symbol_models(v: Seq<Symbol>) -> Seq<SymbolModel> {
    Seq::new(v.len(), |i: int| v[i]@)
}

pub open spec fn import_models(v: Seq<Import>) -> Seq<ImportModel> {
    Seq::new(v.len(), |i: int| v[i]@)
}

pub open spec fn diagnostic_models(v: Seq<Diagnostic>) -> Seq<DiagnosticModel> {
    Seq::new(v.len(), |i: int| v[i]@)
}

impl View for FileIr {
    type V = FileIrModel;

    open spec fn view(&self) -> FileIrModel {
        FileIrModel {
            language: self.language,
            path: self.path.0@,
            package: match self.package {
                Some(p) => Some(p@),
                None => None,
            },
            imports: import_models(self.imports@),
            symbols: symbol_models(self.symbols@),
            diagnostics: diagnostic_models(self.diagnostics@),
        }
    }
}

} // verus!
