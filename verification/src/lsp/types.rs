//! Language-server protocol data carried through the library.
use std::collections::HashMap;
use vstd::prelude::*;

verus! {

/// A zero-based line / character position in a text document.
#[derive(Debug, Clone, Copy, PartialEq, Eq, Structural)]
pub struct Position {
    pub line: u32,
    pub character: u32,
}

/// A span between two positions.
#[derive(Debug, Clone, Copy, PartialEq, Eq, Structural)]
pub struct Range {
    pub start: Position,
    pub end: Position,
}

/// A range inside a document named by its URI.
#[derive(Debug, Clone)]
pub struct Location {
    pub uri: String,
    pub range: Range,
}

/// The kinds of symbols a language server reports.
#[derive(Debug, Clone, Copy, PartialEq, Eq, Structural)]
pub enum SymbolKind {
    File,
    Module,
    Namespace,
    Package,
    Class,
    Method,
    Property,
    Field,
    Constructor,
    Enum,
    Interface,
    Function,
    Variable,
    Constant,
    String,
    Number,
    Boolean,
    Array,
    Object,
    Key,
    Null,
    EnumMember,
    Struct,
    Event,
    Operator,
    TypeParameter,
}

/// How serious a diagnostic is.
#[derive(Debug, Clone, Copy, PartialEq, Eq, Structural)]
pub enum DiagnosticSeverity {
    Error,
    Warning,
    Information,
    Hint,
}

/// A compiler or analyzer message attached to a range of a file.
#[derive(Debug, Clone)]
pub struct Diagnostic {
    pub range: Range,
    pub severity: Option<DiagnosticSeverity>,
    pub code: Option<String>,
    pub source: Option<String>,
    pub message: String,
}

/// A node of a document's symbol tree.
#[derive(Debug)]
pub struct DocumentSymbol {
    pub name: String,
    pub kind: SymbolKind,
    pub range: Range,
    pub selection_range: Range,
    pub children: Option<Vec<DocumentSymbol>>,
}

/// A flat symbol as answered by a workspace symbol search.
#[derive(Debug, Clone)]
pub struct SymbolInformation {
    pub name: String,
    pub kind: SymbolKind,
    pub location: Location,
    pub container_name: Option<String>,
}

/// One end of a call-hierarchy edge.
#[derive(Debug, Clone)]
pub struct CallHierarchyItem {
    pub name: String,
    pub kind: SymbolKind,
    pub uri: String,
    pub range: Range,
    pub selection_range: Range,
}

/// A caller of some item, with the ranges of its calls.
#[derive(Debug, Clone)]
pub struct CallHierarchyIncomingCall {
    pub from: CallHierarchyItem,
    pub from_ranges: Vec<Range>,
}

/// A callee of some item, with the ranges of the calls.
#[derive(Debug, Clone)]
pub struct CallHierarchyOutgoingCall {
    pub to: CallHierarchyItem,
    pub from_ranges: Vec<Range>,
}

/// Replace the text of `range` by `new_text`.
#[derive(Debug, Clone)]
pub struct TextEdit {
    pub range: Range,
    pub new_text: String,
}

/// A document named by URI, with an optional version.
#[derive(Debug, Clone)]
pub struct OptionalVersionedTextDocumentIdentifier {
    pub uri: String,
    pub version: Option<i32>,
}

/// Text edits for one document.
#[derive(Debug, Clone)]
pub struct TextDocumentEdit {
    pub text_document: OptionalVersionedTextDocumentIdentifier,
    pub edits: Vec<TextEdit>,
}

/// A file-level operation of a workspace edit.
#[derive(Debug, Clone)]
pub enum ResourceOperation {
    Create { uri: String },
    Rename { old_uri: String, new_uri: String },
    Delete { uri: String },
}

/// One step of the rich form of a workspace edit.
#[derive(Debug, Clone)]
pub enum DocumentChange {
    Edit(TextDocumentEdit),
    Operation(ResourceOperation),
}

/// Changes to many documents at once.
#[derive(Debug, Clone)]
pub struct WorkspaceEdit {
    pub changes: Option<HashMap<String, Vec<TextEdit>>>,
    pub document_changes: Option<Vec<DocumentChange>>,
}

/// A refactoring or fix offered by the language server.
#[derive(Debug, Clone)]
pub struct CodeAction {
    pub title: String,
    pub kind: Option<String>,
    pub edit: Option<WorkspaceEdit>,
    pub is_preferred: Option<bool>,
}


/// The variant name of a symbol kind, as `{:?}` prints it.
pub open spec fn kind_debug_name(k: SymbolKind) -> Seq<char> {
    match k {
        SymbolKind::File => "File"@,
        SymbolKind::Module => "Module"@,
        SymbolKind::Namespace => "Namespace"@,
        SymbolKind::Package => "Package"@,
        SymbolKind::Class => "Class"@,
        SymbolKind::Method => "Method"@,
        SymbolKind::Property => "Property"@,
        SymbolKind::Field => "Field"@,
        SymbolKind::Constructor => "Constructor"@,
        SymbolKind::Enum => "Enum"@,
        SymbolKind::Interface => "Interface"@,
        SymbolKind::Function => "Function"@,
        SymbolKind::Variable => "Variable"@,
        SymbolKind::Constant => "Constant"@,
        SymbolKind::String => "String"@,
        SymbolKind::Number => "Number"@,
        SymbolKind::Boolean => "Boolean"@,
        SymbolKind::Array => "Array"@,
        SymbolKind::Object => "Object"@,
        SymbolKind::Key => "Key"@,
        SymbolKind::Null => "Null"@,
        SymbolKind::EnumMember => "EnumMember"@,
        SymbolKind::Struct => "Struct"@,
        SymbolKind::Event => "Event"@,
        SymbolKind::Operator => "Operator"@,
        SymbolKind::TypeParameter => "TypeParameter"@,
    }
}

/// The variant name of a symbol kind in lower case.
pub open spec fn kind_lower_name(k: SymbolKind) -> Seq<char> {
    match k {
        SymbolKind::File => "file"@,
        SymbolKind::Module => "module"@,
        SymbolKind::Namespace => "namespace"@,
        SymbolKind::Package => "package"@,
        SymbolKind::Class => "class"@,
        SymbolKind::Method => "method"@,
        SymbolKind::Property => "property"@,
        SymbolKind::Field => "field"@,
        SymbolKind::Constructor => "constructor"@,
        SymbolKind::Enum => "enum"@,
        SymbolKind::Interface => "interface"@,
        SymbolKind::Function => "function"@,
        SymbolKind::Variable => "variable"@,
        SymbolKind::Constant => "constant"@,
        SymbolKind::String => "string"@,
        SymbolKind::Number => "number"@,
        SymbolKind::Boolean => "boolean"@,
        SymbolKind::Array => "array"@,
        SymbolKind::Object => "object"@,
        SymbolKind::Key => "key"@,
        SymbolKind::Null => "null"@,
        SymbolKind::EnumMember => "enummember"@,
        SymbolKind::Struct => "struct"@,
        SymbolKind::Event => "event"@,
        SymbolKind::Operator => "operator"@,
        SymbolKind::TypeParameter => "typeparameter"@,
    }
}

impl SymbolKind {
    /// The variant name, as `{:?}` prints it.
    pub fn debug_name(&self) -> (r: &'static str)
        ensures
            r@ == kind_debug_name(*self),
    {
        match self {
            SymbolKind::File => "File",
            SymbolKind::Module => "Module",
            SymbolKind::Namespace => "Namespace",
            SymbolKind::Package => "Package",
            SymbolKind::Class => "Class",
            SymbolKind::Method => "Method",
            SymbolKind::Property => "Property",
            SymbolKind::Field => "Field",
            SymbolKind::Constructor => "Constructor",
            SymbolKind::Enum => "Enum",
            SymbolKind::Interface => "Interface",
            SymbolKind::Function => "Function",
            SymbolKind::Variable => "Variable",
            SymbolKind::Constant => "Constant",
            SymbolKind::String => "String",
            SymbolKind::Number => "Number",
            SymbolKind::Boolean => "Boolean",
            SymbolKind::Array => "Array",
            SymbolKind::Object => "Object",
            SymbolKind::Key => "Key",
            SymbolKind::Null => "Null",
            SymbolKind::EnumMember => "EnumMember",
            SymbolKind::Struct => "Struct",
            SymbolKind::Event => "Event",
            SymbolKind::Operator => "Operator",
            SymbolKind::TypeParameter => "TypeParameter",
        }
    }

    /// The variant name in lower case.
    pub fn lower_name(&self) -> (r: &'static str)
        ensures
            r@ == kind_lower_name(*self),
    {
        match self {
            SymbolKind::File => "file",
            SymbolKind::Module => "module",
            SymbolKind::Namespace => "namespace",
            SymbolKind::Package => "package",
            SymbolKind::Class => "class",
            SymbolKind::Method => "method",
            SymbolKind::Property => "property",
            SymbolKind::Field => "field",
            SymbolKind::Constructor => "constructor",
            SymbolKind::Enum => "enum",
            SymbolKind::Interface => "interface",
            SymbolKind::Function => "function",
            SymbolKind::Variable => "variable",
            SymbolKind::Constant => "constant",
            SymbolKind::String => "string",
            SymbolKind::Number => "number",
            SymbolKind::Boolean => "boolean",
            SymbolKind::Array => "array",
            SymbolKind::Object => "object",
            SymbolKind::Key => "key",
            SymbolKind::Null => "null",
            SymbolKind::EnumMember => "enummember",
            SymbolKind::Struct => "struct",
            SymbolKind::Event => "event",
            SymbolKind::Operator => "operator",
            SymbolKind::TypeParameter => "typeparameter",
        }
    }
}

/// Marked-up text with its markup kind.
#[derive(Debug, Clone)]
pub struct MarkupContent {
    pub kind: String,
    pub value: String,
}

/// The contents of a hover answer, in one of the forms the protocol allows.
#[derive(Debug, Clone)]
pub enum HoverContents {
    MarkedString(String),
    MarkupContent(MarkupContent),
    MarkedStringArray(Vec<String>),
}

/// A hover answer.
#[derive(Debug, Clone)]
pub struct Hover {
    pub contents: HoverContents,
}

/// The number the protocol gives a symbol kind (`File` is 1, `TypeParameter` 26).
pub open spec fn kind_number(k: SymbolKind) -> u32 {
    match k {
        SymbolKind::File => 1,
        SymbolKind::Module => 2,
        SymbolKind::Namespace => 3,
        SymbolKind::Package => 4,
        SymbolKind::Class => 5,
        SymbolKind::Method => 6,
        SymbolKind::Property => 7,
        SymbolKind::Field => 8,
        SymbolKind::Constructor => 9,
        SymbolKind::Enum => 10,
        SymbolKind::Interface => 11,
        SymbolKind::Function => 12,
        SymbolKind::Variable => 13,
        SymbolKind::Constant => 14,
        SymbolKind::String => 15,
        SymbolKind::Number => 16,
        SymbolKind::Boolean => 17,
        SymbolKind::Array => 18,
        SymbolKind::Object => 19,
        SymbolKind::Key => 20,
        SymbolKind::Null => 21,
        SymbolKind::EnumMember => 22,
        SymbolKind::Struct => 23,
        SymbolKind::Event => 24,
        SymbolKind::Operator => 25,
        SymbolKind::TypeParameter => 26,
    }
}

impl SymbolKind {
    /// The number the protocol gives this kind.
    pub fn number(&self) -> (r: u32)
        ensures
            r == kind_number(*self),
    {
        match self {
            SymbolKind::File => 1,
            SymbolKind::Module => 2,
            SymbolKind::Namespace => 3,
            SymbolKind::Package => 4,
            SymbolKind::Class => 5,
            SymbolKind::Method => 6,
            SymbolKind::Property => 7,
            SymbolKind::Field => 8,
            SymbolKind::Constructor => 9,
            SymbolKind::Enum => 10,
            SymbolKind::Interface => 11,
            SymbolKind::Function => 12,
            SymbolKind::Variable => 13,
            SymbolKind::Constant => 14,
            SymbolKind::String => 15,
            SymbolKind::Number => 16,
            SymbolKind::Boolean => 17,
            SymbolKind::Array => 18,
            SymbolKind::Object => 19,
            SymbolKind::Key => 20,
            SymbolKind::Null => 21,
            SymbolKind::EnumMember => 22,
            SymbolKind::Struct => 23,
            SymbolKind::Event => 24,
            SymbolKind::Operator => 25,
            SymbolKind::TypeParameter => 26,
        }
    }

    /// The kind the protocol numbers `n`, if any.
    pub fn from_number(n: u32) -> (r: Option<SymbolKind>)
        ensures
            match r {
                Some(k) => kind_number(k) == n,
                None => n < 1 || n > 26,
            },
    {
        match n {
            1 => Some(SymbolKind::File),
            2 => Some(SymbolKind::Module),
            3 => Some(SymbolKind::Namespace),
            4 => Some(SymbolKind::Package),
            5 => Some(SymbolKind::Class),
            6 => Some(SymbolKind::Method),
            7 => Some(SymbolKind::Property),
            8 => Some(SymbolKind::Field),
            9 => Some(SymbolKind::Constructor),
            10 => Some(SymbolKind::Enum),
            11 => Some(SymbolKind::Interface),
            12 => Some(SymbolKind::Function),
            13 => Some(SymbolKind::Variable),
            14 => Some(SymbolKind::Constant),
            15 => Some(SymbolKind::String),
            16 => Some(SymbolKind::Number),
            17 => Some(SymbolKind::Boolean),
            18 => Some(SymbolKind::Array),
            19 => Some(SymbolKind::Object),
            20 => Some(SymbolKind::Key),
            21 => Some(SymbolKind::Null),
            22 => Some(SymbolKind::EnumMember),
            23 => Some(SymbolKind::Struct),
            24 => Some(SymbolKind::Event),
            25 => Some(SymbolKind::Operator),
            26 => Some(SymbolKind::TypeParameter),
            _ => None,
        }
    }
}

/// The number the protocol gives a severity (`Error` is 1, `Hint` 4).
pub open spec fn severity_number(s: DiagnosticSeverity) -> u32 {
    match s {
        DiagnosticSeverity::Error => 1,
        DiagnosticSeverity::Warning => 2,
        DiagnosticSeverity::Information => 3,
        DiagnosticSeverity::Hint => 4,
    }
}

impl DiagnosticSeverity {
    /// The number the protocol gives this severity.
    pub fn number(&self) -> (r: u32)
        ensures
            r == severity_number(*self),
    {
        match self {
            DiagnosticSeverity::Error => 1,
            DiagnosticSeverity::Warning => 2,
            DiagnosticSeverity::Information => 3,
            DiagnosticSeverity::Hint => 4,
        }
    }

    /// The severity the protocol numbers `n`, if any.
    pub fn from_number(n: u32) -> (r: Option<DiagnosticSeverity>)
        ensures
            match r {
                Some(s) => severity_number(s) == n,
                None => n < 1 || n > 4,
            },
    {
        match n {
            1 => Some(DiagnosticSeverity::Error),
            2 => Some(DiagnosticSeverity::Warning),
            3 => Some(DiagnosticSeverity::Information),
            4 => Some(DiagnosticSeverity::Hint),
            _ => None,
        }
    }
}

/// Numbering is one to one: each kind has its own number, so reading back the number of a
/// kind gives that kind.
pub proof fn law_kind_numbers_distinct(a: SymbolKind, b: SymbolKind)
    ensures
        kind_number(a) == kind_number(b) ==> a == b,
        1 <= kind_number(a) <= 26,
{
}

} // verus!
