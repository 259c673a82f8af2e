//! The records a parsed C file contributes to the code graph.
use vstd::prelude::*;

verus! {

/// One call site: the other end of the call, its line, and the file of the calling function.
pub struct CallEdge {
    pub name: String,
    pub line: u32,
    pub caller_file: String,
}

pub struct CallEdgeV {
    pub name: Seq<char>,
    pub line: u32,
    pub caller_file: Seq<char>,
}

impl DeepView for CallEdge {
    type V = CallEdgeV;

    open spec fn deep_view(&self) -> CallEdgeV {
        CallEdgeV { name: self.name@, line: self.line, caller_file: self.caller_file@ }
    }
}

/// A function definition.
pub struct FunctionNode {
    /// Function name
    pub name: String,
    /// Path of the source file that defines the function
    pub file: String,
    /// Line of the definition (of its leading comment, when it has one)
    pub line: u32,
    /// Source text of the definition, leading comments included
    pub source: String,
    /// Preprocessor conditions wrapping the definition, outermost first
    pub conditions: Vec<String>,
    /// true when the function has `static` storage class (file-private)
    pub is_static: bool,
}

pub struct FunctionNodeV {
    pub name: Seq<char>,
    pub file: Seq<char>,
    pub line: u32,
    pub source: Seq<char>,
    pub conditions: Seq<Seq<char>>,
    pub is_static: bool,
}

impl DeepView for FunctionNode {
    type V = FunctionNodeV;

    open spec fn deep_view(&self) -> FunctionNodeV {
        FunctionNodeV {
            name: self.name@,
            file: self.file@,
            line: self.line,
            source: self.source@,
            conditions: self.conditions.deep_view(),
            is_static: self.is_static,
        }
    }
}

/// What a preprocessor symbol is.
#[derive(PartialEq, Eq, Structural, Clone, Copy, Debug)]
pub enum SymbolKind {
    Define,
    MacroFn,
    EnumValue,
}

impl SymbolKind {
    pub open spec fn name_spec(self) -> Seq<char> {
        match self {
            SymbolKind::Define => "define"@,
            SymbolKind::MacroFn => "macro_fn"@,
            SymbolKind::EnumValue => "enum_value"@,
        }
    }

    /// The kind's name as the tools print it.
    pub fn as_str(&self) -> (r: &'static str)
        ensures
            r@ == self.name_spec(),
    {
        let r = match self {
            SymbolKind::Define => "define",
            SymbolKind::MacroFn => "macro_fn",
            SymbolKind::EnumValue => "enum_value",
        };
        proof {
            reveal_strlit("define");
            reveal_strlit("macro_fn");
            reveal_strlit("enum_value");
        }
        r
    }
}

/// What a type definition defines.
#[derive(PartialEq, Eq, Structural, Clone, Copy, Debug)]
pub enum TypeKind {
    Struct,
    Union,
    Enum,
    Typedef,
}

impl TypeKind {
    pub open spec fn name_spec(self) -> Seq<char> {
        match self {
            TypeKind::Struct => "struct"@,
            TypeKind::Union => "union"@,
            TypeKind::Enum => "enum"@,
            TypeKind::Typedef => "typedef"@,
        }
    }

    /// The kind's name as the tools print it.
    pub fn as_str(&self) -> (r: &'static str)
        ensures
            r@ == self.name_spec(),
    {
        let r = match self {
            TypeKind::Struct => "struct",
            TypeKind::Union => "union",
            TypeKind::Enum => "enum",
            TypeKind::Typedef => "typedef",
        };
        proof {
            reveal_strlit("struct");
            reveal_strlit("union");
            reveal_strlit("enum");
            reveal_strlit("typedef");
        }
        r
    }
}

/// A struct / union / enum / typedef definition.
pub struct TypeNode {
    pub name: String,
    pub kind: TypeKind,
    /// Source text of the whole definition, trimmed
    pub definition: String,
    /// Preprocessor conditions wrapping the definition, outermost first
    pub conditions: Vec<String>,
    pub file: String,
    pub line: u32,
}

pub struct TypeNodeV {
    pub name: Seq<char>,
    pub kind: TypeKind,
    pub definition: Seq<char>,
    pub conditions: Seq<Seq<char>>,
    pub file: Seq<char>,
    pub line: u32,
}

impl DeepView for TypeNode {
    type V = TypeNodeV;

    open spec fn deep_view(&self) -> TypeNodeV {
        TypeNodeV {
            name: self.name@,
            kind: self.kind,
            definition: self.definition@,
            conditions: self.conditions.deep_view(),
            file: self.file@,
            line: self.line,
        }
    }
}

/// A file-scope variable declaration.
pub struct GlobalVar {
    pub name: String,
    /// Declaration text, trimmed
    pub decl: String,
    /// Preprocessor conditions wrapping the declaration, outermost first
    pub conditions: Vec<String>,
    pub is_static: bool,
    pub file: String,
    pub line: u32,
}

pub struct GlobalVarV {
    pub name: Seq<char>,
    pub decl: Seq<char>,
    pub conditions: Seq<Seq<char>>,
    pub is_static: bool,
    pub file: Seq<char>,
    pub line: u32,
}

impl DeepView for GlobalVar {
    type V = GlobalVarV;

    open spec fn deep_view(&self) -> GlobalVarV {
        GlobalVarV {
            name: self.name@,
            decl: self.decl@,
            conditions: self.conditions.deep_view(),
            is_static: self.is_static,
            file: self.file@,
            line: self.line,
        }
    }
}

/// A `#define` constant, a function-like macro, or an enum value.
pub struct SymbolNode {
    pub name: String,
    pub kind: SymbolKind,
    /// Preprocessor conditions wrapping the symbol, outermost first
    pub conditions: Vec<String>,
    /// The value (for a function-like macro: parameters, then the body)
    pub value: Option<String>,
    pub file: String,
    pub line: u32,
}

pub struct SymbolNodeV {
    pub name: Seq<char>,
    pub kind: SymbolKind,
    pub conditions: Seq<Seq<char>>,
    pub value: Option<Seq<char>>,
    pub file: Seq<char>,
    pub line: u32,
}

impl DeepView for SymbolNode {
    type V = SymbolNodeV;

    open spec fn deep_view(&self) -> SymbolNodeV {
        SymbolNodeV {
            name: self.name@,
            kind: self.kind,
            conditions: self.conditions.deep_view(),
            value: self.value.deep_view(),
            file: self.file@,
            line: self.line,
        }
    }
}

/// One `#include` directive.
pub struct IncludeEdge {
    /// Path as written in the source, without its quotes or angle brackets
    pub path: String,
    /// true for `<system.h>`, false for `"local.h"`
    pub is_system: bool,
}

pub struct IncludeEdgeV {
    pub path: Seq<char>,
    pub is_system: bool,
}

impl DeepView for IncludeEdge {
    type V = IncludeEdgeV;

    open spec fn deep_view(&self) -> IncludeEdgeV {
        IncludeEdgeV { path: self.path@, is_system: self.is_system }
    }
}

/// Everything one source file contributes to the graph. Call edges are held forward only
/// (caller to callee); merging file graphs derives the reverse edges.
pub struct FileGraph {
    pub nodes: Vec<FunctionNode>,
    /// (caller, edge to a callee)
    pub callees: Vec<(String, CallEdge)>,
    pub symbols: Vec<SymbolNode>,
    pub types: Vec<TypeNode>,
    pub globals: Vec<GlobalVar>,
}

pub struct FileGraphV {
    pub nodes: Seq<FunctionNodeV>,
    pub callees: Seq<(Seq<char>, CallEdgeV)>,
    pub symbols: Seq<SymbolNodeV>,
    pub types: Seq<TypeNodeV>,
    pub globals: Seq<GlobalVarV>,
}

impl View for FileGraph {
    type V = FileGraphV;

    open spec fn view(&self) -> FileGraphV {
        FileGraphV {
            nodes: self.nodes.deep_view(),
            callees: self.callees.deep_view(),
            symbols: self.symbols.deep_view(),
            types: self.types.deep_view(),
            globals: self.globals.deep_view(),
        }
    }
}

impl FileGraph {
    /// An empty file graph.
    pub fn new() -> (r: Self)
        ensures
            r@.nodes.len() == 0,
            r@.callees.len() == 0,
            r@.symbols.len() == 0,
            r@.types.len() == 0,
            r@.globals.len() == 0,
    {
        FileGraph {
            nodes: Vec::new(),
            callees: Vec::new(),
            symbols: Vec::new(),
            types: Vec::new(),
            globals: Vec::new(),
        }
    }
}

} // verus!
