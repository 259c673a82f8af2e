//! What the annotation store keeps for a file and for a symbol.
use vstd::prelude::*;

verus! {

/// A note on a whole source file.
pub struct FileAnnotation {
    pub subsystem: String,
    pub summary: String,
    pub notes: Option<String>,
    /// Short hash of the file's sorted function sources when the note was written
    pub file_hash: String,
}

pub struct FileAnnotationV {
    pub subsystem: Seq<char>,
    pub summary: Seq<char>,
    pub notes: Option<Seq<char>>,
    pub file_hash: Seq<char>,
}

impl DeepView for FileAnnotation {
    type V = FileAnnotationV;

    open spec fn deep_view(&self) -> FileAnnotationV {
        FileAnnotationV {
            subsystem: self.subsystem@,
            summary: self.summary@,
            notes: self.notes.deep_view(),
            file_hash: self.file_hash@,
        }
    }
}

/// A note on one function, type or global, tied to the text it was written for.
pub struct SymbolAnnotation {
    /// Free-form semantic insight
    pub insight: String,
}

impl DeepView for SymbolAnnotation {
    type V = Seq<char>;

    open spec fn deep_view(&self) -> Seq<char> {
        self.insight@
    }
}

} // verus!
