//! Completion, outline and diagnostics for QML, and the reading of `.qmltypes`
//! module descriptions, over syntax trees that tree-sitter builds.
pub mod ast;
pub mod complete;
pub mod cppregister;
pub mod gammer;
pub mod lsp;
pub mod parse;
pub mod syntax;
pub mod text;
pub mod treehelper;
