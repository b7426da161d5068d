//! The QML types that C++ code registers, as the build writes them down.
use vstd::prelude::*;

verus! {

/// A QML type registered from C++: its name, signals and slots, QML type, module uri and
/// version.
#[derive(Debug, Default)]
pub struct CppQml {
    pub name: String,
    pub signals: Vec<String>,
    pub slots: Vec<[String; 2]>,
    pub qmltype: String,
    pub uri: String,
    pub version_major: i32,
    pub version_minor: i32,
}

} // verus!
