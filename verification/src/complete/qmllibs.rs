//! The modules that `.qmltypes` files describe: their components with enums,
//! properties, signals and methods.
pub mod pluginsgenerate;
pub mod qmlenumgenerate;
pub mod qmlmethodgenerate;
pub mod qmlparmatergenerate;
pub mod qmlpropertygenerate;
pub mod qmlsignalgenerate;

use vstd::prelude::*;
use crate::ast::nonempty;
use crate::parse::{parse_qml, qml_tree, ParseFailure};
use crate::syntax::{
    SyntaxNode, MalformedTree, field_child, child_at, span_text, child_by_field, nth_child, node_text,
    kind_is, fold_nodes, lemma_fold_nodes_step, lemma_fold_nodes_prefix_none, lemma_take_all, opt_view,
};
use crate::text::{rows, lines_of, split_lines, split_seq, split_string, text_is, views, lemma_split_seq_nonempty, chars_of, concat_str, string_push};
use qmlenumgenerate::{enum_of, get_enum_from_source};
use qmlpropertygenerate::{property_of, property_from, get_value_from_statement};
use qmlsignalgenerate::{function_of, get_signal_from_source};
use qmlmethodgenerate::get_method_from_source;

verus! {

/// A module read from a `.qmltypes` file.
#[derive(Debug)]
pub struct QmlModule {
    pub plugin_location: String,
    pub module_namespace: Option<String>,
    pub dependencies: Vec<String>,
    pub components: Vec<QmlComponent>,
}

/// A component of a module.
#[derive(Debug)]
pub struct QmlComponent {
    pub name: String,
    pub prototype: Option<String>,
    pub exports: Option<Vec<ModuleExport>>,
    pub qmlenums: Vec<QmlEnum>,
    pub iscreatable: bool,
    pub issingleton: bool,
    pub properties: Vec<QmlProperty>,
    pub signals: Vec<QmlSignal>,
    pub methods: Vec<QmlMethod>,
}

/// A name under which a component is exported: module uri, name and version.
#[derive(Debug)]
pub struct ModuleExport {
    pub uri: String,
    pub name: String,
    pub version: String,
}

#[derive(Debug)]
pub struct QmlEnum {
    pub name: String,
    pub values: Vec<(String, i32)>,
}

#[derive(Debug)]
pub struct QmlProperty {
    pub name: String,
    pub qmltype: String,
    pub isreadonly: bool,
    pub ispointer: bool,
}

#[derive(Debug)]
pub struct QmlMethod {
    pub name: String,
    pub parmaters: Vec<QmlParmater>,
}

#[derive(Debug)]
pub struct QmlSignal {
    pub name: String,
    pub parmaters: Vec<QmlParmater>,
}

#[derive(Debug)]
pub struct QmlParmater {
    pub name: String,
    pub qmltype: String,
    pub ispointer: bool,
}

pub struct ModuleExportSpec {
    pub uri: Seq<char>,
    pub name: Seq<char>,
    pub version: Seq<char>,
}

pub struct QmlEnumSpec {
    pub name: Seq<char>,
    pub values: Seq<(Seq<char>, i32)>,
}

pub struct QmlPropertySpec {
    pub name: Seq<char>,
    pub qmltype: Seq<char>,
    pub isreadonly: bool,
    pub ispointer: bool,
}

pub struct QmlParmaterSpec {
    pub name: Seq<char>,
    pub qmltype: Seq<char>,
    pub ispointer: bool,
}

/// A signal or a method: a name and parameters.
pub struct QmlFunctionSpec {
    pub name: Seq<char>,
    pub parmaters: Seq<QmlParmaterSpec>,
}

pub struct QmlComponentSpec {
    pub name: Seq<char>,
    pub prototype: Option<Seq<char>>,
    pub exports: Option<Seq<ModuleExportSpec>>,
    pub qmlenums: Seq<QmlEnumSpec>,
    pub iscreatable: bool,
    pub issingleton: bool,
    pub properties: Seq<QmlPropertySpec>,
    pub signals: Seq<QmlFunctionSpec>,
    pub methods: Seq<QmlFunctionSpec>,
}

pub struct QmlModuleSpec {
    pub plugin_location: Seq<char>,
    pub module_namespace: Option<Seq<char>>,
    pub dependencies: Seq<Seq<char>>,
    pub components: Seq<QmlComponentSpec>,
}

pub open spec fn strings_view(v: Seq<String>) -> Seq<Seq<char>> {
    v.map_values(|s: String| s@)
}

pub open spec fn values_view(v: Seq<(String, i32)>) -> Seq<(Seq<char>, i32)> {
    v.map_values(|p: (String, i32)| (p.0@, p.1))
}

impl View for ModuleExport {
    type V = ModuleExportSpec;

    open spec fn view(&self) -> ModuleExportSpec {
        ModuleExportSpec { uri: self.uri@, name: self.name@, version: self.version@ }
    }
}

impl View for QmlEnum {
    type V = QmlEnumSpec;

    open spec fn view(&self) -> QmlEnumSpec {
        QmlEnumSpec { name: self.name@, values: values_view(self.values@) }
    }
}

impl View for QmlProperty {
    type V = QmlPropertySpec;

    open spec fn view(&self) -> QmlPropertySpec {
        QmlPropertySpec {
            name: self.name@,
            qmltype: self.qmltype@,
            isreadonly: self.isreadonly,
            ispointer: self.ispointer,
        }
    }
}

impl View for QmlParmater {
    type V = QmlParmaterSpec;

    open spec fn view(&self) -> QmlParmaterSpec {
        QmlParmaterSpec { name: self.name@, qmltype: self.qmltype@, ispointer: self.ispointer }
    }
}

pub open spec fn parmaters_view(v: Seq<QmlParmater>) -> Seq<QmlParmaterSpec> {
    v.map_values(|p: QmlParmater| p@)
}

impl View for QmlSignal {
    type V = QmlFunctionSpec;

    open spec fn view(&self) -> QmlFunctionSpec {
        QmlFunctionSpec { name: self.name@, parmaters: parmaters_view(self.parmaters@) }
    }
}

impl View for QmlMethod {
    type V = QmlFunctionSpec;

    open spec fn view(&self) -> QmlFunctionSpec {
        QmlFunctionSpec { name: self.name@, parmaters: parmaters_view(self.parmaters@) }
    }
}

pub open spec fn exports_view(v: Seq<ModuleExport>) -> Seq<ModuleExportSpec> {
    v.map_values(|e: ModuleExport| e@)
}

impl View for QmlComponent {
    type V = QmlComponentSpec;

    open spec fn view(&self) -> QmlComponentSpec {
        QmlComponentSpec {
            name: self.name@,
            prototype: match self.prototype {
                Some(p) => Some(p@),
                None => None,
            },
            exports: match self.exports {
                Some(e) => Some(exports_view(e@)),
                None => None,
            },
            qmlenums: self.qmlenums@.map_values(|e: QmlEnum| e@),
            iscreatable: self.iscreatable,
            issingleton: self.issingleton,
            properties: self.properties@.map_values(|p: QmlProperty| p@),
            signals: self.signals@.map_values(|s: QmlSignal| s@),
            methods: self.methods@.map_values(|m: QmlMethod| m@),
        }
    }
}

impl View for QmlModule {
    type V = QmlModuleSpec;

    open spec fn view(&self) -> QmlModuleSpec {
        QmlModuleSpec {
            plugin_location: self.plugin_location@,
            module_namespace: match self.module_namespace {
                Some(n) => Some(n@),
                None => None,
            },
            dependencies: strings_view(self.dependencies@),
            components: self.components@.map_values(|c: QmlComponent| c@),
        }
    }
}

/// The text of the `name` child of a binding.
pub open spec fn binding_name(lines: Seq<Seq<u8>>, b: SyntaxNode) -> Option<Seq<char>> {
    match field_child(b, "name"@) {
        None => None,
        Some(n) => span_text(lines, n),
    }
}

/// The text of the first child of a binding's `value` (a literal such as `true`).
pub open spec fn value_text(lines: Seq<Seq<u8>>, b: SyntaxNode) -> Option<Seq<char>> {
    match field_child(b, "value"@) {
        None => None,
        Some(v) => match child_at(v, 0) {
            None => None,
            Some(e) => span_text(lines, e),
        },
    }
}

/// The text of the second child of the first child of a binding's `value`: what a
/// string literal holds between its quotes.
pub open spec fn quoted_value(lines: Seq<Seq<u8>>, b: SyntaxNode) -> Option<Seq<char>> {
    match field_child(b, "value"@) {
        None => None,
        Some(v) => match child_at(v, 0) {
            None => None,
            Some(s) => match child_at(s, 1) {
                None => None,
                Some(t) => span_text(lines, t),
            },
        },
    }
}

pub(crate) fn binding_name_of(lines: &Vec<Vec<u8>>, b: &SyntaxNode) -> (r: Result<String, MalformedTree>)
    ensures
        match r {
            Ok(s) => binding_name(rows(lines@), *b) == Some(s@),
            Err(_) => binding_name(rows(lines@), *b) is None,
        },
{
    match child_by_field(b, "name") {
        None => Err(MalformedTree),
        Some(n) => match node_text(lines, n) {
            Some(t) => Ok(t),
            None => Err(MalformedTree),
        },
    }
}

pub(crate) fn quoted_value_of(lines: &Vec<Vec<u8>>, b: &SyntaxNode) -> (r: Result<String, MalformedTree>)
    ensures
        match r {
            Ok(s) => quoted_value(rows(lines@), *b) == Some(s@),
            Err(_) => quoted_value(rows(lines@), *b) is None,
        },
{
    match child_by_field(b, "value") {
        None => Err(MalformedTree),
        Some(v) => match nth_child(v, 0) {
            None => Err(MalformedTree),
            Some(s) => match nth_child(s, 1) {
                None => Err(MalformedTree),
                Some(t) => match node_text(lines, t) {
                    Some(x) => Ok(x),
                    None => Err(MalformedTree),
                },
            },
        },
    }
}

/// Why a module description could not be read.
#[derive(Clone, Copy, Debug, PartialEq, Eq, Structural)]
pub enum ModuleError {
    /// The QML grammar does not fit the tree-sitter library.
    Language,
    /// The parser gave no tree.
    NoTree,
    /// The document has no root object.
    NothingHere,
    /// A node that the description needs is absent or unreadable.
    Malformed,
}

/// The export that the text of an `exports` entry names: `uri/name version`, or
/// `name version` under the module's namespace (the empty uri without one). `None` when
/// the text holds no space.
pub open spec fn export_of(exportname: Seq<char>, namespace: Option<Seq<char>>) -> Option<ModuleExportSpec> {
    let colone = split_seq(exportname, ' ');
    if colone.len() < 2 {
        None
    } else {
        let version = colone[1];
        let uris = split_seq(colone[0], '/');
        if uris.len() == 2 {
            Some(ModuleExportSpec { uri: uris[0], name: uris[1], version })
        } else {
            Some(
                ModuleExportSpec {
                    uri: match namespace {
                        Some(n) => n,
                        None => Seq::empty(),
                    },
                    name: uris[0],
                    version,
                },
            )
        }
    }
}

/// One element of an `exports` array: a string adds the export its content names.
pub open spec fn export_step(lines: Seq<Seq<u8>>, namespace: Option<Seq<char>>) -> spec_fn(Seq<ModuleExportSpec>, SyntaxNode) -> Option<Seq<ModuleExportSpec>> {
    |st: Seq<ModuleExportSpec>, c: SyntaxNode|
        if c.kind@ == "string"@ {
            match child_at(c, 1) {
                None => None,
                Some(e) => match span_text(lines, e) {
                    None => None,
                    Some(exportname) => match export_of(exportname, namespace) {
                        None => None,
                        Some(x) => Some(st.push(x)),
                    },
                },
            }
        } else {
            Some(st)
        }
}

/// One element of a string array: a string adds its content.
pub open spec fn string_step(lines: Seq<Seq<u8>>) -> spec_fn(Seq<Seq<char>>, SyntaxNode) -> Option<Seq<Seq<char>>> {
    |st: Seq<Seq<char>>, c: SyntaxNode|
        if c.kind@ == "string"@ {
            match child_at(c, 1) {
                None => None,
                Some(d) => match span_text(lines, d) {
                    None => None,
                    Some(t) => Some(st.push(t)),
                },
            }
        } else {
            Some(st)
        }
}

/// A component as its bindings and objects are read, its exports not yet made optional.
pub struct ComponentScan {
    pub name: Seq<char>,
    pub prototype: Option<Seq<char>>,
    pub exports: Seq<ModuleExportSpec>,
    pub qmlenums: Seq<QmlEnumSpec>,
    pub iscreatable: bool,
    pub issingleton: bool,
    pub properties: Seq<QmlPropertySpec>,
    pub signals: Seq<QmlFunctionSpec>,
    pub methods: Seq<QmlFunctionSpec>,
}

pub open spec fn empty_scan() -> ComponentScan {
    ComponentScan {
        name: Seq::empty(),
        prototype: None,
        exports: Seq::empty(),
        qmlenums: Seq::empty(),
        iscreatable: false,
        issingleton: false,
        properties: Seq::empty(),
        signals: Seq::empty(),
        methods: Seq::empty(),
    }
}

/// One node of a `Component` initializer. Bindings: `name` and `prototype` take the
/// quoted text of their value, `isCreateable` and `isSingleton` whether their value is
/// `true`, `exports` adds the exports its array names. Objects: an `Enum`, `Property`,
/// `Signal` or `Method` adds what its initializer describes (every object needs a type
/// name and an initializer).
pub open spec fn component_step(lines: Seq<Seq<u8>>, namespace: Option<Seq<char>>) -> spec_fn(ComponentScan, SyntaxNode) -> Option<ComponentScan> {
    |st: ComponentScan, c: SyntaxNode|
        if c.kind@ == "ui_binding"@ {
            match binding_name(lines, c) {
                None => None,
                Some(idname) => if idname == "name"@ {
                    match quoted_value(lines, c) {
                        None => None,
                        Some(v) => Some(ComponentScan { name: v, ..st }),
                    }
                } else if idname == "prototype"@ {
                    match quoted_value(lines, c) {
                        None => None,
                        Some(v) => Some(ComponentScan { prototype: Some(v), ..st }),
                    }
                } else if idname == "isCreateable"@ {
                    match value_text(lines, c) {
                        None => None,
                        Some(v) => Some(ComponentScan { iscreatable: v == "true"@, ..st }),
                    }
                } else if idname == "isSingleton"@ {
                    match value_text(lines, c) {
                        None => None,
                        Some(v) => Some(ComponentScan { issingleton: v == "true"@, ..st }),
                    }
                } else if idname == "exports"@ {
                    match field_child(c, "value"@) {
                        None => None,
                        Some(v) => match child_at(v, 0) {
                            None => None,
                            Some(array) => match fold_nodes(
                                array.children@,
                                st.exports,
                                export_step(lines, namespace),
                            ) {
                                None => None,
                                Some(ex) => Some(ComponentScan { exports: ex, ..st }),
                            },
                        },
                    }
                } else {
                    Some(st)
                },
            }
        } else if c.kind@ == "ui_object_definition"@ {
            match field_child(c, "type_name"@) {
                None => None,
                Some(tn) => match span_text(lines, tn) {
                    None => None,
                    Some(typename) => match field_child(c, "initializer"@) {
                        None => None,
                        Some(init) => if typename == "Enum"@ {
                            match enum_of(lines, init) {
                                None => None,
                                Some(e) => Some(ComponentScan { qmlenums: st.qmlenums.push(e), ..st }),
                            }
                        } else if typename == "Property"@ {
                            match property_of(lines, init) {
                                None => None,
                                Some(p) => Some(ComponentScan { properties: st.properties.push(p), ..st }),
                            }
                        } else if typename == "Signal"@ {
                            match function_of(lines, init) {
                                None => None,
                                Some(f) => Some(ComponentScan { signals: st.signals.push(f), ..st }),
                            }
                        } else if typename == "Method"@ {
                            match function_of(lines, init) {
                                None => None,
                                Some(f) => Some(ComponentScan { methods: st.methods.push(f), ..st }),
                            }
                        } else {
                            Some(st)
                        },
                    },
                },
            }
        } else {
            Some(st)
        }
}

/// The component that the initializer `ui_root` of a `Component` object describes; no
/// exports is `None`.
pub open spec fn component_of(lines: Seq<Seq<u8>>, ui_root: SyntaxNode, namespace: Option<Seq<char>>) -> Option<QmlComponentSpec> {
    match fold_nodes(ui_root.children@, empty_scan(), component_step(lines, namespace)) {
        None => None,
        Some(st) => Some(
            QmlComponentSpec {
                name: st.name,
                prototype: st.prototype,
                exports: nonempty(st.exports),
                qmlenums: st.qmlenums,
                iscreatable: st.iscreatable,
                issingleton: st.issingleton,
                properties: st.properties,
                signals: st.signals,
                methods: st.methods,
            },
        ),
    }
}

/// A module as the top-level nodes of its description are read.
pub struct ModuleScan {
    pub dependencies: Seq<Seq<char>>,
    pub components: Seq<QmlComponentSpec>,
}

/// One top-level node of a module description: a binding `dependencies` adds the
/// strings of its array; an object definition adds the component its initializer
/// describes.
pub open spec fn module_step(lines: Seq<Seq<u8>>, namespace: Option<Seq<char>>) -> spec_fn(ModuleScan, SyntaxNode) -> Option<ModuleScan> {
    |st: ModuleScan, c: SyntaxNode|
        if c.kind@ == "ui_binding"@ {
            match binding_name(lines, c) {
                None => None,
                Some(idname) => if idname == "dependencies"@ {
                    match field_child(c, "value"@) {
                        None => None,
                        Some(v) => match child_at(v, 0) {
                            None => None,
                            Some(array) => match fold_nodes(
                                array.children@,
                                st.dependencies,
                                string_step(lines),
                            ) {
                                None => None,
                                Some(deps) => Some(ModuleScan { dependencies: deps, ..st }),
                            },
                        },
                    }
                } else {
                    Some(st)
                },
            }
        } else if c.kind@ == "ui_object_definition"@ {
            match field_child(c, "initializer"@) {
                None => None,
                Some(ui_root) => match component_of(lines, ui_root, namespace) {
                    None => None,
                    Some(comp) => Some(ModuleScan { components: st.components.push(comp), ..st }),
                },
            }
        } else {
            Some(st)
        }
}

/// The module that the syntax tree `root` of a `.qmltypes` document describes, found at
/// `path` under `namespace`.
pub open spec fn module_outcome(
    lines: Seq<Seq<u8>>,
    root: SyntaxNode,
    namespace: Option<Seq<char>>,
    path: Seq<char>,
) -> Result<QmlModuleSpec, ModuleError> {
    match field_child(root, "root"@) {
        None => Err(ModuleError::NothingHere),
        Some(r) => match field_child(r, "initializer"@) {
            None => Err(ModuleError::Malformed),
            Some(init) => match fold_nodes(
                init.children@,
                ModuleScan { dependencies: Seq::empty(), components: Seq::empty() },
                module_step(lines, namespace),
            ) {
                None => Err(ModuleError::Malformed),
                Some(st) => Ok(
                    QmlModuleSpec {
                        plugin_location: path,
                        module_namespace: namespace,
                        dependencies: st.dependencies,
                        components: st.components,
                    },
                ),
            },
        },
    }
}

pub open spec fn opt_result_view(r: Result<QmlModule, ModuleError>) -> Result<QmlModuleSpec, ModuleError> {
    match r {
        Ok(m) => Ok(m@),
        Err(e) => Err(e),
    }
}

pub open spec fn opt_export_view(o: Option<ModuleExport>) -> Option<ModuleExportSpec> {
    match o {
        Some(e) => Some(e@),
        None => None,
    }
}

/// The export that `exportname` names (see [`export_of`]).
fn export_from(exportname: &str, namespace: &Option<String>) -> (r: Option<ModuleExport>)
    ensures
        opt_export_view(r) == export_of(exportname@, opt_view(*namespace)),
{
    let colone = split_string(exportname, ' ');
    if colone.len() < 2 {
        return None;
    }
    assert(views(colone@)[0] == colone@[0]@ && views(colone@)[1] == colone@[1]@);
    let version = colone[1].clone();
    let exporturis = split_string(colone[0].as_str(), '/');
    proof { lemma_split_seq_nonempty(colone@[0]@, '/'); }
    assert(views(exporturis@)[0] == exporturis@[0]@);
    if exporturis.len() == 2 {
        assert(views(exporturis@)[1] == exporturis@[1]@);
        Some(ModuleExport { uri: exporturis[0].clone(), name: exporturis[1].clone(), version })
    } else {
        let uri = match namespace {
            Some(u) => u.clone(),
            None => String::new(),
        };
        Some(ModuleExport { uri, name: exporturis[0].clone(), version })
    }
}

fn export_entry(lines: &Vec<Vec<u8>>, namespace: &Option<String>, exports: &mut Vec<ModuleExport>, c: &SyntaxNode) -> (r: Result<(), MalformedTree>)
    ensures
        match r {
            Ok(_) => (export_step(rows(lines@), opt_view(*namespace)))(exports_view(old(exports)@), *c)
                == Some(exports_view(final(exports)@)),
            Err(_) => (export_step(rows(lines@), opt_view(*namespace)))(exports_view(old(exports)@), *c)
                is None,
        },
{
    if !kind_is(c, "string") {
        return Ok(());
    }
    let exp = match nth_child(c, 1) {
        Some(e) => e,
        None => return Err(MalformedTree),
    };
    let exportname = match node_text(lines, exp) {
        Some(t) => t,
        None => return Err(MalformedTree),
    };
    match export_from(exportname.as_str(), namespace) {
        Some(x) => {
            let ghost before = exports@;
            exports.push(x);
            assert(exports_view(exports@) =~= exports_view(before).push(x@));
            Ok(())
        },
        None => Err(MalformedTree),
    }
}

/// Adds the exports that the elements of `array` name.
fn exports_in(lines: &Vec<Vec<u8>>, array: &SyntaxNode, namespace: &Option<String>, exports: &mut Vec<ModuleExport>) -> (r: Result<(), MalformedTree>)
    ensures
        match r {
            Ok(_) => fold_nodes(array.children@, exports_view(old(exports)@), export_step(rows(lines@), opt_view(*namespace)))
                == Some(exports_view(final(exports)@)),
            Err(_) => fold_nodes(array.children@, exports_view(old(exports)@), export_step(rows(lines@), opt_view(*namespace)))
                is None,
        },
{
    let ghost cs = array.children@;
    let ghost step = export_step(rows(lines@), opt_view(*namespace));
    let ghost init = exports_view(exports@);
    let mut i: usize = 0;
    while i < array.children.len()
        invariant
            cs == array.children@,
            step == export_step(rows(lines@), opt_view(*namespace)),
            init == exports_view(old(exports)@),
            i <= cs.len(),
            fold_nodes(cs.take(i as int), init, step) == Some(exports_view(exports@)),
        decreases cs.len() - i,
    {
        proof { lemma_fold_nodes_step(cs, init, step, i as int); }
        match export_entry(lines, namespace, exports, &array.children[i]) {
            Ok(_) => {},
            Err(e) => {
                proof { lemma_fold_nodes_prefix_none(cs, init, step, i + 1); }
                return Err(e);
            },
        }
        i = i + 1;
    }
    proof { lemma_take_all(cs); }
    Ok(())
}

fn string_entry(lines: &Vec<Vec<u8>>, strings: &mut Vec<String>, c: &SyntaxNode) -> (r: Result<(), MalformedTree>)
    ensures
        match r {
            Ok(_) => (string_step(rows(lines@)))(strings_view(old(strings)@), *c) == Some(
                strings_view(final(strings)@),
            ),
            Err(_) => (string_step(rows(lines@)))(strings_view(old(strings)@), *c) is None,
        },
{
    if !kind_is(c, "string") {
        return Ok(());
    }
    let dep = match nth_child(c, 1) {
        Some(d) => d,
        None => return Err(MalformedTree),
    };
    match node_text(lines, dep) {
        Some(t) => {
            let ghost before = strings@;
            strings.push(t);
            assert(strings_view(strings@) =~= strings_view(before).push(t@));
            Ok(())
        },
        None => Err(MalformedTree),
    }
}

/// Adds the contents of the strings among the elements of `array`.
pub(crate) fn strings_in(lines: &Vec<Vec<u8>>, array: &SyntaxNode, strings: &mut Vec<String>) -> (r: Result<(), MalformedTree>)
    ensures
        match r {
            Ok(_) => fold_nodes(array.children@, strings_view(old(strings)@), string_step(rows(lines@)))
                == Some(strings_view(final(strings)@)),
            Err(_) => fold_nodes(array.children@, strings_view(old(strings)@), string_step(rows(lines@)))
                is None,
        },
{
    let ghost cs = array.children@;
    let ghost step = string_step(rows(lines@));
    let ghost init = strings_view(strings@);
    let mut i: usize = 0;
    while i < array.children.len()
        invariant
            cs == array.children@,
            step == string_step(rows(lines@)),
            init == strings_view(old(strings)@),
            i <= cs.len(),
            fold_nodes(cs.take(i as int), init, step) == Some(strings_view(strings@)),
        decreases cs.len() - i,
    {
        proof { lemma_fold_nodes_step(cs, init, step, i as int); }
        match string_entry(lines, strings, &array.children[i]) {
            Ok(_) => {},
            Err(e) => {
                proof { lemma_fold_nodes_prefix_none(cs, init, step, i + 1); }
                return Err(e);
            },
        }
        i = i + 1;
    }
    proof { lemma_take_all(cs); }
    Ok(())
}

/// A component as it is being read.
struct ComponentDraft {
    name: String,
    prototype: Option<String>,
    exports: Vec<ModuleExport>,
    qmlenums: Vec<QmlEnum>,
    iscreatable: bool,
    issingleton: bool,
    properties: Vec<QmlProperty>,
    signals: Vec<QmlSignal>,
    methods: Vec<QmlMethod>,
}

impl View for ComponentDraft {
    type V = ComponentScan;

    closed spec fn view(&self) -> ComponentScan {
        ComponentScan {
            name: self.name@,
            prototype: opt_view(self.prototype),
            exports: exports_view(self.exports@),
            qmlenums: self.qmlenums@.map_values(|e: QmlEnum| e@),
            iscreatable: self.iscreatable,
            issingleton: self.issingleton,
            properties: self.properties@.map_values(|p: QmlProperty| p@),
            signals: self.signals@.map_values(|s: QmlSignal| s@),
            methods: self.methods@.map_values(|m: QmlMethod| m@),
        }
    }
}

fn component_entry(lines: &Vec<Vec<u8>>, namespace: &Option<String>, d: &mut ComponentDraft, c: &SyntaxNode) -> (r: Result<(), MalformedTree>)
    ensures
        match r {
            Ok(_) => (component_step(rows(lines@), opt_view(*namespace)))(old(d)@, *c) == Some(final(d)@),
            Err(_) => (component_step(rows(lines@), opt_view(*namespace)))(old(d)@, *c) is None,
        },
{
    if kind_is(c, "ui_binding") {
        let idname = binding_name_of(lines, c)?;
        if text_is(idname.as_str(), "name") {
            d.name = quoted_value_of(lines, c)?;
        } else if text_is(idname.as_str(), "prototype") {
            d.prototype = Some(quoted_value_of(lines, c)?);
        } else if text_is(idname.as_str(), "isCreateable") {
            let value = get_value_from_statement(lines, c)?;
            d.iscreatable = text_is(value.as_str(), "true");
        } else if text_is(idname.as_str(), "isSingleton") {
            let value = get_value_from_statement(lines, c)?;
            d.issingleton = text_is(value.as_str(), "true");
        } else if text_is(idname.as_str(), "exports") {
            let value = match child_by_field(c, "value") {
                Some(v) => v,
                None => return Err(MalformedTree),
            };
            let array = match nth_child(value, 0) {
                Some(a) => a,
                None => return Err(MalformedTree),
            };
            exports_in(lines, array, namespace, &mut d.exports)?;
        }
        Ok(())
    } else if kind_is(c, "ui_object_definition") {
        let typename = match child_by_field(c, "type_name") {
            Some(t) => t,
            None => return Err(MalformedTree),
        };
        let typename = match node_text(lines, typename) {
            Some(t) => t,
            None => return Err(MalformedTree),
        };
        let object_init = match child_by_field(c, "initializer") {
            Some(o) => o,
            None => return Err(MalformedTree),
        };
        if text_is(typename.as_str(), "Enum") {
            let e = get_enum_from_source(lines, object_init)?;
            let ghost before = d.qmlenums@;
            d.qmlenums.push(e);
            assert(d.qmlenums@.map_values(|e: QmlEnum| e@) =~= before.map_values(|e: QmlEnum| e@).push(e@));
        } else if text_is(typename.as_str(), "Property") {
            let p = property_from(lines, object_init)?;
            let ghost before = d.properties@;
            d.properties.push(p);
            assert(d.properties@.map_values(|p: QmlProperty| p@) =~= before.map_values(|p: QmlProperty| p@).push(p@));
        } else if text_is(typename.as_str(), "Signal") {
            let sg = get_signal_from_source(lines, object_init)?;
            let ghost before = d.signals@;
            d.signals.push(sg);
            assert(d.signals@.map_values(|s: QmlSignal| s@) =~= before.map_values(|s: QmlSignal| s@).push(sg@));
        } else if text_is(typename.as_str(), "Method") {
            let m = get_method_from_source(lines, object_init)?;
            let ghost before = d.methods@;
            d.methods.push(m);
            assert(d.methods@.map_values(|m: QmlMethod| m@) =~= before.map_values(|m: QmlMethod| m@).push(m@));
        }
        Ok(())
    } else {
        Ok(())
    }
}

/// The component that the `Component` initializer `ui_root` describes (see
/// [`component_of`]).
fn component_from(lines: &Vec<Vec<u8>>, ui_root: &SyntaxNode, namespace: &Option<String>) -> (r: Result<QmlComponent, MalformedTree>)
    ensures
        match r {
            Ok(c) => component_of(rows(lines@), *ui_root, opt_view(*namespace)) == Some(c@),
            Err(_) => component_of(rows(lines@), *ui_root, opt_view(*namespace)) is None,
        },
{
    let ghost cs = ui_root.children@;
    let ghost step = component_step(rows(lines@), opt_view(*namespace));
    let mut d = ComponentDraft {
        name: String::new(),
        prototype: None,
        exports: Vec::new(),
        qmlenums: Vec::new(),
        iscreatable: false,
        issingleton: false,
        properties: Vec::new(),
        signals: Vec::new(),
        methods: Vec::new(),
    };
    assert(exports_view(d.exports@) =~= Seq::<ModuleExportSpec>::empty());
    assert(d.qmlenums@.map_values(|e: QmlEnum| e@) =~= Seq::<QmlEnumSpec>::empty());
    assert(d.properties@.map_values(|p: QmlProperty| p@) =~= Seq::<QmlPropertySpec>::empty());
    assert(d.signals@.map_values(|s: QmlSignal| s@) =~= Seq::<QmlFunctionSpec>::empty());
    assert(d.methods@.map_values(|m: QmlMethod| m@) =~= Seq::<QmlFunctionSpec>::empty());
    assert(d@ == empty_scan());
    let mut i: usize = 0;
    while i < ui_root.children.len()
        invariant
            cs == ui_root.children@,
            step == component_step(rows(lines@), opt_view(*namespace)),
            i <= cs.len(),
            fold_nodes(cs.take(i as int), empty_scan(), step) == Some(d@),
        decreases cs.len() - i,
    {
        proof { lemma_fold_nodes_step(cs, empty_scan(), step, i as int); }
        match component_entry(lines, namespace, &mut d, &ui_root.children[i]) {
            Ok(_) => {},
            Err(e) => {
                proof { lemma_fold_nodes_prefix_none(cs, empty_scan(), step, i + 1); }
                return Err(e);
            },
        }
        i = i + 1;
    }
    proof { lemma_take_all(cs); }
    let exports = if d.exports.len() == 0 {
        None
    } else {
        Some(d.exports)
    };
    Ok(QmlComponent {
        name: d.name,
        prototype: d.prototype,
        exports,
        qmlenums: d.qmlenums,
        iscreatable: d.iscreatable,
        issingleton: d.issingleton,
        properties: d.properties,
        signals: d.signals,
        methods: d.methods,
    })
}

pub open spec fn components_view(v: Seq<QmlComponent>) -> Seq<QmlComponentSpec> {
    v.map_values(|c: QmlComponent| c@)
}

fn module_entry(
    lines: &Vec<Vec<u8>>,
    namespace: &Option<String>,
    dependencies: &mut Vec<String>,
    components: &mut Vec<QmlComponent>,
    c: &SyntaxNode,
) -> (r: Result<(), MalformedTree>)
    ensures
        match r {
            Ok(_) => (module_step(rows(lines@), opt_view(*namespace)))(
                ModuleScan { dependencies: strings_view(old(dependencies)@), components: components_view(old(components)@) },
                *c,
            ) == Some(ModuleScan { dependencies: strings_view(final(dependencies)@), components: components_view(final(components)@) }),
            Err(_) => (module_step(rows(lines@), opt_view(*namespace)))(
                ModuleScan { dependencies: strings_view(old(dependencies)@), components: components_view(old(components)@) },
                *c,
            ) is None,
        },
{
    if kind_is(c, "ui_binding") {
        let idname = binding_name_of(lines, c)?;
        if text_is(idname.as_str(), "dependencies") {
            let value = match child_by_field(c, "value") {
                Some(v) => v,
                None => return Err(MalformedTree),
            };
            let array = match nth_child(value, 0) {
                Some(a) => a,
                None => return Err(MalformedTree),
            };
            strings_in(lines, array, dependencies)?;
        }
        Ok(())
    } else if kind_is(c, "ui_object_definition") {
        let ui_root = match child_by_field(c, "initializer") {
            Some(u) => u,
            None => return Err(MalformedTree),
        };
        let comp = component_from(lines, ui_root, namespace)?;
        let ghost before = components@;
        components.push(comp);
        assert(components_view(components@) =~= components_view(before).push(comp@));
        Ok(())
    } else {
        Ok(())
    }
}

/// The module that the syntax tree `tree` of the `.qmltypes` document `content`
/// describes, found at `path` under `namespace` (see [`module_outcome`]).
pub fn module_from_tree(tree: &SyntaxNode, content: &str, namespace: Option<String>, path: &str) -> (r: Result<QmlModule, ModuleError>)
    ensures
        opt_result_view(r) == module_outcome(lines_of(content@), *tree, opt_view(namespace), path@),
{
    let lines = split_lines(content);
    let root = match child_by_field(tree, "root") {
        Some(r) => r,
        None => return Err(ModuleError::NothingHere),
    };
    let root = match child_by_field(root, "initializer") {
        Some(r) => r,
        None => return Err(ModuleError::Malformed),
    };
    let ghost cs = root.children@;
    let ghost step = module_step(rows(lines@), opt_view(namespace));
    let ghost init = ModuleScan { dependencies: Seq::empty(), components: Seq::empty() };
    let mut dependencies: Vec<String> = Vec::new();
    let mut components: Vec<QmlComponent> = Vec::new();
    assert(strings_view(dependencies@) =~= Seq::<Seq<char>>::empty());
    assert(components_view(components@) =~= Seq::<QmlComponentSpec>::empty());
    let mut i: usize = 0;
    let ghost outcome = match fold_nodes(cs, init, step) {
        None => Err(ModuleError::Malformed),
        Some(st) => Ok(
            QmlModuleSpec {
                plugin_location: path@,
                module_namespace: opt_view(namespace),
                dependencies: st.dependencies,
                components: st.components,
            },
        ),
    };
    assert(module_outcome(lines_of(content@), *tree, opt_view(namespace), path@) == outcome);
    while i < root.children.len()
        invariant
            module_outcome(lines_of(content@), *tree, opt_view(namespace), path@) == outcome,
            outcome == (match fold_nodes(cs, init, step) {
                None => Err(ModuleError::Malformed),
                Some(st) => Ok(
                    QmlModuleSpec {
                        plugin_location: path@,
                        module_namespace: opt_view(namespace),
                        dependencies: st.dependencies,
                        components: st.components,
                    },
                ),
            }),
            cs == root.children@,
            step == module_step(rows(lines@), opt_view(namespace)),
            init == (ModuleScan { dependencies: Seq::empty(), components: Seq::empty() }),
            i <= cs.len(),
            fold_nodes(cs.take(i as int), init, step) == Some(
                ModuleScan { dependencies: strings_view(dependencies@), components: components_view(components@) },
            ),
        decreases cs.len() - i,
    {
        proof { lemma_fold_nodes_step(cs, init, step, i as int); }
        match module_entry(&lines, &namespace, &mut dependencies, &mut components, &root.children[i]) {
            Ok(_) => {},
            Err(_) => {
                proof { lemma_fold_nodes_prefix_none(cs, init, step, i + 1); }
                return Err(ModuleError::Malformed);
            },
        }
        i = i + 1;
    }
    proof { lemma_take_all(cs); }
    Ok(QmlModule {
        plugin_location: path.to_owned(),
        module_namespace: namespace,
        dependencies,
        components,
    })
}

/// Whether `out` is what [`module_from_tree`] gives on the tree that the QML parser
/// builds for `content` (see [`qml_tree`]).
pub open spec fn module_of_text(
    content: Seq<char>,
    namespace: Option<Seq<char>>,
    path: Seq<char>,
    out: Result<QmlModuleSpec, ModuleError>,
) -> bool {
    exists|tree: SyntaxNode|
        tree@ == qml_tree(content) && #[trigger] module_outcome(lines_of(content), tree, namespace, path) == out
}

/// The module that the `.qmltypes` document `content` describes, found at `path` under
/// `namespace`: what [`module_from_tree`] gives on the tree that the parser builds.
pub fn get_module_from_source(content: &str, namespace: Option<String>, path: &str) -> (r: Result<QmlModule, ModuleError>)
    ensures
        module_of_text(content@, opt_view(namespace), path@, opt_result_view(r)),
        r matches Ok(m) ==> m@.plugin_location == path@ && m@.module_namespace == opt_view(namespace),
{
    let tree = match parse_qml(content) {
        Ok(t) => t,
        Err(ParseFailure::Language) => return Err(ModuleError::Language),
        Err(ParseFailure::NoTree) => return Err(ModuleError::NoTree),
    };
    let r = module_from_tree(&tree, content, namespace, path);
    proof {
        assert(module_outcome(lines_of(content@), tree, opt_view(namespace), path@) == opt_result_view(r));
    }
    r
}

/// Where the builtin types of a QML installation are described.
pub fn buildinpath(root_dir: &str) -> (r: String)
    ensures
        r@ == root_dir@ + "/builtins.qmltypes"@,
{
    concat_str(root_dir, "/builtins.qmltypes")
}

/// The glob pattern that finds every `.qmltypes` file under a QML installation.
pub fn modules_pattern(root_dir: &str) -> (r: String)
    ensures
        r@ == root_dir@ + "/**/*.qmltypes"@,
{
    concat_str(root_dir, "/**/*.qmltypes")
}

/// Whether a Unix path is absolute: it starts with `/`.
pub open spec fn is_absolute(p: Seq<char>) -> bool {
    p.len() > 0 && p[0] == '/'
}

/// A component of a path that is neither empty nor `.` nor `..`.
pub open spec fn plain_component(c: Seq<char>) -> bool {
    c.len() > 0 && c != seq!['.'] && c != seq!['.', '.']
}

/// Whether `s` is a relative path of one or more plain components (see
/// [`plain_component`]) joined by single `/`.
pub open spec fn plain_relative(s: Seq<char>) -> bool {
    forall|i: int| 0 <= i < split_seq(s, '/').len() ==> plain_component(#[trigger] split_seq(s, '/')[i])
}

/// Whether `path` is `base`, an absolute path of plain components, then `/` and a
/// relative path of plain components.
pub open spec fn plainly_below(path: Seq<char>, base: Seq<char>) -> bool {
    &&& is_absolute(base)
    &&& plain_relative(base.skip(1))
    &&& path.len() > base.len() + 1
    &&& path.take(base.len() as int) == base
    &&& path[base.len() as int] == '/'
    &&& plain_relative(path.skip(base.len() as int + 1))
}

/// What `pathdiff::diff_paths` gives: the path that leads from `base` to `path`.
pub uninterp spec fn relative_path(path: Seq<char>, base: Seq<char>) -> Option<Seq<char>>;

/// `pathdiff::diff_paths`, its result as a string. Its value is named
/// [`relative_path`]; of it the source shows that an absolute path from a relative base
/// is returned as it is, that a relative path from an absolute base gives `None`, that
/// a path from itself is empty, and that a path plainly below its base gives the part
/// after the base (see [`plainly_below`]).
#[verifier::external_body]
fn diff_paths(path: &str, base: &str) -> (r: Option<String>)
    ensures
        opt_view(r) == relative_path(path@, base@),
        is_absolute(path@) && !is_absolute(base@) ==> opt_view(r) == Some(path@),
        !is_absolute(path@) && is_absolute(base@) ==> r is None,
        path@ == base@ ==> opt_view(r) == Some(Seq::<char>::empty()),
        plainly_below(path@, base@) ==> opt_view(r) == Some(path@.skip(base@.len() as int + 1)),
{
    pathdiff::diff_paths(path, base).map(|p| p.to_string_lossy().into_owned())
}

/// What `std::path::Path::parent` gives: the path without its last component.
pub uninterp spec fn parent_path(path: Seq<char>) -> Option<Seq<char>>;

/// `std::path::Path::parent`, its result as a string. Its value is named
/// [`parent_path`]; as its documentation says, the empty path has none.
#[verifier::external_body]
fn path_parent(path: &str) -> (r: Option<String>)
    ensures
        opt_view(r) == parent_path(path@),
        path@.len() == 0 ==> r is None,
{
    std::path::Path::new(path).parent().map(|p| p.to_string_lossy().into_owned())
}

/// A relative path as a dotted module name: every `/` becomes `.`.
pub open spec fn dotted(relative: Seq<char>) -> Seq<char> {
    relative.map_values(|c: char| if c == '/' { '.' } else { c })
}

/// A relative path as a dotted module name (see [`dotted`]).
pub fn namespace_of(relative: &str) -> (r: String)
    ensures
        r@ == dotted(relative@),
{
    let cs = chars_of(relative);
    let mut out = String::new();
    let mut i: usize = 0;
    while i < cs.len()
        invariant
            cs@ == relative@,
            i <= cs.len(),
            out@ == dotted(relative@.take(i as int)),
        decreases cs.len() - i,
    {
        let c = if cs[i] == '/' { '.' } else { cs[i] };
        string_push(&mut out, c);
        assert(dotted(relative@.take(i + 1)) =~= dotted(relative@.take(i as int)).push(c));
        i = i + 1;
    }
    assert(relative@.take(i as int) == relative@);
    out
}

/// The module name of the directory `path` under the QML installation `root_dir`: the
/// path from the installation to it, dotted (see [`dotted`]).
pub fn get_namespace(path: &str, root_dir: &str) -> (r: String)
    requires
        relative_path(path@, root_dir@) is Some,
    ensures
        r@ == dotted(relative_path(path@, root_dir@).unwrap()),
        path@ == root_dir@ ==> r@ == Seq::<char>::empty(),
        plainly_below(path@, root_dir@) ==> r@ == dotted(path@.skip(root_dir@.len() as int + 1)),
{
    match diff_paths(path, root_dir) {
        Some(relative) => namespace_of(relative.as_str()),
        None => String::new(),
    }
}

/// The module name of the directory `path` under `root_dir` (see [`get_namespace`]),
/// `None` when there is no path from the installation to it.
pub fn try_get_namespace(path: &str, root_dir: &str) -> (r: Option<String>)
    ensures
        match relative_path(path@, root_dir@) {
            Some(rel) => opt_view(r) == Some(dotted(rel)),
            None => r is None,
        },
        path@ == root_dir@ ==> opt_view(r) == Some(Seq::<char>::empty()),
        plainly_below(path@, root_dir@) ==> opt_view(r) == Some(dotted(path@.skip(root_dir@.len() as int + 1))),
{
    match diff_paths(path, root_dir) {
        Some(relative) => Some(namespace_of(relative.as_str())),
        None => None,
    }
}

impl QmlModule {
    /// The module that the `.qmltypes` file at `path`, whose content is `content`,
    /// describes; its namespace is the dotted path from `root_dir` to the file's
    /// directory.
    pub fn new(path: &str, content: &str, root_dir: &str) -> (r: Result<QmlModule, ModuleError>)
        requires
            parent_path(path@) matches Some(dir) && relative_path(dir, root_dir@) is Some,
        ensures
            ({
                let namespace = dotted(relative_path(parent_path(path@).unwrap(), root_dir@).unwrap());
                &&& module_of_text(content@, Some(namespace), path@, opt_result_view(r))
                &&& r matches Ok(m) ==> m@.plugin_location == path@ && m@.module_namespace == Some(namespace)
            }),
    {
        let dir = match path_parent(path) {
            Some(d) => d,
            None => String::new(),
        };
        let namespace = get_namespace(dir.as_str(), root_dir);
        get_module_from_source(content, Some(namespace), path)
    }

    /// [`QmlModule::new`] where the file has a directory with a path from `root_dir`;
    /// `None` where it has not.
    pub fn try_new(path: &str, content: &str, root_dir: &str) -> (r: Option<Result<QmlModule, ModuleError>>)
        ensures
            r is Some <==> (parent_path(path@) matches Some(dir) && relative_path(dir, root_dir@) is Some),
            r matches Some(x) ==> ({
                let namespace = dotted(relative_path(parent_path(path@).unwrap(), root_dir@).unwrap());
                &&& module_of_text(content@, Some(namespace), path@, opt_result_view(x))
                &&& x matches Ok(m) ==> m@.plugin_location == path@ && m@.module_namespace == Some(namespace)
            }),
    {
        let dir = match path_parent(path) {
            Some(d) => d,
            None => return None,
        };
        match diff_paths(dir.as_str(), root_dir) {
            Some(_) => Some(QmlModule::new(path, content, root_dir)),
            None => None,
        }
    }

    /// The module of the builtin types of the QML installation `root_dir`, whose
    /// description is `content`; it has no namespace.
    pub fn buildintypes(content: &str, root_dir: &str) -> (r: Result<QmlModule, ModuleError>)
        ensures
            ({
                let path = root_dir@ + "/builtins.qmltypes"@;
                &&& module_of_text(content@, None, path, opt_result_view(r))
                &&& r matches Ok(m) ==> m@.plugin_location == path && m@.module_namespace is None
            }),
    {
        let path = buildinpath(root_dir);
        get_module_from_source(content, None, path.as_str())
    }
}

/// A namespace holds as many characters as the relative path it comes from, the same
/// ones but that every `/` is a `.`; so it holds no `/`.
pub proof fn namespace_replaces_slashes(relative: Seq<char>)
    ensures
        dotted(relative).len() == relative.len(),
        forall|i: int|
            0 <= i < relative.len() ==> #[trigger] dotted(relative)[i] != '/' && (relative[i] != '/'
                ==> dotted(relative)[i] == relative[i]) && (relative[i] == '/' ==> dotted(relative)[i] == '.'),
{
}

/// The number of object definitions among the nodes `cs`.
pub open spec fn object_count(cs: Seq<SyntaxNode>) -> nat
    decreases cs.len(),
{
    if cs.len() == 0 {
        0
    } else {
        object_count(cs.drop_last()) + if cs.last().kind@ == "ui_object_definition"@ {
            1nat
        } else {
            0nat
        }
    }
}

proof fn lemma_module_step_components(
    lines: Seq<Seq<u8>>,
    namespace: Option<Seq<char>>,
    cs: Seq<SyntaxNode>,
    init: ModuleScan,
)
    requires
        fold_nodes(cs, init, module_step(lines, namespace)) is Some,
    ensures
        fold_nodes(cs, init, module_step(lines, namespace)).unwrap().components.len()
            == init.components.len() + object_count(cs),
    decreases cs.len(),
{
    if cs.len() > 0 {
        lemma_module_step_components(lines, namespace, cs.drop_last(), init);
        let st = fold_nodes(cs.drop_last(), init, module_step(lines, namespace)).unwrap();
        let c = cs.last();
        let next = (module_step(lines, namespace))(st, c);
        assert(fold_nodes(cs, init, module_step(lines, namespace)) == next);
        assert(object_count(cs) == object_count(cs.drop_last()) + if c.kind@ == "ui_object_definition"@ {
            1nat
        } else {
            0nat
        });
        if c.kind@ == "ui_binding"@ {
            reveal_strlit("ui_binding");
            reveal_strlit("ui_object_definition");
            assert("ui_binding"@.len() != "ui_object_definition"@.len());
            assert(next.unwrap().components == st.components);
        } else if c.kind@ == "ui_object_definition"@ {
            assert(next.unwrap().components.len() == st.components.len() + 1);
        } else {
            assert(next == Some(st));
        }
    }
}

/// A module read from a description has one component for each object definition in
/// the initializer of its root object, no more and no fewer.
pub proof fn module_has_a_component_per_object(
    lines: Seq<Seq<u8>>,
    root: SyntaxNode,
    namespace: Option<Seq<char>>,
    path: Seq<char>,
)
    requires
        module_outcome(lines, root, namespace, path) is Ok,
    ensures
        field_child(root, "root"@) matches Some(r) && field_child(r, "initializer"@) matches Some(init)
            && module_outcome(lines, root, namespace, path)->Ok_0.components.len() == object_count(
            init.children@,
        ),
{
    let r = field_child(root, "root"@).unwrap();
    let init = field_child(r, "initializer"@).unwrap();
    lemma_module_step_components(
        lines,
        namespace,
        init.children@,
        ModuleScan { dependencies: Seq::empty(), components: Seq::empty() },
    );
}

/// Whether `c` is an object definition of type `Signal`.
pub open spec fn is_signal_object(lines: Seq<Seq<u8>>, c: SyntaxNode) -> bool {
    &&& c.kind@ == "ui_object_definition"@
    &&& field_child(c, "type_name"@) matches Some(tn) && span_text(lines, tn) == Some("Signal"@)
}

/// The object definitions of type `Signal` among `cs`, in order.
pub open spec fn signal_objects(lines: Seq<Seq<u8>>, cs: Seq<SyntaxNode>) -> Seq<SyntaxNode>
    decreases cs.len(),
{
    if cs.len() == 0 {
        Seq::empty()
    } else if is_signal_object(lines, cs.last()) {
        signal_objects(lines, cs.drop_last()).push(cs.last())
    } else {
        signal_objects(lines, cs.drop_last())
    }
}

proof fn lemma_component_signals(
    lines: Seq<Seq<u8>>,
    namespace: Option<Seq<char>>,
    cs: Seq<SyntaxNode>,
    init: ComponentScan,
)
    requires
        fold_nodes(cs, init, component_step(lines, namespace)) is Some,
    ensures
        ({
            let st = fold_nodes(cs, init, component_step(lines, namespace)).unwrap();
            let objs = signal_objects(lines, cs);
            &&& st.signals.len() == init.signals.len() + objs.len()
            &&& forall|k: int| 0 <= k < init.signals.len() ==> st.signals[k] == init.signals[k]
            &&& forall|k: int|
                0 <= k < objs.len() ==> (field_child(#[trigger] objs[k], "initializer"@) matches Some(i)
                    && function_of(lines, i) == Some(st.signals[init.signals.len() + k]))
        }),
    decreases cs.len(),
{
    if cs.len() > 0 {
        let step = component_step(lines, namespace);
        lemma_component_signals(lines, namespace, cs.drop_last(), init);
        let p = fold_nodes(cs.drop_last(), init, step).unwrap();
        let c = cs.last();
        let st = step(p, c).unwrap();
        assert(fold_nodes(cs, init, step) == step(p, c));
        reveal_strlit("ui_binding");
        reveal_strlit("ui_object_definition");
        reveal_strlit("Signal");
        reveal_strlit("Enum");
        reveal_strlit("Property");
        reveal_strlit("Method");
        let prev_objs = signal_objects(lines, cs.drop_last());
        assert("ui_binding"@.len() != "ui_object_definition"@.len());
        assert("Signal"@.len() != "Enum"@.len());
        assert("Signal"@.len() != "Property"@.len());
        assert("Signal"@[0] != "Method"@[0]);
        if is_signal_object(lines, c) {
            assert(st.signals == p.signals.push(function_of(lines, field_child(c, "initializer"@).unwrap()).unwrap()));
            assert(signal_objects(lines, cs) == prev_objs.push(c));
        } else {
            if c.kind@ == "ui_object_definition"@ {
                match field_child(c, "type_name"@) {
                    Some(tn) => match span_text(lines, tn) {
                        Some(typename) => {
                            assert(typename != "Signal"@);
                        },
                        None => {},
                    },
                    None => {},
                }
            }
            assert(st.signals == p.signals);
            assert(signal_objects(lines, cs) == prev_objs);
        }
    }
}

/// A component read from a description has one signal for each object definition of
/// type `Signal` in its initializer, in source order: the k-th signal is the one that the
/// initializer of the k-th `Signal` object describes.
pub proof fn component_has_a_signal_per_signal_object(
    lines: Seq<Seq<u8>>,
    ui_root: SyntaxNode,
    namespace: Option<Seq<char>>,
)
    requires
        component_of(lines, ui_root, namespace) is Some,
    ensures
        ({
            let comp = component_of(lines, ui_root, namespace).unwrap();
            let objs = signal_objects(lines, ui_root.children@);
            &&& comp.signals.len() == objs.len()
            &&& forall|k: int|
                0 <= k < objs.len() ==> (field_child(#[trigger] objs[k], "initializer"@) matches Some(i)
                    && function_of(lines, i) == Some(comp.signals[k]))
        }),
{
    lemma_component_signals(lines, namespace, ui_root.children@, empty_scan());
}

/// Whether `c` is an object definition of type `Method`.
pub open spec fn is_method_object(lines: Seq<Seq<u8>>, c: SyntaxNode) -> bool {
    &&& c.kind@ == "ui_object_definition"@
    &&& field_child(c, "type_name"@) matches Some(tn) && span_text(lines, tn) == Some("Method"@)
}

/// The object definitions of type `Method` among `cs`, in order.
pub open spec fn method_objects(lines: Seq<Seq<u8>>, cs: Seq<SyntaxNode>) -> Seq<SyntaxNode>
    decreases cs.len(),
{
    if cs.len() == 0 {
        Seq::empty()
    } else if is_method_object(lines, cs.last()) {
        method_objects(lines, cs.drop_last()).push(cs.last())
    } else {
        method_objects(lines, cs.drop_last())
    }
}

proof fn lemma_component_methods(
    lines: Seq<Seq<u8>>,
    namespace: Option<Seq<char>>,
    cs: Seq<SyntaxNode>,
    init: ComponentScan,
)
    requires
        fold_nodes(cs, init, component_step(lines, namespace)) is Some,
    ensures
        ({
            let st = fold_nodes(cs, init, component_step(lines, namespace)).unwrap();
            let objs = method_objects(lines, cs);
            &&& st.methods.len() == init.methods.len() + objs.len()
            &&& forall|k: int| 0 <= k < init.methods.len() ==> st.methods[k] == init.methods[k]
            &&& forall|k: int|
                0 <= k < objs.len() ==> (field_child(#[trigger] objs[k], "initializer"@) matches Some(i)
                    && function_of(lines, i) == Some(st.methods[init.methods.len() + k]))
        }),
    decreases cs.len(),
{
    if cs.len() > 0 {
        let step = component_step(lines, namespace);
        lemma_component_methods(lines, namespace, cs.drop_last(), init);
        let p = fold_nodes(cs.drop_last(), init, step).unwrap();
        let c = cs.last();
        let st = step(p, c).unwrap();
        assert(fold_nodes(cs, init, step) == step(p, c));
        reveal_strlit("ui_binding");
        reveal_strlit("ui_object_definition");
        reveal_strlit("Signal");
        reveal_strlit("Enum");
        reveal_strlit("Property");
        reveal_strlit("Method");
        let prev_objs = method_objects(lines, cs.drop_last());
        assert("ui_binding"@.len() != "ui_object_definition"@.len());
        assert("Method"@.len() != "Enum"@.len());
        assert("Method"@.len() != "Property"@.len());
        assert("Method"@[0] != "Signal"@[0]);
        if is_method_object(lines, c) {
            assert(st.methods == p.methods.push(function_of(lines, field_child(c, "initializer"@).unwrap()).unwrap()));
            assert(method_objects(lines, cs) == prev_objs.push(c));
        } else {
            if c.kind@ == "ui_object_definition"@ {
                match field_child(c, "type_name"@) {
                    Some(tn) => match span_text(lines, tn) {
                        Some(typename) => {
                            assert(typename != "Method"@);
                        },
                        None => {},
                    },
                    None => {},
                }
            }
            assert(st.methods == p.methods);
            assert(method_objects(lines, cs) == prev_objs);
        }
    }
}

/// A component read from a description has one method for each object definition of
/// type `Method` in its initializer, in source order: the k-th method is the one that the
/// initializer of the k-th `Method` object describes.
pub proof fn component_has_a_method_per_method_object(
    lines: Seq<Seq<u8>>,
    ui_root: SyntaxNode,
    namespace: Option<Seq<char>>,
)
    requires
        component_of(lines, ui_root, namespace) is Some,
    ensures
        ({
            let comp = component_of(lines, ui_root, namespace).unwrap();
            let objs = method_objects(lines, ui_root.children@);
            &&& comp.methods.len() == objs.len()
            &&& forall|k: int|
                0 <= k < objs.len() ==> (field_child(#[trigger] objs[k], "initializer"@) matches Some(i)
                    && function_of(lines, i) == Some(comp.methods[k]))
        }),
{
    lemma_component_methods(lines, namespace, ui_root.children@, empty_scan());
}

/// Whether `c` is an object definition of type `Property`.
pub open spec fn is_property_object(lines: Seq<Seq<u8>>, c: SyntaxNode) -> bool {
    &&& c.kind@ == "ui_object_definition"@
    &&& field_child(c, "type_name"@) matches Some(tn) && span_text(lines, tn) == Some("Property"@)
}

/// The object definitions of type `Property` among `cs`, in order.
pub open spec fn property_objects(lines: Seq<Seq<u8>>, cs: Seq<SyntaxNode>) -> Seq<SyntaxNode>
    decreases cs.len(),
{
    if cs.len() == 0 {
        Seq::empty()
    } else if is_property_object(lines, cs.last()) {
        property_objects(lines, cs.drop_last()).push(cs.last())
    } else {
        property_objects(lines, cs.drop_last())
    }
}

proof fn lemma_component_properties(
    lines: Seq<Seq<u8>>,
    namespace: Option<Seq<char>>,
    cs: Seq<SyntaxNode>,
    init: ComponentScan,
)
    requires
        fold_nodes(cs, init, component_step(lines, namespace)) is Some,
    ensures
        ({
            let st = fold_nodes(cs, init, component_step(lines, namespace)).unwrap();
            let objs = property_objects(lines, cs);
            &&& st.properties.len() == init.properties.len() + objs.len()
            &&& forall|k: int| 0 <= k < init.properties.len() ==> st.properties[k] == init.properties[k]
            &&& forall|k: int|
                0 <= k < objs.len() ==> (field_child(#[trigger] objs[k], "initializer"@) matches Some(i)
                    && property_of(lines, i) == Some(st.properties[init.properties.len() + k]))
        }),
    decreases cs.len(),
{
    if cs.len() > 0 {
        let step = component_step(lines, namespace);
        lemma_component_properties(lines, namespace, cs.drop_last(), init);
        let p = fold_nodes(cs.drop_last(), init, step).unwrap();
        let c = cs.last();
        let st = step(p, c).unwrap();
        assert(fold_nodes(cs, init, step) == step(p, c));
        reveal_strlit("ui_binding");
        reveal_strlit("ui_object_definition");
        reveal_strlit("Signal");
        reveal_strlit("Enum");
        reveal_strlit("Property");
        reveal_strlit("Method");
        let prev_objs = property_objects(lines, cs.drop_last());
        assert("ui_binding"@.len() != "ui_object_definition"@.len());
        assert("Property"@.len() != "Enum"@.len());
        assert("Property"@.len() != "Signal"@.len());
        assert("Property"@.len() != "Method"@.len());
        if is_property_object(lines, c) {
            assert(st.properties == p.properties.push(property_of(lines, field_child(c, "initializer"@).unwrap()).unwrap()));
            assert(property_objects(lines, cs) == prev_objs.push(c));
        } else {
            if c.kind@ == "ui_object_definition"@ {
                match field_child(c, "type_name"@) {
                    Some(tn) => match span_text(lines, tn) {
                        Some(typename) => {
                            assert(typename != "Property"@);
                        },
                        None => {},
                    },
                    None => {},
                }
            }
            assert(st.properties == p.properties);
            assert(property_objects(lines, cs) == prev_objs);
        }
    }
}

/// A component read from a description has one property for each object definition of
/// type `Property` in its initializer, in source order: the k-th property is the one that the
/// initializer of the k-th `Property` object describes.
pub proof fn component_has_a_property_per_property_object(
    lines: Seq<Seq<u8>>,
    ui_root: SyntaxNode,
    namespace: Option<Seq<char>>,
)
    requires
        component_of(lines, ui_root, namespace) is Some,
    ensures
        ({
            let comp = component_of(lines, ui_root, namespace).unwrap();
            let objs = property_objects(lines, ui_root.children@);
            &&& comp.properties.len() == objs.len()
            &&& forall|k: int|
                0 <= k < objs.len() ==> (field_child(#[trigger] objs[k], "initializer"@) matches Some(i)
                    && property_of(lines, i) == Some(comp.properties[k]))
        }),
{
    lemma_component_properties(lines, namespace, ui_root.children@, empty_scan());
}

/// Whether `c` is an object definition of type `Enum`.
pub open spec fn is_enum_object(lines: Seq<Seq<u8>>, c: SyntaxNode) -> bool {
    &&& c.kind@ == "ui_object_definition"@
    &&& field_child(c, "type_name"@) matches Some(tn) && span_text(lines, tn) == Some("Enum"@)
}

/// The object definitions of type `Enum` among `cs`, in order.
pub open spec fn enum_objects(lines: Seq<Seq<u8>>, cs: Seq<SyntaxNode>) -> Seq<SyntaxNode>
    decreases cs.len(),
{
    if cs.len() == 0 {
        Seq::empty()
    } else if is_enum_object(lines, cs.last()) {
        enum_objects(lines, cs.drop_last()).push(cs.last())
    } else {
        enum_objects(lines, cs.drop_last())
    }
}

proof fn lemma_component_enums(
    lines: Seq<Seq<u8>>,
    namespace: Option<Seq<char>>,
    cs: Seq<SyntaxNode>,
    init: ComponentScan,
)
    requires
        fold_nodes(cs, init, component_step(lines, namespace)) is Some,
    ensures
        ({
            let st = fold_nodes(cs, init, component_step(lines, namespace)).unwrap();
            let objs = enum_objects(lines, cs);
            &&& st.qmlenums.len() == init.qmlenums.len() + objs.len()
            &&& forall|k: int| 0 <= k < init.qmlenums.len() ==> st.qmlenums[k] == init.qmlenums[k]
            &&& forall|k: int|
                0 <= k < objs.len() ==> (field_child(#[trigger] objs[k], "initializer"@) matches Some(i)
                    && enum_of(lines, i) == Some(st.qmlenums[init.qmlenums.len() + k]))
        }),
    decreases cs.len(),
{
    if cs.len() > 0 {
        let step = component_step(lines, namespace);
        lemma_component_enums(lines, namespace, cs.drop_last(), init);
        let p = fold_nodes(cs.drop_last(), init, step).unwrap();
        let c = cs.last();
        let st = step(p, c).unwrap();
        assert(fold_nodes(cs, init, step) == step(p, c));
        reveal_strlit("ui_binding");
        reveal_strlit("ui_object_definition");
        reveal_strlit("Signal");
        reveal_strlit("Enum");
        reveal_strlit("Property");
        reveal_strlit("Method");
        let prev_objs = enum_objects(lines, cs.drop_last());
        assert("ui_binding"@.len() != "ui_object_definition"@.len());
        assert("Enum"@.len() != "Property"@.len());
        assert("Enum"@.len() != "Signal"@.len());
        assert("Enum"@.len() != "Method"@.len());
        if is_enum_object(lines, c) {
            assert(st.qmlenums == p.qmlenums.push(enum_of(lines, field_child(c, "initializer"@).unwrap()).unwrap()));
            assert(enum_objects(lines, cs) == prev_objs.push(c));
        } else {
            if c.kind@ == "ui_object_definition"@ {
                match field_child(c, "type_name"@) {
                    Some(tn) => match span_text(lines, tn) {
                        Some(typename) => {
                            assert(typename != "Enum"@);
                        },
                        None => {},
                    },
                    None => {},
                }
            }
            assert(st.qmlenums == p.qmlenums);
            assert(enum_objects(lines, cs) == prev_objs);
        }
    }
}

/// A component read from a description has one enum for each object definition of
/// type `Enum` in its initializer, in source order: the k-th enum is the one that the
/// initializer of the k-th `Enum` object describes.
pub proof fn component_has_an_enum_per_enum_object(
    lines: Seq<Seq<u8>>,
    ui_root: SyntaxNode,
    namespace: Option<Seq<char>>,
)
    requires
        component_of(lines, ui_root, namespace) is Some,
    ensures
        ({
            let comp = component_of(lines, ui_root, namespace).unwrap();
            let objs = enum_objects(lines, ui_root.children@);
            &&& comp.qmlenums.len() == objs.len()
            &&& forall|k: int|
                0 <= k < objs.len() ==> (field_child(#[trigger] objs[k], "initializer"@) matches Some(i)
                    && enum_of(lines, i) == Some(comp.qmlenums[k]))
        }),
{
    lemma_component_enums(lines, namespace, ui_root.children@, empty_scan());
}

} // verus!
