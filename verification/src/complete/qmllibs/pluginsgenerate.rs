//! The plugin reader of `.qmltypes` files: it walks the module description, checks that
//! each entry it looks at can be read, and keeps nothing of it.
use vstd::prelude::*;
use super::{ModuleError, binding_name, quoted_value, string_step, strings_in, binding_name_of, quoted_value_of};
use crate::parse::{parse_qml, qml_tree, ParseFailure};
use crate::syntax::{
    SyntaxNode, field_child, child_at, span_text, child_by_field, nth_child, node_text, kind_is,
    fold_nodes, lemma_fold_nodes_step, lemma_fold_nodes_prefix_none, lemma_take_all,
};
use crate::text::{rows, lines_of, split_lines, split_seq, split_string, text_is, views, lemma_split_seq_nonempty};

verus! {

#[derive(Debug)]
pub struct QmlModule {
    pub plugin_location: String,
    pub module_namespace: Option<String>,
    pub dependencies: Vec<String>,
    pub components: Vec<QmlComponent>,
}

#[derive(Debug)]
pub struct QmlComponent {
    pub name: String,
    pub prototypes: Option<String>,
    pub exports: Option<Vec<ModuleExport>>,
    pub qmlenums: Vec<QmlEnum>,
    pub creatable: bool,
    pub properties: Vec<QmlProperty>,
    pub signals: Vec<QmlSignal>,
    pub methods: Vec<QmlMethod>,
}

#[derive(Debug)]
pub struct ModuleExport {
    pub uri: String,
    pub name: String,
    pub version: String,
}

#[derive(Debug)]
pub struct QmlEnum {
    pub name: String,
    pub values: Vec<(String, u32)>,
}

#[derive(Debug)]
pub struct QmlProperty {
    pub name: String,
    pub qmltype: String,
    pub readonly: bool,
}

#[derive(Debug)]
pub struct QmlMethod {
    pub name: String,
    pub parmaters: Vec<QmlParmater>,
}

#[derive(Debug)]
pub struct QmlSignal {
    pub name: String,
    pub parmaters: Vec<QmlParmater>,
}

#[derive(Debug)]
pub struct QmlParmater {
    pub name: String,
    pub qmltype: String,
}

/// Whether an `exports` entry reads as `uri/name version`: a space after the uri and
/// name, and a `/` between them.
pub open spec fn plugin_export_readable(exportname: Seq<char>) -> bool {
    let colone = split_seq(exportname, ' ');
    colone.len() >= 2 && split_seq(colone[0], '/').len() >= 2
}

/// One element of an `exports` array: a string must hold a readable export.
pub open spec fn plugin_export_step(lines: Seq<Seq<u8>>) -> spec_fn((), SyntaxNode) -> Option<()> {
    |st: (), c: SyntaxNode|
        if c.kind@ == "string"@ {
            match child_at(c, 1) {
                None => None,
                Some(e) => match span_text(lines, e) {
                    None => None,
                    Some(exportname) => if plugin_export_readable(exportname) {
                        Some(())
                    } else {
                        None
                    },
                },
            }
        } else {
            Some(())
        }
}

/// One node of a component: a binding needs a readable name; `name` needs a quoted
/// value, `exports` an array of readable exports.
pub open spec fn plugin_component_step(lines: Seq<Seq<u8>>) -> spec_fn((), SyntaxNode) -> Option<()> {
    |st: (), c: SyntaxNode|
        if c.kind@ == "ui_binding"@ {
            match binding_name(lines, c) {
                None => None,
                Some(idname) => if idname == "name"@ {
                    match quoted_value(lines, c) {
                        None => None,
                        Some(_) => Some(()),
                    }
                } else if idname == "exports"@ {
                    match field_child(c, "value"@) {
                        None => None,
                        Some(v) => match child_at(v, 0) {
                            None => None,
                            Some(array) => fold_nodes(array.children@, (), plugin_export_step(lines)),
                        },
                    }
                } else {
                    Some(())
                },
            }
        } else {
            Some(())
        }
}

/// One top-level node: a binding needs a readable name, and `dependencies` an array of
/// readable strings; an object definition needs an initializer whose nodes read.
pub open spec fn plugin_module_step(lines: Seq<Seq<u8>>) -> spec_fn((), SyntaxNode) -> Option<()> {
    |st: (), c: SyntaxNode|
        if c.kind@ == "ui_binding"@ {
            match binding_name(lines, c) {
                None => None,
                Some(idname) => if idname == "dependencies"@ {
                    match field_child(c, "value"@) {
                        None => None,
                        Some(v) => match child_at(v, 0) {
                            None => None,
                            Some(array) => match fold_nodes(array.children@, Seq::empty(), string_step(lines)) {
                                None => None,
                                Some(_) => Some(()),
                            },
                        },
                    }
                } else {
                    Some(())
                },
            }
        } else if c.kind@ == "ui_object_definition"@ {
            match field_child(c, "initializer"@) {
                None => None,
                Some(ui_root) => fold_nodes(ui_root.children@, (), plugin_component_step(lines)),
            }
        } else {
            Some(())
        }
}

/// Whether the walk over the syntax tree `root` of a module description gets through:
/// a `root` object with an initializer whose nodes all read.
pub open spec fn plugins_readable(lines: Seq<Seq<u8>>, root: SyntaxNode) -> bool {
    match field_child(root, "root"@) {
        None => false,
        Some(r) => match field_child(r, "initializer"@) {
            None => false,
            Some(init) => fold_nodes(init.children@, (), plugin_module_step(lines)) is Some,
        },
    }
}

/// Whether `exportname` reads as an export (see [`plugin_export_readable`]).
fn export_readable(exportname: &str) -> (r: bool)
    ensures
        r == plugin_export_readable(exportname@),
{
    let colone = split_string(exportname, ' ');
    if colone.len() < 2 {
        return false;
    }
    assert(views(colone@)[0] == colone@[0]@);
    let exporturis = split_string(colone[0].as_str(), '/');
    exporturis.len() >= 2
}

fn export_entry_reads(lines: &Vec<Vec<u8>>, c: &SyntaxNode) -> (r: bool)
    ensures
        r == ((plugin_export_step(rows(lines@)))((), *c) is Some),
{
    if !kind_is(c, "string") {
        return true;
    }
    match nth_child(c, 1) {
        None => false,
        Some(exp) => match node_text(lines, exp) {
            None => false,
            Some(exportname) => export_readable(exportname.as_str()),
        },
    }
}

/// Whether the nodes of `array` all read (`step` over them gets through).
fn exports_read(lines: &Vec<Vec<u8>>, array: &SyntaxNode) -> (r: bool)
    ensures
        r == (fold_nodes(array.children@, (), plugin_export_step(rows(lines@))) is Some),
{
    let ghost cs = array.children@;
    let ghost step = plugin_export_step(rows(lines@));
    let mut i: usize = 0;
    while i < array.children.len()
        invariant
            cs == array.children@,
            step == plugin_export_step(rows(lines@)),
            i <= cs.len(),
            fold_nodes(cs.take(i as int), (), step) == Some(()),
        decreases cs.len() - i,
    {
        proof { lemma_fold_nodes_step(cs, (), step, i as int); }
        if !export_entry_reads(lines, &array.children[i]) {
            proof { lemma_fold_nodes_prefix_none(cs, (), step, i + 1); }
            return false;
        }
        i = i + 1;
    }
    proof { lemma_take_all(cs); }
    true
}

fn component_entry_reads(lines: &Vec<Vec<u8>>, c: &SyntaxNode) -> (r: bool)
    ensures
        r == ((plugin_component_step(rows(lines@)))((), *c) is Some),
{
    if !kind_is(c, "ui_binding") {
        return true;
    }
    let idname = match binding_name_of(lines, c) {
        Ok(n) => n,
        Err(_) => return false,
    };
    if text_is(idname.as_str(), "name") {
        quoted_value_of(lines, c).is_ok()
    } else if text_is(idname.as_str(), "exports") {
        match child_by_field(c, "value") {
            None => false,
            Some(value) => match nth_child(value, 0) {
                None => false,
                Some(array) => exports_read(lines, array),
            },
        }
    } else {
        true
    }
}

fn component_reads(lines: &Vec<Vec<u8>>, ui_root: &SyntaxNode) -> (r: bool)
    ensures
        r == (fold_nodes(ui_root.children@, (), plugin_component_step(rows(lines@))) is Some),
{
    let ghost cs = ui_root.children@;
    let ghost step = plugin_component_step(rows(lines@));
    let mut i: usize = 0;
    while i < ui_root.children.len()
        invariant
            cs == ui_root.children@,
            step == plugin_component_step(rows(lines@)),
            i <= cs.len(),
            fold_nodes(cs.take(i as int), (), step) == Some(()),
        decreases cs.len() - i,
    {
        proof { lemma_fold_nodes_step(cs, (), step, i as int); }
        if !component_entry_reads(lines, &ui_root.children[i]) {
            proof { lemma_fold_nodes_prefix_none(cs, (), step, i + 1); }
            return false;
        }
        i = i + 1;
    }
    proof { lemma_take_all(cs); }
    true
}

fn module_entry_reads(lines: &Vec<Vec<u8>>, c: &SyntaxNode) -> (r: bool)
    ensures
        r == ((plugin_module_step(rows(lines@)))((), *c) is Some),
{
    if kind_is(c, "ui_binding") {
        let idname = match binding_name_of(lines, c) {
            Ok(n) => n,
            Err(_) => return false,
        };
        if text_is(idname.as_str(), "dependencies") {
            match child_by_field(c, "value") {
                None => false,
                Some(value) => match nth_child(value, 0) {
                    None => false,
                    Some(array) => {
                        let mut dependencies: Vec<String> = Vec::new();
                        assert(super::strings_view(dependencies@) =~= Seq::<Seq<char>>::empty());
                        strings_in(lines, array, &mut dependencies).is_ok()
                    },
                },
            }
        } else {
            true
        }
    } else if kind_is(c, "ui_object_definition") {
        match child_by_field(c, "initializer") {
            None => false,
            Some(ui_root) => component_reads(lines, ui_root),
        }
    } else {
        true
    }
}

/// The walk of the plugin reader over the syntax tree `tree` of `content`:
/// nothing when it gets through (see [`plugins_readable`]), else `Malformed`.
pub fn module_from_tree(tree: &SyntaxNode, content: &str, namespace: Option<String>, path: &str) -> (r: Result<Option<QmlModule>, ModuleError>)
    ensures
        match r {
            Ok(o) => o is None && plugins_readable(lines_of(content@), *tree),
            Err(e) => e == ModuleError::Malformed && !plugins_readable(lines_of(content@), *tree),
        },
{
    let lines = split_lines(content);
    let root = match child_by_field(tree, "root") {
        Some(r) => r,
        None => return Err(ModuleError::Malformed),
    };
    let root = match child_by_field(root, "initializer") {
        Some(r) => r,
        None => return Err(ModuleError::Malformed),
    };
    let ghost cs = root.children@;
    let ghost step = plugin_module_step(rows(lines@));
    assert(plugins_readable(lines_of(content@), *tree) == (fold_nodes(cs, (), step) is Some));
    let mut i: usize = 0;
    while i < root.children.len()
        invariant
            plugins_readable(lines_of(content@), *tree) == (fold_nodes(cs, (), step) is Some),
            cs == root.children@,
            step == plugin_module_step(rows(lines@)),
            i <= cs.len(),
            fold_nodes(cs.take(i as int), (), step) == Some(()),
        decreases cs.len() - i,
    {
        proof { lemma_fold_nodes_step(cs, (), step, i as int); }
        if !module_entry_reads(&lines, &root.children[i]) {
            proof { lemma_fold_nodes_prefix_none(cs, (), step, i + 1); }
            return Err(ModuleError::Malformed);
        }
        i = i + 1;
    }
    proof { lemma_take_all(cs); }
    Ok(None)
}

/// The plugin reading of the `.qmltypes` document `content` (see [`module_from_tree`]):
/// never a module; `Malformed` where the walk over the parsed tree does not get through.
pub fn get_module_from_source(content: &str, namespace: Option<String>, path: &str) -> (r: Result<Option<QmlModule>, ModuleError>)
    ensures
        exists|tree: SyntaxNode|
            tree@ == qml_tree(content@) && (#[trigger] plugins_readable(lines_of(content@), tree) <==> r is Ok),
        r matches Ok(o) ==> o is None,
        r matches Err(e) ==> e == ModuleError::Malformed,
{
    let tree = match parse_qml(content) {
        Ok(t) => t,
        Err(ParseFailure::Language) => return Err(ModuleError::Language),
        Err(ParseFailure::NoTree) => return Err(ModuleError::NoTree),
    };
    let r = module_from_tree(&tree, content, namespace, path);
    proof {
        if r is Ok {
            assert(plugins_readable(lines_of(content@), tree));
        } else {
            assert(!plugins_readable(lines_of(content@), tree));
        }
    }
    r
}

impl QmlModule {
    /// The plugin reading of the `.qmltypes` file at `path`, once it is open. It reads
    /// the reader's buffer before anything was read into it, so the content it parses
    /// is empty.
    pub fn new(path: &str) -> (r: Result<Option<QmlModule>, ModuleError>)
        ensures
            exists|tree: SyntaxNode|
                tree@ == qml_tree(""@) && (#[trigger] plugins_readable(lines_of(""@), tree) <==> r is Ok),
            r matches Ok(o) ==> o is None,
            r matches Err(e) ==> e == ModuleError::Malformed,
    {
        get_module_from_source("", None, path)
    }
}

} // verus!
