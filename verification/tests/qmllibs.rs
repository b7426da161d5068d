use neoqmllsp::complete::qmllibs::pluginsgenerate;
use neoqmllsp::complete::qmllibs::qmlpropertygenerate::{get_property_from_source, try_get_property_from_source};
use neoqmllsp::complete::qmllibs::{
    buildinpath, get_module_from_source, get_namespace, modules_pattern, module_from_tree, namespace_of,
    try_get_namespace, ModuleError, QmlModule,
};
use neoqmllsp::parse::parse_qml;
use neoqmllsp::syntax::{child_by_field, SyntaxNode};

const BUILTINS: &str = r#"import QtQuick.tooling 1.2

// This file describes the plugin-supplied types contained in the library.

Module {
    dependencies: []
    Component {
        name: "QObject"
        exports: ["QtQml/QtObject 2.0"]
        Property {
            name: "objectName"
            type: "string"
        }
        Signal {
            name: "objectNameChanged"
            Parameter {
                name: "objectName"
                type: "string"
            }
        }
        Method {
            name: "toString"
        }
        Method {
            name: "destroyed"
            Parameter {
                type: "QObject"
                isPointer: true
            }
        }
    }
    Component {
        name: "Qt"
        isSingleton: true
        Enum {
            name: "GlobalColor"
            values: {
                "color0": 0,
                "color1": 1,
                "black": 2
            }
        }
    }
}
"#;

const PLUGINS: &str = r#"import QtQuick.tooling 1.2

Module {
    dependencies: ["QtQuick 2.0", "QtQml 2.2"]
    Component {
        name: "QQuickItem"
        prototype: "QObject"
        exports: ["QtQuick/Item 2.0", "Item 2.1"]
        isCreateable: true
        Property {
            name: "parent"
            type: "QQuickItem"
            isPointer: true
            isReadonly: true
        }
        Property {
            name: "width"
            type: "double"
        }
    }
    Component {
        name: "QQuickText"
        prototype: "QQuickItem"
    }
}
"#;

fn strings(v: &Vec<String>) -> Vec<&str> {
    v.iter().map(|s| s.as_str()).collect()
}

#[test]
fn qmllibs_tst_qmltypes_message() {
    get_module_from_source(BUILTINS, None, "ss").unwrap();
    get_module_from_source(PLUGINS, None, "ss").unwrap();
}

#[test]
fn pluginsgenerate_tst_qmltypes_message() {
    pluginsgenerate::get_module_from_source(BUILTINS, None, "ss").unwrap();
}

#[test]
fn tst_path() {
    assert_eq!(
        get_namespace("/usr/lib/qt/qml/QtQml/StateMachine", "/usr/lib/qt/qml"),
        "QtQml.StateMachine".to_string()
    );
}

#[test]
fn builtins_module_is_read_whole() {
    let m = get_module_from_source(BUILTINS, None, "ss").unwrap();
    assert_eq!(m.plugin_location, "ss");
    assert_eq!(m.module_namespace, None);
    assert!(m.dependencies.is_empty());
    assert_eq!(m.components.len(), 2);

    let object = &m.components[0];
    assert_eq!(object.name, "QObject");
    assert_eq!(object.prototype, None);
    let exports = object.exports.as_ref().unwrap();
    assert_eq!(exports.len(), 1);
    assert_eq!(exports[0].uri, "QtQml");
    assert_eq!(exports[0].name, "QtObject");
    assert_eq!(exports[0].version, "2.0");
    assert!(!object.iscreatable);
    assert!(!object.issingleton);
    assert_eq!(object.properties.len(), 1);
    assert_eq!(object.properties[0].name, "objectName");
    assert_eq!(object.properties[0].qmltype, "string");
    assert!(!object.properties[0].ispointer);
    assert!(!object.properties[0].isreadonly);
    assert_eq!(object.signals.len(), 1);
    assert_eq!(object.signals[0].name, "objectNameChanged");
    assert_eq!(object.signals[0].parmaters.len(), 1);
    assert_eq!(object.signals[0].parmaters[0].name, "objectName");
    assert_eq!(object.signals[0].parmaters[0].qmltype, "string");
    assert!(!object.signals[0].parmaters[0].ispointer);
    assert_eq!(object.methods.len(), 2);
    assert_eq!(object.methods[0].name, "toString");
    assert!(object.methods[0].parmaters.is_empty());
    assert_eq!(object.methods[1].name, "destroyed");
    assert_eq!(object.methods[1].parmaters.len(), 1);
    assert_eq!(object.methods[1].parmaters[0].name, "");
    assert_eq!(object.methods[1].parmaters[0].qmltype, "QObject");
    assert!(object.methods[1].parmaters[0].ispointer);

    let qt = &m.components[1];
    assert_eq!(qt.name, "Qt");
    assert!(qt.issingleton);
    assert!(qt.exports.is_none());
    assert_eq!(qt.qmlenums.len(), 1);
    assert_eq!(qt.qmlenums[0].name, "GlobalColor");
    let values: Vec<(&str, i32)> = qt.qmlenums[0].values.iter().map(|(k, v)| (k.as_str(), *v)).collect();
    assert_eq!(values, vec![("color0", 0), ("color1", 1), ("black", 2)]);
}

#[test]
fn plugins_module_keeps_dependencies_and_exports() {
    let m = get_module_from_source(PLUGINS, Some("QtQuick".to_string()), "/qml/QtQuick/plugins.qmltypes").unwrap();
    assert_eq!(m.plugin_location, "/qml/QtQuick/plugins.qmltypes");
    assert_eq!(m.module_namespace.as_deref(), Some("QtQuick"));
    assert_eq!(strings(&m.dependencies), vec!["QtQuick 2.0", "QtQml 2.2"]);
    assert_eq!(m.components.len(), 2);
    let item = &m.components[0];
    assert_eq!(item.name, "QQuickItem");
    assert_eq!(item.prototype.as_deref(), Some("QObject"));
    assert!(item.iscreatable);
    let exports = item.exports.as_ref().unwrap();
    assert_eq!(exports.len(), 2);
    assert_eq!((exports[0].uri.as_str(), exports[0].name.as_str(), exports[0].version.as_str()), ("QtQuick", "Item", "2.0"));
    // an export without a module path takes the namespace of the module
    assert_eq!((exports[1].uri.as_str(), exports[1].name.as_str(), exports[1].version.as_str()), ("QtQuick", "Item", "2.1"));
    assert_eq!(item.properties.len(), 2);
    assert_eq!(item.properties[0].name, "parent");
    assert_eq!(item.properties[0].qmltype, "QQuickItem");
    assert!(item.properties[0].ispointer);
    assert!(item.properties[0].isreadonly);
    assert_eq!(item.properties[1].name, "width");
    assert_eq!(item.properties[1].qmltype, "double");
    let text = &m.components[1];
    assert_eq!(text.name, "QQuickText");
    assert_eq!(text.prototype.as_deref(), Some("QQuickItem"));
    assert!(text.exports.is_none());
    assert!(text.properties.is_empty());
}

#[test]
fn export_without_path_and_namespace_has_empty_uri() {
    let m = get_module_from_source(PLUGINS, None, "p").unwrap();
    let exports = m.components[0].exports.as_ref().unwrap();
    assert_eq!(exports[1].uri, "");
    assert_eq!(exports[1].name, "Item");
}

#[test]
fn a_document_without_root_object_is_nothing_here() {
    assert_eq!(get_module_from_source("", None, "p").unwrap_err(), ModuleError::NothingHere);
    assert_eq!(get_module_from_source("import QtQuick 2.0\n", None, "p").unwrap_err(), ModuleError::NothingHere);
}

#[test]
fn module_from_hand_built_tree_without_root_is_nothing_here() {
    let tree = SyntaxNode {
        kind: "program".to_string(),
        field: None,
        start: neoqmllsp::syntax::Point { row: 0, column: 0 },
        end: neoqmllsp::syntax::Point { row: 0, column: 0 },
        is_error: false,
        has_error: false,
        children: vec![],
    };
    assert_eq!(module_from_tree(&tree, "", None, "p").unwrap_err(), ModuleError::NothingHere);
}

#[test]
fn module_counts_one_component_per_object() {
    let src = "Module {\n    Component {\n    }\n    Component {\n    }\n    Component {\n    }\n}\n";
    let m = get_module_from_source(src, None, "p").unwrap();
    assert_eq!(m.components.len(), 3);
    for c in &m.components {
        assert_eq!(c.name, "");
        assert!(c.exports.is_none());
    }
}

#[test]
fn property_read_from_its_initializer() {
    let src = "Property {\n    name: \"height\"\n    type: \"real\"\n    isReadonly: true\n}\n";
    let tree = parse_qml(src).unwrap();
    let root = child_by_field(&tree, "root").unwrap();
    let init = child_by_field(root, "initializer").unwrap();
    let p = get_property_from_source(src, init);
    assert_eq!(p.name, "height");
    assert_eq!(p.qmltype, "real");
    assert!(p.isreadonly);
    assert!(!p.ispointer);
    let q = try_get_property_from_source(src, init).unwrap();
    assert_eq!(q.name, "height");
}

#[test]
fn paths_under_the_installation() {
    assert_eq!(buildinpath("/usr/lib/qt/qml"), "/usr/lib/qt/qml/builtins.qmltypes");
    assert_eq!(modules_pattern("/usr/lib/qt/qml"), "/usr/lib/qt/qml/**/*.qmltypes");
}

#[test]
fn namespace_dots_every_slash() {
    assert_eq!(namespace_of("QtQuick/Controls/impl"), "QtQuick.Controls.impl");
    assert_eq!(namespace_of(""), "");
    assert_eq!(namespace_of("Qt"), "Qt");
    let ns = namespace_of("a/b/c/d");
    assert!(!ns.contains('/'));
    assert_eq!(ns.len(), "a/b/c/d".len());
}

#[test]
fn namespace_of_the_installation_root_is_empty() {
    assert_eq!(get_namespace("/usr/lib/qt/qml", "/usr/lib/qt/qml"), "");
}

#[test]
fn namespace_of_a_relative_path_from_an_absolute_root_is_none() {
    assert_eq!(try_get_namespace("QtQuick", "/usr/lib/qt/qml"), None);
    assert_eq!(try_get_namespace("/usr/lib/qt/qml/QtQuick/Window", "/usr/lib/qt/qml").as_deref(), Some("QtQuick.Window"));
}

#[test]
fn module_new_takes_the_namespace_of_its_directory() {
    let m = QmlModule::new("/usr/lib/qt/qml/QtQuick/plugins.qmltypes", PLUGINS, "/usr/lib/qt/qml").unwrap();
    assert_eq!(m.module_namespace.as_deref(), Some("QtQuick"));
    assert_eq!(m.plugin_location, "/usr/lib/qt/qml/QtQuick/plugins.qmltypes");
    assert_eq!(m.components[0].exports.as_ref().unwrap()[1].uri, "QtQuick");
    let t = QmlModule::try_new("/usr/lib/qt/qml/QtQuick/plugins.qmltypes", PLUGINS, "/usr/lib/qt/qml").unwrap().unwrap();
    assert_eq!(t.module_namespace.as_deref(), Some("QtQuick"));
    assert!(QmlModule::try_new("", PLUGINS, "/usr/lib/qt/qml").is_none());
}

#[test]
fn builtin_types_have_no_namespace() {
    let m = QmlModule::buildintypes(BUILTINS, "/usr/lib/qt/qml").unwrap();
    assert_eq!(m.plugin_location, "/usr/lib/qt/qml/builtins.qmltypes");
    assert_eq!(m.module_namespace, None);
    assert_eq!(m.components.len(), 2);
}

#[test]
fn plugin_reader_never_gives_a_module() {
    let all_with_paths = PLUGINS.replace("\"Item 2.1\"", "\"QtQuick/Item 2.1\"");
    assert!(pluginsgenerate::get_module_from_source(&all_with_paths, None, "p").unwrap().is_none());
    // the plugin reader wants a module path in every export
    assert_eq!(pluginsgenerate::get_module_from_source(PLUGINS, None, "p").unwrap_err(), ModuleError::Malformed);
    assert_eq!(pluginsgenerate::get_module_from_source("", None, "p").unwrap_err(), ModuleError::Malformed);
    assert_eq!(pluginsgenerate::QmlModule::new("/usr/lib/qt/qml/QtQuick/plugins.qmltypes").unwrap_err(), ModuleError::Malformed);
}

#[test]
fn enum_values_read_signs_and_reject_overflow() {
    let src = "Module {\n    Component {\n        Enum {\n            name: \"E\"\n            values: {\n                \"A\": -3,\n                \"B\": +4,\n                \"C\": 2147483647\n            }\n        }\n    }\n}\n";
    let m = get_module_from_source(src, None, "p").unwrap();
    let values: Vec<(&str, i32)> = m.components[0].qmlenums[0].values.iter().map(|(k, v)| (k.as_str(), *v)).collect();
    assert_eq!(values, vec![("A", -3), ("B", 4), ("C", 2147483647)]);
    let too_big = src.replace("2147483647", "2147483648");
    assert_eq!(get_module_from_source(&too_big, None, "p").unwrap_err(), ModuleError::Malformed);
}
