use substrate::library::{category_label, query_matches, LibraryError, NodeLibrary};
use substrate::schema::{BuiltInHandler, EngineNode, InputValue, NodeDefinition, NodeExecutionPlan};
use substrate::text::{parse_usize, push_decimal, text_contains_exec, text_eq, text_less, trim_text};
use substrate::values::InputValues;

fn lb_def(name: &str, category: &str, subs: &[&str], keywords: &[&str], desc: &str) -> NodeDefinition {
    NodeDefinition {
        node: EngineNode {
            name: name.to_string(),
            inputs: vec![],
            outputs: vec![],
            executor: NodeExecutionPlan::BuiltIn(BuiltInHandler::ImageSource),
            short_description: desc.to_string(),
            long_description: String::new(),
            category: category.to_string(),
            subcategories: subs.iter().map(|s| s.to_string()).collect(),
            search_keywords: keywords.iter().map(|s| s.to_string()).collect(),
        },
        shader_path: None,
        folder_path: String::new(),
    }
}

fn lb_library() -> NodeLibrary {
    let mut lib = NodeLibrary::new();
    lib.insert_definition(lb_def("Gaussian Blur", "Filters", &["Blur"], &["soften"], "Smooths the frame"));
    lib.insert_definition(lb_def("Box Blur", "Filters", &["Blur"], &[], "Averages a box"));
    lib.insert_definition(lb_def("Invert", "Filters", &[], &["negative"], "Flips colours"));
    lib.insert_definition(lb_def("Image", "Sources", &[], &["picture"], "Loads an image file"));
    lib.insert_definition(lb_def("Scratch", "", &[], &[], ""));
    lib
}

fn names(v: &[&NodeDefinition]) -> Vec<String> {
    v.iter().map(|d| d.node.name.clone()).collect()
}

#[test]
fn names_are_unique_in_a_library() {
    let mut lib = lb_library();
    assert!(!lib.insert_definition(lb_def("Invert", "Other", &[], &[], "")));
    assert_eq!(lib.definitions().len(), 5);
    assert_eq!(lib.get_definition("Invert").unwrap().node.category, "Filters");
    assert!(lib.get_definition("invert").is_none());
}

#[test]
fn search_ignores_case() {
    let lib = lb_library();
    assert_eq!(names(&lib.search("BLUR")), vec!["Gaussian Blur".to_string(), "Box Blur".to_string()]);
    assert_eq!(names(&lib.search("Negative")), vec!["Invert".to_string()]);
    assert_eq!(names(&lib.search("image")), vec!["Image".to_string()]);
    assert!(lib.search("zzz").is_empty());
    assert_eq!(lib.search("").len(), 5);
}

#[test]
fn query_rule_checks_name_keywords_and_description() {
    assert!(query_matches("blur", &vec![], "", "lu"));
    assert!(query_matches("x", &vec!["soft".to_string()], "", "soft"));
    assert!(query_matches("x", &vec![], "smooths", "smooth"));
    assert!(!query_matches("x", &vec!["y".to_string()], "z", "w"));
}

#[test]
fn categories_and_subcategories() {
    let lib = lb_library();
    assert_eq!(lib.get_all_categories(), vec!["Filters".to_string(), "Sources".to_string()]);
    assert_eq!(lib.get_category_subcategories("Filters"), vec!["Blur".to_string()]);
    assert!(lib.get_category_subcategories("Sources").is_empty());
    assert_eq!(
        names(&lib.get_subcategory_nodes("Filters", "Blur")),
        vec!["Gaussian Blur".to_string(), "Box Blur".to_string()]
    );
    let info = lib.get_all_category_info();
    assert_eq!(info.len(), 2);
    assert_eq!(info[0].name, "Filters");
    assert_eq!(info[0].subcategories.len(), 1);
    assert_eq!(info[0].subcategories[0].name, "Blur");
    assert_eq!(info[0].subcategories[0].nodes, vec!["Gaussian Blur".to_string(), "Box Blur".to_string()]);
    assert_eq!(info[0].direct_nodes, vec!["Invert".to_string()]);
    assert_eq!(info[1].name, "Sources");
    assert_eq!(info[1].direct_nodes, vec!["Image".to_string()]);
}

#[test]
fn names_in_order() {
    let lib = lb_library();
    assert_eq!(
        lib.node_names(),
        vec!["Gaussian Blur", "Box Blur", "Invert", "Image", "Scratch"]
            .into_iter()
            .map(String::from)
            .collect::<Vec<_>>()
    );
    assert_eq!(
        names(&lib.definitions_by_name()),
        vec!["Box Blur", "Gaussian Blur", "Image", "Invert", "Scratch"]
            .into_iter()
            .map(String::from)
            .collect::<Vec<_>>()
    );
    assert_eq!(category_label(""), "Other");
    assert_eq!(category_label("Filters"), "Filters");
}

#[test]
fn prebuilt_nodes_win_over_user_nodes() {
    let mut prebuilt = NodeLibrary::new();
    prebuilt.insert_definition(lb_def("Invert", "Filters", &[], &[], "prebuilt"));
    let mut user = NodeLibrary::new();
    user.insert_definition(lb_def("Invert", "Mine", &[], &[], "user"));
    user.insert_definition(lb_def("Glitch", "Mine", &[], &[], "user"));
    let lib = NodeLibrary::load_all(Ok(prebuilt), Ok(user)).unwrap();
    assert_eq!(lib.node_names(), vec!["Invert".to_string(), "Glitch".to_string()]);
    assert_eq!(lib.get_definition("Invert").unwrap().node.short_description, "prebuilt");
}

#[test]
fn load_errors_come_through() {
    let err = |p: &str| LibraryError::NodesFolderNotFound { path: p.to_string() };
    let r = NodeLibrary::load_all(Err(err("prebuilt")), Err(err("user")));
    assert!(matches!(r, Err(LibraryError::NodesFolderNotFound { ref path }) if path == "prebuilt"));
    let r = NodeLibrary::load_all(Ok(NodeLibrary::new()), Err(err("user")));
    assert!(matches!(r, Err(LibraryError::NodesFolderNotFound { ref path }) if path == "user"));
}

#[test]
fn input_values_map() {
    let mut v = InputValues::new();
    assert!(!v.contains_key("Radius"));
    v.insert("Radius".to_string(), InputValue::Int(3));
    v.insert("Mode".to_string(), InputValue::Enum(1));
    v.insert("Radius".to_string(), InputValue::Int(5));
    assert!(matches!(v.get("Radius"), Some(InputValue::Int(5))));
    assert_eq!(v.keys(), vec!["Radius".to_string(), "Mode".to_string()]);
    assert_eq!(v.values().len(), 2);
    v.remove("Radius");
    assert!(v.get("Radius").is_none());
    assert_eq!(v.keys(), vec!["Mode".to_string()]);
    v.remove("Nothing");
    assert_eq!(v.keys().len(), 1);
}

#[test]
fn text_helpers() {
    assert!(text_eq("abc", "abc"));
    assert!(!text_eq("abc", "abd"));
    assert!(text_less("Box", "Gauss"));
    assert!(text_less("Ab", "Abc"));
    assert!(!text_less("b", "a"));
    assert!(text_contains_exec("gaussian blur", "blur"));
    assert!(text_contains_exec("x", ""));
    assert!(!text_contains_exec("blu", "blur"));
    assert_eq!(trim_text("  hi there \n"), "hi there");
    assert_eq!(trim_text("   "), "");
    let mut s = String::from("n=");
    push_decimal(&mut s, 0);
    push_decimal(&mut s, 1209);
    assert_eq!(s, "n=01209");
}

#[test]
fn parse_numbers_like_std() {
    assert_eq!(parse_usize("42"), Some(42));
    assert_eq!(parse_usize("+7"), Some(7));
    assert_eq!(parse_usize("007"), Some(7));
    assert_eq!(parse_usize(""), None);
    assert_eq!(parse_usize("+"), None);
    assert_eq!(parse_usize("-1"), None);
    assert_eq!(parse_usize("4 2"), None);
    assert_eq!(parse_usize("99999999999999999999999"), None);
    for s in ["0", "18446744073709551615", "18446744073709551616", "1x"] {
        assert_eq!(parse_usize(s), s.parse::<usize>().ok());
    }
}
