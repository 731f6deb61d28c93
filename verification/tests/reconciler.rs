use dioxus_menu::accel::{parse_accelerator, Accelerator, KeyCode};
use dioxus_menu::materialize::OutputNode;
use dioxus_menu::types::{
    AttributeValue, Instruction, MenuError, TemplateAttribute, TemplateDef, TemplateNodeDef,
    Warning,
};
use dioxus_menu::Menu;

fn text(s: &str) -> TemplateNodeDef {
    TemplateNodeDef::Text { text: s.to_string() }
}

fn item_with_accel(accel: &str, label: &str) -> TemplateNodeDef {
    TemplateNodeDef::Element {
        attrs: vec![TemplateAttribute::Static {
            name: "accelerator".to_string(),
            value: accel.to_string(),
        }],
        children: vec![text(label)],
    }
}

fn plain_item(label: &str) -> TemplateNodeDef {
    TemplateNodeDef::Element { attrs: Vec::new(), children: vec![text(label)] }
}

fn template(name: &str, roots: Vec<TemplateNodeDef>) -> TemplateDef {
    TemplateDef { name: name.to_string(), roots }
}

fn instantiate(name: &str, index: usize, id: u64) -> Instruction {
    Instruction::InstantiateTemplate { name: name.to_string(), root_index: index, id }
}

fn attach(parent: u64, count: usize) -> Instruction {
    Instruction::AttachChildren { parent, count }
}

fn set_attr(id: u64, name: &str, value: AttributeValue) -> Instruction {
    Instruction::SetAttribute { id, name: name.to_string(), value }
}

fn materialized(menu: &Menu) -> Vec<OutputNode> {
    menu.materialize().expect("materialize should succeed")
}

#[test]
fn end_to_end_quit_item() {
    let mut menu = Menu::new();
    menu.register(&template("root-menu", vec![item_with_accel("CMD+Q", "Quit")]))
        .unwrap();
    let ws = menu
        .apply(&vec![instantiate("root-menu", 0, 1), attach(0, 1)])
        .unwrap();
    assert!(ws.is_empty());
    let out = materialized(&menu);
    assert_eq!(out.len(), 1);
    assert_eq!(out[0].text, "Quit");
    assert!(!out[0].enabled);
    let expected = parse_accelerator("CMD+Q").unwrap();
    assert_eq!(out[0].accelerator, Some(expected));
    assert!(expected.meta && !expected.ctrl && !expected.shift && !expected.alt);
    assert_eq!(expected.code, KeyCode::Character('Q'));
}

#[test]
fn end_to_end_with_enable_patch() {
    let mut menu = Menu::new();
    menu.register(&template("root-menu", vec![item_with_accel("CMD+Q", "Quit")]))
        .unwrap();
    let ws = menu
        .apply(&vec![
            instantiate("root-menu", 0, 1),
            attach(0, 1),
            set_attr(1, "enabled", AttributeValue::Bool(true)),
        ])
        .unwrap();
    assert!(ws.is_empty());
    let out = materialized(&menu);
    assert_eq!(out.len(), 1);
    assert!(out[0].enabled);
}

#[test]
fn rebuild_runs_whole_pass() {
    let mut menu = Menu::new();
    let (out, ws) = menu
        .rebuild(
            &vec![template("root-menu", vec![item_with_accel("CMD+Q", "Quit")])],
            &vec![instantiate("root-menu", 0, 1), attach(0, 1)],
        )
        .unwrap();
    assert!(ws.is_empty());
    assert_eq!(out.len(), 1);
    assert_eq!(out[0].text, "Quit");
}

#[test]
fn attachment_restores_declared_order() {
    let mut menu = Menu::new();
    menu.register(&template(
        "m",
        vec![plain_item("Open"), plain_item("Save"), plain_item("Quit")],
    ))
    .unwrap();
    menu.apply(&vec![
        instantiate("m", 0, 1),
        instantiate("m", 1, 2),
        instantiate("m", 2, 3),
        attach(0, 3),
    ])
    .unwrap();
    let out = materialized(&menu);
    assert_eq!(out.len(), 3);
    assert_eq!(out[0].text, "Open");
    assert_eq!(out[1].text, "Save");
    assert_eq!(out[2].text, "Quit");
}

#[test]
fn enabled_last_write_wins() {
    let mut menu = Menu::new();
    menu.register(&template("m", vec![plain_item("Open")])).unwrap();
    menu.apply(&vec![
        instantiate("m", 0, 1),
        attach(0, 1),
        set_attr(1, "enabled", AttributeValue::Bool(true)),
        set_attr(1, "enabled", AttributeValue::Bool(false)),
    ])
    .unwrap();
    let out = materialized(&menu);
    assert!(!out[0].enabled);
}

#[test]
fn register_twice_replaces_without_duplicating() {
    let mut menu = Menu::new();
    let def = template("m", vec![item_with_accel("CMD+O", "Open")]);
    menu.register(&def).unwrap();
    menu.register(&def).unwrap();
    assert_eq!(menu.templates.len(), 1);
    menu.apply(&vec![instantiate("m", 0, 1), attach(0, 1)]).unwrap();
    let out = materialized(&menu);
    assert_eq!(out.len(), 1);
    assert_eq!(out[0].text, "Open");
    assert_eq!(out[0].accelerator, Some(parse_accelerator("CMD+O").unwrap()));
}

#[test]
fn output_length_matches_attached_items() {
    let mut menu = Menu::new();
    menu.register(&template("m", vec![plain_item("A"), plain_item("B")])).unwrap();
    menu.apply(&vec![
        instantiate("m", 0, 1),
        instantiate("m", 1, 2),
        attach(0, 2),
    ])
    .unwrap();
    assert_eq!(materialized(&menu).len(), 2);
}

#[test]
fn accelerator_patch_round_trips() {
    let mut menu = Menu::new();
    menu.register(&template("m", vec![plain_item("Open")])).unwrap();
    let ws = menu
        .apply(&vec![
            instantiate("m", 0, 1),
            attach(0, 1),
            set_attr(1, "accelerator", AttributeValue::Text("ctrl+shift+p".to_string())),
        ])
        .unwrap();
    assert!(ws.is_empty());
    let out = materialized(&menu);
    let stored = out[0].accelerator.unwrap();
    assert_eq!(stored, parse_accelerator("ctrl+shift+p").unwrap());
    assert_eq!(stored, parse_accelerator("CTRL+SHIFT+P").unwrap());
    assert!(stored.ctrl && stored.shift);
    assert_eq!(stored.code, KeyCode::Character('P'));
}

#[test]
fn nested_element_child_is_rejected() {
    let mut menu = Menu::new();
    let nested = TemplateNodeDef::Element {
        attrs: Vec::new(),
        children: vec![TemplateNodeDef::Element { attrs: Vec::new(), children: Vec::new() }],
    };
    menu.register(&template("m", vec![nested])).unwrap();
    let err = menu.apply(&vec![instantiate("m", 0, 1)]).unwrap_err();
    assert_eq!(err, MenuError::UnsupportedNestedElement);
}

#[test]
fn unknown_template_is_fatal() {
    let mut menu = Menu::new();
    let err = menu.apply(&vec![instantiate("missing", 0, 1)]).unwrap_err();
    assert_eq!(err, MenuError::TemplateNotFound);
}

#[test]
fn root_index_out_of_range_is_fatal() {
    let mut menu = Menu::new();
    menu.register(&template("m", vec![plain_item("A")])).unwrap();
    let err = menu.apply(&vec![instantiate("m", 5, 1)]).unwrap_err();
    assert_eq!(err, MenuError::RootIndexOutOfRange);
}

#[test]
fn text_root_is_unsupported() {
    let mut menu = Menu::new();
    menu.register(&template("m", vec![text("just text")])).unwrap();
    let err = menu.apply(&vec![instantiate("m", 0, 1)]).unwrap_err();
    assert_eq!(err, MenuError::UnsupportedTextRoot);
}

#[test]
fn reserved_root_id_cannot_be_overwritten() {
    let mut menu = Menu::new();
    menu.register(&template("m", vec![plain_item("A")])).unwrap();
    let err = menu.apply(&vec![instantiate("m", 0, 0)]).unwrap_err();
    assert_eq!(err, MenuError::RootOverwrite);
}

#[test]
fn set_attribute_on_unknown_id_is_fatal() {
    let mut menu = Menu::new();
    let err = menu
        .apply(&vec![set_attr(9, "enabled", AttributeValue::Bool(true))])
        .unwrap_err();
    assert_eq!(err, MenuError::DanglingHandle);
}

#[test]
fn attach_to_unknown_parent_is_fatal() {
    let mut menu = Menu::new();
    let err = menu.apply(&vec![attach(7, 0)]).unwrap_err();
    assert_eq!(err, MenuError::DanglingHandle);
}

#[test]
fn attach_to_item_is_not_a_container() {
    let mut menu = Menu::new();
    menu.register(&template("m", vec![plain_item("A")])).unwrap();
    let err = menu
        .apply(&vec![instantiate("m", 0, 1), attach(0, 1), attach(1, 0)])
        .unwrap_err();
    assert_eq!(err, MenuError::NotAContainer);
}

#[test]
fn attach_underflow_is_fatal() {
    let mut menu = Menu::new();
    let err = menu.apply(&vec![attach(0, 1)]).unwrap_err();
    assert_eq!(err, MenuError::StackUnderflow);
}

#[test]
fn malformed_static_accelerator_fails_registration() {
    let mut menu = Menu::new();
    let err = menu
        .register(&template("m", vec![item_with_accel("NOPE+NOPE", "Bad")]))
        .unwrap_err();
    assert_eq!(err, MenuError::InvalidAccelerator);
}

#[test]
fn unsupported_attribute_is_reported_and_skipped() {
    let mut menu = Menu::new();
    menu.register(&template("m", vec![plain_item("A")])).unwrap();
    let ws = menu
        .apply(&vec![
            instantiate("m", 0, 1),
            attach(0, 1),
            set_attr(1, "color", AttributeValue::Text("red".to_string())),
        ])
        .unwrap();
    assert_eq!(ws, vec![Warning::UnsupportedAttribute { id: 1 }]);
    assert_eq!(materialized(&menu).len(), 1);
}

#[test]
fn malformed_accelerator_patch_keeps_prior_value() {
    let mut menu = Menu::new();
    menu.register(&template("m", vec![item_with_accel("CMD+O", "Open")])).unwrap();
    let ws = menu
        .apply(&vec![
            instantiate("m", 0, 1),
            attach(0, 1),
            set_attr(1, "accelerator", AttributeValue::Text("not an accel".to_string())),
        ])
        .unwrap();
    assert_eq!(ws, vec![Warning::MalformedAccelerator { id: 1 }]);
    let out = materialized(&menu);
    assert_eq!(out[0].accelerator, Some(parse_accelerator("CMD+O").unwrap()));
}

#[test]
fn wrongly_typed_attribute_value_is_reported() {
    let mut menu = Menu::new();
    menu.register(&template("m", vec![plain_item("A")])).unwrap();
    let ws = menu
        .apply(&vec![
            instantiate("m", 0, 1),
            attach(0, 1),
            set_attr(1, "enabled", AttributeValue::Text("yes".to_string())),
        ])
        .unwrap();
    assert_eq!(ws, vec![Warning::AttributeTypeMismatch { id: 1 }]);
    assert!(!materialized(&menu)[0].enabled);
}

#[test]
fn unsupported_instruction_is_reported_and_skipped() {
    let mut menu = Menu::new();
    let ws = menu.apply(&vec![Instruction::Unsupported]).unwrap();
    assert_eq!(ws, vec![Warning::UnsupportedInstruction]);
    assert_eq!(materialized(&menu).len(), 0);
}

#[test]
fn parser_accepts_each_modifier_synonym() {
    let q = |s: &str| parse_accelerator(s).unwrap();
    assert!(q("SHIFT+A").shift);
    assert!(q("CTRL+A").ctrl && q("CONTROL+A").ctrl);
    assert!(q("ALT+A").alt && q("OPTION+A").alt);
    assert!(q("SUPER+A").meta && q("CMD+A").meta && q("COMMAND+A").meta && q("META+A").meta);
}

#[test]
fn parser_reads_keys_exactly() {
    assert_eq!(
        parse_accelerator("Q").unwrap().code,
        KeyCode::Character('Q')
    );
    assert_eq!(
        parse_accelerator("q").unwrap().code,
        KeyCode::Character('Q')
    );
    assert_eq!(parse_accelerator("7").unwrap().code, KeyCode::Character('7'));
    assert_eq!(parse_accelerator("F1").unwrap().code, KeyCode::Function(1));
    assert_eq!(parse_accelerator("F12").unwrap().code, KeyCode::Function(12));
    assert_eq!(parse_accelerator("SPACE").unwrap().code, KeyCode::Space);
    assert_eq!(parse_accelerator("enter").unwrap().code, KeyCode::Enter);
    assert_eq!(parse_accelerator("Escape").unwrap().code, KeyCode::Escape);
    assert_eq!(parse_accelerator("TAB").unwrap().code, KeyCode::Tab);
    assert_eq!(parse_accelerator("BACKSPACE").unwrap().code, KeyCode::Backspace);
    assert_eq!(parse_accelerator("delete").unwrap().code, KeyCode::Delete);
    assert_eq!(parse_accelerator("UP").unwrap().code, KeyCode::ArrowUp);
    assert_eq!(parse_accelerator("ArrowUp").unwrap().code, KeyCode::ArrowUp);
    assert_eq!(parse_accelerator("CMD+DOWN").unwrap().code, KeyCode::ArrowDown);
    assert_eq!(parse_accelerator("LEFT").unwrap().code, KeyCode::ArrowLeft);
    assert_eq!(parse_accelerator("ARROWRIGHT").unwrap().code, KeyCode::ArrowRight);
}

#[test]
fn parser_rejects_malformed_texts() {
    assert_eq!(parse_accelerator(""), None);
    assert_eq!(parse_accelerator("CMD+"), None);
    assert_eq!(parse_accelerator("+Q"), None);
    assert_eq!(parse_accelerator("F13"), None);
    assert_eq!(parse_accelerator("F0"), None);
    assert_eq!(parse_accelerator("QQ"), None);
    assert_eq!(parse_accelerator("Q+CMD"), None);
    assert_eq!(parse_accelerator("CMD Q"), None);
}

#[test]
fn parser_is_case_insensitive() {
    let a: Accelerator = parse_accelerator("cmd+shift+z").unwrap();
    let b: Accelerator = parse_accelerator("CMD+SHIFT+Z").unwrap();
    assert_eq!(a, b);
}
