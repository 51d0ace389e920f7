use sauron_native::attribute::{
    find_callback, find_value, key, label, on_click, value, AttribKey, AttribValue, Attribute,
    Value,
};
use sauron_native::diff::{diff, Patch};
use sauron_native::event::{emit, Callback, Event, InputMessage};
use sauron_native::native::{apply, render};
use sauron_native::node::Node;
use sauron_native::widget::{button, checkbox, image, text, text_input, text_leaf};
use sauron_native::widget;

#[derive(Clone, Debug, PartialEq)]
enum Msg {
    Click,
    ChangeText(String),
}

impl InputMessage for Msg {
    fn from_input(v: String) -> Msg {
        Msg::ChangeText(v)
    }
}

fn sample_tree(label_text: &str) -> Node<Msg> {
    widget::column(
        vec![],
        vec![
            button(vec![on_click(Msg::Click), label(String::from(label_text))]),
            text("some text"),
            checkbox(vec![label(String::from("box")), value(Value::Bool(true))]),
        ],
    )
}

#[test]
fn diff_identical_tree_is_empty() {
    let a = sample_tree("hello");
    let b = sample_tree("hello");
    let script = diff(&a, &b);
    assert!(script.is_empty());
}

#[test]
fn text_leaf_content_patch() {
    let a: Node<Msg> = text_leaf("Hello");
    let b: Node<Msg> = text_leaf("Hello!");
    let script = diff(&a, &b);
    assert_eq!(script.len(), 1);
    match &script[0] {
        Patch::ChangeText { at, text } => {
            assert!(at.is_empty());
            assert_eq!(text, "Hello!");
        },
        other => panic!("expected a content patch, got {:?}", other),
    }
}

#[test]
fn equal_text_leaves_yield_nothing() {
    let a: Node<Msg> = text_leaf("same");
    let b: Node<Msg> = text_leaf("same");
    assert!(diff(&a, &b).is_empty());
}

#[test]
fn widget_kind_change_is_one_replace() {
    let a: Node<Msg> = button(vec![label(String::from("push"))]);
    let b: Node<Msg> = text_input(vec![value(Value::Str(String::from("push")))]);
    let script = diff(&a, &b);
    assert_eq!(script.len(), 1);
    assert!(matches!(&script[0], Patch::ReplaceNode { .. }));
}

#[test]
fn keyed_reorder_is_one_reorder_patch() {
    let keyed = |k: &str| -> Node<Msg> {
        button(vec![key(String::from(k)), label(String::from(k))])
    };
    let a = widget::column(vec![], vec![keyed("a"), keyed("b"), keyed("c")]);
    let b = widget::column(vec![], vec![keyed("c"), keyed("a"), keyed("b")]);
    let script = diff(&a, &b);
    assert_eq!(script.len(), 1);
    match &script[0] {
        Patch::ReorderChildren { at, order } => {
            assert!(at.is_empty());
            assert_eq!(order, &vec![2usize, 0, 1]);
        },
        other => panic!("expected a reorder, got {:?}", other),
    }
}

#[test]
fn append_unkeyed_child_is_one_append() {
    let a: Node<Msg> = widget::column(vec![], vec![text("X"), text("Y")]);
    let b: Node<Msg> = widget::column(vec![], vec![text("X"), text("Y"), text("Z")]);
    let script = diff(&a, &b);
    assert_eq!(script.len(), 1);
    match &script[0] {
        Patch::AppendChild { at, child } => {
            assert!(at.is_empty());
            assert_eq!(child, &text::<Msg>("Z"));
        },
        other => panic!("expected an append, got {:?}", other),
    }
}

#[test]
fn checkbox_toggle_is_one_set_attribute() {
    let a: Node<Msg> = checkbox(vec![label(String::from("L")), value(Value::Bool(true))]);
    let b: Node<Msg> = checkbox(vec![label(String::from("L")), value(Value::Bool(false))]);
    let script = diff(&a, &b);
    assert_eq!(script.len(), 1);
    match &script[0] {
        Patch::SetAttribute { at, attr } => {
            assert!(at.is_empty());
            assert_eq!(attr.name, AttribKey::Value);
            assert_eq!(attr.value, AttribValue::Plain(Value::Bool(false)));
        },
        other => panic!("expected a set-attribute, got {:?}", other),
    }
}

#[test]
fn image_bytes_change_in_place() {
    let a: Node<Msg> = image(vec![1, 2, 3]);
    let b: Node<Msg> = image(vec![4, 5]);
    let script = diff(&a, &b);
    assert_eq!(script.len(), 1);
    match &script[0] {
        Patch::ChangeImage { bytes, .. } => assert_eq!(bytes, &vec![4u8, 5]),
        other => panic!("expected an image content patch, got {:?}", other),
    }
}

#[test]
fn text_element_content_in_place() {
    let a: Node<Msg> = text("one");
    let b: Node<Msg> = text("two");
    let script = diff(&a, &b);
    assert_eq!(script.len(), 1);
    assert!(matches!(&script[0], Patch::ChangeText { .. }));
}

#[test]
fn first_matching_attribute_wins() {
    let attrs: Vec<Attribute<Msg>> = vec![
        label(String::from("one")),
        label(String::from("two")),
    ];
    match find_value(AttribKey::Label, &attrs) {
        Some(Value::Str(s)) => assert_eq!(s, "one"),
        other => panic!("expected the first label, got {:?}", other),
    }
}

#[test]
fn missing_attribute_is_not_an_error() {
    let attrs: Vec<Attribute<Msg>> = vec![label(String::from("only"))];
    assert!(find_value(AttribKey::Value, &attrs).is_none());
    assert!(find_callback(AttribKey::ClickEvent, &attrs).is_none());
}

#[test]
fn find_callback_sees_handlers_only() {
    let attrs: Vec<Attribute<Msg>> = vec![on_click(Msg::Click), label(String::from("x"))];
    assert!(find_callback(AttribKey::ClickEvent, &attrs).is_some());
    assert!(find_value(AttribKey::ClickEvent, &attrs).is_none());
}

#[test]
fn emit_constant_message_on_click() {
    let cb: Callback<Msg> = Callback::Msg(Msg::Click);
    assert_eq!(emit(&cb, &Event::Mouse), Some(Msg::Click));
    assert_eq!(emit(&cb, &Event::Input(String::from("ignored"))), Some(Msg::Click));
}

#[test]
fn emit_input_mapping() {
    let cb: Callback<Msg> = Callback::FromInput;
    assert_eq!(
        emit(&cb, &Event::Input(String::from("abc"))),
        Some(Msg::ChangeText(String::from("abc"))),
    );
    assert_eq!(emit(&cb, &Event::Mouse), None);
}

#[test]
fn apply_diff_reaches_new_rendering() {
    let a = sample_tree("old");
    let b = widget::column(
        vec![],
        vec![
            button(vec![on_click(Msg::Click), label(String::from("new"))]),
            text("other text"),
            checkbox(vec![label(String::from("box")), value(Value::Bool(false))]),
            text_leaf("appended"),
        ],
    );
    let script = diff(&a, &b);
    let native = render(&a);
    let patched = apply(native, &script).expect("the script fits the tree it was computed for");
    assert_eq!(patched, render(&b));
}

#[test]
fn apply_diff_after_keyed_reorder() {
    let keyed = |k: &str, l: &str| -> Node<Msg> {
        button(vec![key(String::from(k)), label(String::from(l))])
    };
    let a = widget::column(vec![], vec![keyed("a", "1"), keyed("b", "2"), keyed("c", "3")]);
    let b = widget::column(vec![], vec![keyed("c", "3"), keyed("a", "1"), keyed("b", "2")]);
    let script = diff(&a, &b);
    let patched = apply(render(&a), &script).expect("the script fits");
    assert_eq!(patched, render(&b));
}

#[test]
fn apply_diff_with_removal() {
    let a: Node<Msg> = widget::column(vec![], vec![text("X"), text("Y"), text("Z")]);
    let b: Node<Msg> = widget::column(vec![], vec![text("X"), text("Z")]);
    let script = diff(&a, &b);
    let patched = apply(render(&a), &script).expect("the script fits");
    assert_eq!(patched, render(&b));
}

#[test]
fn mismatched_script_is_reported() {
    let a: Node<Msg> = text_leaf("leaf");
    let bad: Vec<Patch<Msg>> = vec![Patch::RemoveChild { at: vec![], index: 5 }];
    match apply(render(&a), &bad) {
        Err(e) => assert_eq!(e.index, 0),
        Ok(_) => panic!("a removal cannot apply to a text leaf"),
    }
}

#[test]
fn keyed_middle_insert_lands_at_its_index() {
    let keyed = |k: &str| -> Node<Msg> {
        button(vec![key(String::from(k)), label(String::from(k))])
    };
    let a = widget::column(vec![], vec![keyed("a"), keyed("c")]);
    let b = widget::column(vec![], vec![keyed("a"), keyed("b"), keyed("c")]);
    let script = diff(&a, &b);
    assert_eq!(script.len(), 1);
    match &script[0] {
        Patch::InsertChild { at, index, child } => {
            assert!(at.is_empty());
            assert_eq!(*index, 1);
            assert_eq!(child, &keyed("b"));
        },
        other => panic!("expected an insert, got {:?}", other),
    }
    let patched = apply(render(&a), &script).expect("the script fits");
    assert_eq!(patched, render(&b));
}

#[test]
fn duplicate_sibling_keys_degrade_to_positional_matching() {
    let keyed = |k: &str, l: &str| -> Node<Msg> {
        button(vec![key(String::from(k)), label(String::from(l))])
    };
    let a = widget::column(vec![], vec![keyed("a", "1"), keyed("a", "2")]);
    let b = widget::column(vec![], vec![keyed("a", "1"), keyed("a", "2")]);
    let script = diff(&a, &b);
    assert_eq!(script.len(), 2);
    assert!(matches!(&script[0], Patch::RemoveChild { index: 1, .. }));
    assert!(matches!(&script[1], Patch::AppendChild { .. }));
    let patched = apply(render(&a), &script).expect("the script fits");
    assert_eq!(patched, render(&b));
}
