use sauron_native::attribute::{
    find_callback, label, on_click, on_input, value, AttribKey, AttribValue, Value,
};
use sauron_native::diff::Patch;
use sauron_native::event::{emit, Callback, Event, InputMessage};
use sauron_native::node::Node;
use sauron_native::program::{Component, Program};
use sauron_native::widget::{button, text_input};
use sauron_native::widget;

#[derive(Clone, Debug, PartialEq)]
enum Msg {
    Click,
    ChangeText(String),
}

impl InputMessage for Msg {
    fn from_input(v: String) -> Msg {
        Msg::ChangeText(v)
    }
}

struct App {
    click_count: u32,
    field: String,
}

impl Component<Msg> for App {
    fn update(&mut self, msg: Msg) {
        match msg {
            Msg::Click => self.click_count = self.click_count + 1,
            Msg::ChangeText(t) => self.field = t,
        }
    }

    fn view(&self) -> Node<Msg> {
        widget::column(
            vec![],
            vec![
                button(vec![
                    on_click(Msg::Click),
                    label(format!("Hello: {}", self.click_count)),
                ]),
                text_input(vec![value(Value::Str(self.field.clone())), on_input()]),
            ],
        )
    }
}

fn callback_of(node: &Node<Msg>, child: usize, k: AttribKey) -> Callback<Msg> {
    match node {
        Node::Element { children, .. } => match &children[child] {
            Node::Element { attrs, .. } => find_callback(k, attrs)
                .expect("the handler is wired")
                .clone(),
            Node::Text(_) => panic!("expected an element child"),
        },
        Node::Text(_) => panic!("expected an element root"),
    }
}

#[test]
fn click_cycle_patches_only_the_label() {
    let mut prog = Program::new(App { click_count: 0, field: String::new() });
    let cb = callback_of(&prog.current, 0, AttribKey::ClickEvent);
    let msg = emit(&cb, &Event::Mouse).expect("a click handler takes any event");
    assert_eq!(msg, Msg::Click);
    let script = prog.dispatch(msg).expect("the cycle completes");
    assert_eq!(script.len(), 1);
    match &script[0] {
        Patch::SetAttribute { at, attr } => {
            assert_eq!(at, &vec![0usize]);
            assert_eq!(attr.name, AttribKey::Label);
            assert_eq!(
                attr.value,
                AttribValue::Plain(Value::Str(String::from("Hello: 1"))),
            );
        },
        other => panic!("expected one label patch, got {:?}", other),
    }
    assert!(script.iter().all(|p| !matches!(p, Patch::ReplaceNode { .. })));
}

#[test]
fn two_cycles_keep_counting() {
    let mut prog = Program::new(App { click_count: 0, field: String::new() });
    let cb = callback_of(&prog.current, 0, AttribKey::ClickEvent);
    let msg = emit(&cb, &Event::Mouse).expect("a click handler takes any event");
    prog.dispatch(msg.clone()).expect("the first cycle completes");
    let script = prog.dispatch(msg).expect("the second cycle completes");
    assert_eq!(script.len(), 1);
    match &script[0] {
        Patch::SetAttribute { attr, .. } => {
            assert_eq!(
                attr.value,
                AttribValue::Plain(Value::Str(String::from("Hello: 2"))),
            );
        },
        other => panic!("expected one label patch, got {:?}", other),
    }
}

#[test]
fn input_cycle_patches_the_field_value() {
    let mut prog = Program::new(App { click_count: 0, field: String::new() });
    let cb = callback_of(&prog.current, 1, AttribKey::InputEvent);
    let msg = emit(&cb, &Event::Input(String::from("typed"))).expect("an input event has text");
    assert_eq!(msg, Msg::ChangeText(String::from("typed")));
    let script = prog.dispatch(msg).expect("the cycle completes");
    assert_eq!(script.len(), 1);
    match &script[0] {
        Patch::SetAttribute { at, attr } => {
            assert_eq!(at, &vec![1usize]);
            assert_eq!(attr.name, AttribKey::Value);
            assert_eq!(
                attr.value,
                AttribValue::Plain(Value::Str(String::from("typed"))),
            );
        },
        other => panic!("expected one value patch, got {:?}", other),
    }
}

#[test]
fn mounting_renders_the_first_view() {
    let prog = Program::new(App { click_count: 3, field: String::from("x") });
    let direct = sauron_native::native::render(&prog.current);
    assert_eq!(prog.native, direct);
}
