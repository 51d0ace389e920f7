//! Typed attribute keys and values, and the first-match lookup rules that
//! every backend shares.

use vstd::prelude::*;

use crate::event::Callback;

verus! {

/// The closed set of attribute keys.  Value attributes and event attributes
/// share this namespace; lookups say which of the two they expect.
#[derive(Clone, Copy, PartialEq, Eq, Structural, Debug)]
pub enum AttribKey {
    /// A widget's visible label.
    Label,
    /// A widget's current value (text of an input, state of a toggle).
    Value,
    /// The optional identity used to match children across two trees.
    Key,
    /// A click handler.
    ClickEvent,
    /// A text-input handler.
    InputEvent,
}

/// A plain attribute value.
#[derive(Clone, Debug, PartialEq)]
pub enum Value {
    Str(String),
    Bool(bool),
    Uint(u64),
}

/// The mathematical value of a [`Value`].
pub enum ValueV {
    Str(Seq<char>),
    Bool(bool),
    Uint(u64),
}

impl View for Value {
    type V = ValueV;

    open spec fn view(&self) -> ValueV {
        match self {
            Value::Str(s) => ValueV::Str(s@),
            Value::Bool(b) => ValueV::Bool(*b),
            Value::Uint(n) => ValueV::Uint(*n),
        }
    }
}

/// What an attribute holds: a plain value or an event callback.  An
/// attribute is never both at once.
#[derive(Clone, Debug, PartialEq)]
pub enum AttribValue<MSG> {
    Plain(Value),
    Cb(Callback<MSG>),
}

/// A key paired with a plain value or a callback.
#[derive(Clone, Debug, PartialEq)]
pub struct Attribute<MSG> {
    pub name: AttribKey,
    pub value: AttribValue<MSG>,
}

/// The observable content of an attribute.  Callback payloads are message
/// values of the embedding application and are not observable: two callback
/// attributes with the same key occupy the same handler slot.
pub enum AttrV {
    Plain(AttribKey, ValueV),
    Cb(AttribKey),
}

impl<MSG> View for Attribute<MSG> {
    type V = AttrV;

    open spec fn view(&self) -> AttrV {
        match self.value {
            AttribValue::Plain(v) => AttrV::Plain(self.name, v@),
            AttribValue::Cb(_) => AttrV::Cb(self.name),
        }
    }
}

/// The key of an attribute, whichever side it holds.
pub open spec fn akey(a: AttrV) -> AttribKey {
    match a {
        AttrV::Plain(k, _) => k,
        AttrV::Cb(k) => k,
    }
}

/// The views of a sequence of attributes.
pub open spec fn attrs_view<MSG>(s: Seq<Attribute<MSG>>) -> Seq<AttrV> {
    s.map_values(|a: Attribute<MSG>| a@)
}

/// The view of an empty sequence of attributes is empty.
pub proof fn lemma_attrs_view_empty<MSG>()
    ensures
        attrs_view(Seq::<Attribute<MSG>>::empty()) == Seq::<AttrV>::empty(),
{
    assert(attrs_view(Seq::<Attribute<MSG>>::empty()) =~= Seq::<AttrV>::empty());
}

/// Index of the first attribute with the given key, if any.
pub open spec fn spec_find_attr(attrs: Seq<AttrV>, k: AttribKey) -> Option<int>
    decreases attrs.len(),
{
    if attrs.len() == 0 {
        None
    } else if akey(attrs[0]) == k {
        Some(0int)
    } else {
        match spec_find_attr(attrs.drop_first(), k) {
            Some(i) => Some(i + 1),
            None => None,
        }
    }
}

/// The effective attribute for a key: the first one supplied wins, later
/// duplicates are dead.
pub open spec fn spec_eff(attrs: Seq<AttrV>, k: AttribKey) -> Option<AttrV> {
    match spec_find_attr(attrs, k) {
        Some(i) => Some(attrs[i]),
        None => None,
    }
}

/// What `spec_find_attr` returns: the first index bearing the key, or `None`
/// when no index does.
pub proof fn lemma_find_attr(attrs: Seq<AttrV>, k: AttribKey)
    ensures
        match spec_find_attr(attrs, k) {
            Some(i) => 0 <= i < attrs.len() && akey(attrs[i]) == k && (forall|j: int|
                0 <= j < i ==> akey(attrs[j]) != k),
            None => forall|j: int| 0 <= j < attrs.len() ==> akey(attrs[j]) != k,
        },
    decreases attrs.len(),
{
    if attrs.len() == 0 {
    } else if akey(attrs[0]) == k {
    } else {
        lemma_find_attr(attrs.drop_first(), k);
        assert forall|j: int| 1 <= j < attrs.len() implies attrs.drop_first()[j - 1] == attrs[j] by {}
    }
}

/// The first attribute with this key that carries a plain value, provided
/// the first attribute with this key is a plain one; a missing attribute is
/// an expected condition, not an error.
pub fn find_value<'a, MSG>(key: AttribKey, attrs: &'a Vec<Attribute<MSG>>) -> (r: Option<&'a Value>)
    ensures
        match r {
            Some(v) => spec_eff(attrs_view(attrs@), key) == Some(AttrV::Plain(key, v@)),
            None => match spec_eff(attrs_view(attrs@), key) {
                Some(a) => a is Cb,
                None => true,
            },
        },
{
    proof {
        lemma_find_attr(attrs_view(attrs@), key);
    }
    let n = attrs.len();
    let mut i: usize = 0;
    while i < n
        invariant
            n == attrs.len(),
            0 <= i <= n,
            forall|j: int| 0 <= j < i ==> akey(attrs_view(attrs@)[j]) != key,
        decreases n - i,
    {
        if attrs[i].name == key {
            proof {
                lemma_find_attr(attrs_view(attrs@), key);
                assert(attrs_view(attrs@)[i as int] == attrs@[i as int]@);
                assert(akey(attrs@[i as int]@) == attrs@[i as int].name);
                assert(spec_find_attr(attrs_view(attrs@), key) == Some(i as int));
            }
            match &attrs[i].value {
                AttribValue::Plain(v) => {
                    return Some(v);
                },
                AttribValue::Cb(_) => {
                    return None;
                },
            }
        }
        proof {
            assert(attrs_view(attrs@)[i as int] == attrs@[i as int]@);
        }
        i = i + 1;
    }
    proof {
        lemma_find_attr(attrs_view(attrs@), key);
    }
    None
}

/// The first attribute with this key that carries a callback, provided the
/// first attribute with this key is a callback.
pub fn find_callback<'a, MSG>(key: AttribKey, attrs: &'a Vec<Attribute<MSG>>) -> (r: Option<
    &'a Callback<MSG>,
>)
    ensures
        match r {
            Some(_) => spec_eff(attrs_view(attrs@), key) == Some(AttrV::Cb(key)),
            None => match spec_eff(attrs_view(attrs@), key) {
                Some(a) => a is Plain,
                None => true,
            },
        },
{
    proof {
        lemma_find_attr(attrs_view(attrs@), key);
    }
    let n = attrs.len();
    let mut i: usize = 0;
    while i < n
        invariant
            n == attrs.len(),
            0 <= i <= n,
            forall|j: int| 0 <= j < i ==> akey(attrs_view(attrs@)[j]) != key,
        decreases n - i,
    {
        if attrs[i].name == key {
            proof {
                lemma_find_attr(attrs_view(attrs@), key);
                assert(attrs_view(attrs@)[i as int] == attrs@[i as int]@);
                assert(akey(attrs@[i as int]@) == attrs@[i as int].name);
                assert(spec_find_attr(attrs_view(attrs@), key) == Some(i as int));
            }
            match &attrs[i].value {
                AttribValue::Cb(cb) => {
                    return Some(cb);
                },
                AttribValue::Plain(_) => {
                    return None;
                },
            }
        }
        proof {
            assert(attrs_view(attrs@)[i as int] == attrs@[i as int]@);
        }
        i = i + 1;
    }
    proof {
        lemma_find_attr(attrs_view(attrs@), key);
    }
    None
}

/// Whether two plain values are equal.
pub fn value_eq(a: &Value, b: &Value) -> (r: bool)
    ensures
        r == (a@ == b@),
{
    match (a, b) {
        (Value::Str(x), Value::Str(y)) => (*x) == (*y),
        (Value::Bool(x), Value::Bool(y)) => (*x) == (*y),
        (Value::Uint(x), Value::Uint(y)) => (*x) == (*y),
        _ => false,
    }
}

/// A copy of a plain value.
pub fn clone_value(v: &Value) -> (r: Value)
    ensures
        r@ == v@,
{
    match v {
        Value::Str(s) => Value::Str(s.clone()),
        Value::Bool(b) => Value::Bool(*b),
        Value::Uint(n) => Value::Uint(*n),
    }
}

/// A copy of an attribute, observably equal to the original.
pub fn clone_attr<MSG: Clone>(a: &Attribute<MSG>) -> (r: Attribute<MSG>)
    ensures
        r@ == a@,
{
    match &a.value {
        AttribValue::Plain(v) => Attribute { name: a.name, value: AttribValue::Plain(clone_value(v)) },
        AttribValue::Cb(cb) => Attribute {
            name: a.name,
            value: AttribValue::Cb(
                match cb {
                    Callback::Msg(m) => Callback::Msg(m.clone()),
                    Callback::FromInput => Callback::FromInput,
                },
            ),
        },
    }
}

/// An attribute holding a plain value.
pub fn attr<MSG>(name: AttribKey, v: Value) -> (r: Attribute<MSG>)
    ensures
        r@ == AttrV::Plain(name, v@),
{
    Attribute { name, value: AttribValue::Plain(v) }
}

/// A `Label` attribute.
pub fn label<MSG>(s: String) -> (r: Attribute<MSG>)
    ensures
        r@ == AttrV::Plain(AttribKey::Label, ValueV::Str(s@)),
{
    Attribute { name: AttribKey::Label, value: AttribValue::Plain(Value::Str(s)) }
}

/// A `Value` attribute.
pub fn value<MSG>(v: Value) -> (r: Attribute<MSG>)
    ensures
        r@ == AttrV::Plain(AttribKey::Value, v@),
{
    Attribute { name: AttribKey::Value, value: AttribValue::Plain(v) }
}

/// A `Key` attribute: the stable identity of a child across rebuilds.
pub fn key<MSG>(s: String) -> (r: Attribute<MSG>)
    ensures
        r@ == AttrV::Plain(AttribKey::Key, ValueV::Str(s@)),
{
    Attribute { name: AttribKey::Key, value: AttribValue::Plain(Value::Str(s)) }
}

/// A click handler emitting the given message.
pub fn on_click<MSG>(msg: MSG) -> (r: Attribute<MSG>)
    ensures
        r@ == AttrV::Cb(AttribKey::ClickEvent),
{
    Attribute { name: AttribKey::ClickEvent, value: AttribValue::Cb(Callback::Msg(msg)) }
}

/// An input handler mapping the event's text through the application's
/// [`crate::event::InputMessage`] implementation.
pub fn on_input<MSG>() -> (r: Attribute<MSG>)
    ensures
        r@ == AttrV::Cb(AttribKey::InputEvent),
{
    Attribute { name: AttribKey::InputEvent, value: AttribValue::Cb(Callback::FromInput) }
}

} // verus!
