use crate::error::{IcedFormValueError, IcedFormValueResult};
use crate::selector::{path_label, Selector, SelectorSegment, Step};
use crate::value::{is_first_key, key_position, lemma_key_position, Value};
use vstd::prelude::*;

verus! {

/// What the text `s` reads as when taken for a number: its canonical text,
/// or the parser's message.
pub uninterp spec fn json_number(s: Seq<char>) -> Result<Seq<char>, Seq<char>>;

/// Relies on `serde_json::from_str::<serde_json::Number>` to read a JSON
/// number, and on the `Display` of `Number` and of `serde_json::Error` for
/// its canonical text and for the message; the outcome depends on the text
/// alone.
#[verifier::external_body]
fn parse_number(text: &str) -> (r: Result<String, String>)
    ensures
        match r {
            Ok(t) => json_number(text@) == Ok::<Seq<char>, Seq<char>>(t@),
            Err(m) => json_number(text@) == Err::<Seq<char>, Seq<char>>(m@),
        },
{
    serde_json::from_str::<serde_json::Number>(text).map(|n| n.to_string()).map_err(
        |e| e.to_string(),
    )
}

/// A description of the form for one value: what to draw, and where in the
/// tree each editable control sits.
#[derive(Debug)]
pub enum Widget {
    /// A caption with nothing to edit.
    Label { caption: String },
    /// A check box.
    Toggle { caption: String, checked: bool, at: Selector },
    /// A one-line text field.
    TextInput { caption: String, text: String, at: Selector },
    /// The forms of a container's children, in order.
    Column { children: Vec<Widget> },
}

/// What a user did to one control.
#[derive(Debug)]
pub enum Input {
    /// The check box now reads this.
    Toggled(bool),
    /// The text field now holds this.
    Typed(String),
}

/// `w` is the form of `v` drawn at path `sel`.
pub open spec fn rendered(v: Value, sel: Seq<Step>, w: Widget) -> bool
    decreases v,
{
    match v {
        Value::Null => match w {
            Widget::Label { caption } => caption@ == path_label(sel),
            _ => false,
        },
        Value::Bool(b) => match w {
            Widget::Toggle { caption, checked, at } => caption@ == path_label(sel) && checked == b
                && at@ == sel,
            _ => false,
        },
        Value::Number(t) => match w {
            Widget::TextInput { caption, text, at } => caption@ == path_label(sel) && text@ == t@
                && at@ == sel,
            _ => false,
        },
        Value::String(t) => match w {
            Widget::TextInput { caption, text, at } => caption@ == path_label(sel) && text@ == t@
                && at@ == sel,
            _ => false,
        },
        Value::Array(items) => match w {
            Widget::Column { children } => children@.len() == items@.len() && forall|i: int|
                0 <= i < items@.len() ==> rendered(
                    #[trigger] items@[i],
                    sel.push(Step::Index(i as nat)),
                    children@[i],
                ),
            _ => false,
        },
        Value::Object(entries) => match w {
            Widget::Column { children } => children@.len() == entries@.len() && forall|i: int|
                0 <= i < entries@.len() ==> rendered(
                    (#[trigger] entries@[i]).1,
                    sel.push(Step::Field(entries@[i].0@)),
                    children@[i],
                ),
            _ => false,
        },
    }
}

/// `input` is something the control drawn for `leaf` can send.
pub open spec fn takes(leaf: Value, input: Input) -> bool {
    match (leaf, input) {
        (Value::Bool(_), Input::Toggled(_)) => true,
        (Value::Number(_), Input::Typed(_)) => true,
        (Value::String(_), Input::Typed(_)) => true,
        _ => false,
    }
}

/// `r` is what a number field sends when its text becomes `text`: the
/// number, or the parser's complaint.
pub open spec fn number_outcome(text: Seq<char>, r: IcedFormValueResult<Value>) -> bool {
    match (json_number(text), r) {
        (Ok(c), Ok(Value::Number(t))) => t@ == c,
        (Err(m), Err(IcedFormValueError::Deserializing { target_type, message })) => target_type@
            == "Number"@ && message@ == m,
        _ => false,
    }
}

/// `r` is what the control of `leaf` sends for `input`.
pub open spec fn leaf_outcome(leaf: Value, input: Input, r: IcedFormValueResult<Value>) -> bool {
    match (leaf, input) {
        (Value::Bool(_), Input::Toggled(b)) => r == Ok::<Value, IcedFormValueError>(
            Value::Bool(b),
        ),
        (Value::String(_), Input::Typed(t)) => r == Ok::<Value, IcedFormValueError>(
            Value::String(t),
        ),
        (Value::Number(_), Input::Typed(t)) => number_outcome(t@, r),
        _ => false,
    }
}

/// `r` is what reaches the root of `v` when the node at `p` sends `sent`:
/// a success becomes the whole tree with that node replaced, an error
/// arrives as it was sent.
pub open spec fn propagated(
    v: Value,
    p: Seq<Step>,
    sent: IcedFormValueResult<Value>,
    r: IcedFormValueResult<Value>,
) -> bool {
    match sent {
        Ok(n) => match r {
            Ok(v2) => v.replaced_at(p, n, v2),
            Err(_) => false,
        },
        Err(e) => r == Err::<Value, IcedFormValueError>(e),
    }
}

/// The path `p` of `v` leads to a control that can send `input`.
pub open spec fn accepts_at(v: Value, p: Seq<Step>, input: Input) -> bool {
    match v.at(p) {
        Some(leaf) => takes(leaf, input),
        None => false,
    }
}

/// `r` is what reaches the root of `v` when the control at `p` receives
/// `input`.
pub open spec fn edit_outcome(
    v: Value,
    p: Seq<Step>,
    input: Input,
    r: IcedFormValueResult<Value>,
) -> bool {
    match v.at(p) {
        Some(leaf) => match r {
            Ok(v2) => exists|n: Value|
                leaf_outcome(leaf, input, Ok(n)) && #[trigger] v.replaced_at(p, n, v2),
            Err(e) => leaf_outcome(leaf, input, Err(e)),
        },
        None => false,
    }
}

/// Turns the outcome of reading a number field's text into what the field
/// sends: the number, or an error naming the `Number` type.
pub fn number_result(parsed: Result<String, String>) -> (r: IcedFormValueResult<Value>)
    ensures
        match parsed {
            Ok(t) => r == Ok::<Value, IcedFormValueError>(Value::Number(t)),
            Err(m) => r == Err::<Value, IcedFormValueError>(
                IcedFormValueError::Deserializing { target_type: "Number", message: m },
            ),
        },
{
    match parsed {
        Ok(t) => Ok(Value::Number(t)),
        Err(m) => Err(IcedFormValueError::Deserializing { target_type: "Number", message: m }),
    }
}

impl Value {
    /// Draws the form of `self`, labelled by the last step of `selector`:
    /// a caption for null, a check box for a boolean, a text field for a
    /// number or a string, and a column of the children's forms for a
    /// container.
    pub fn view(&self, selector: Selector) -> (w: Widget)
        ensures
            rendered(*self, selector@, w),
        decreases self,
    {
        match self {
            Value::Null => Widget::Label { caption: selector.label() },
            Value::Bool(b) => Widget::Toggle { caption: selector.label(), checked: *b, at: selector },
            Value::Number(t) => Widget::TextInput {
                caption: selector.label(),
                text: t.clone(),
                at: selector,
            },
            Value::String(t) => Widget::TextInput {
                caption: selector.label(),
                text: t.clone(),
                at: selector,
            },
            Value::Array(items) => {
                let mut children: Vec<Widget> = Vec::new();
                let mut i: usize = 0;
                while i < items.len()
                    invariant
                        *self == Value::Array(*items),
                        i <= items@.len(),
                        children@.len() == i,
                        forall|j: int|
                            0 <= j < i ==> rendered(
                                #[trigger] items@[j],
                                selector@.push(Step::Index(j as nat)),
                                children@[j],
                            ),
                    decreases items@.len() - i,
                {
                    proof {
                        assert(decreases_to!(*self => (*self)->Array_0));
                        assert(decreases_to!(*items => items[i as int]));
                    }
                    let w = items[i].view(selector.push(SelectorSegment::ArrayIndex(i)));
                    children.push(w);
                    i = i + 1;
                }
                Widget::Column { children }
            },
            Value::Object(entries) => {
                let mut children: Vec<Widget> = Vec::new();
                let mut i: usize = 0;
                while i < entries.len()
                    invariant
                        *self == Value::Object(*entries),
                        i <= entries@.len(),
                        children@.len() == i,
                        forall|j: int|
                            0 <= j < i ==> rendered(
                                (#[trigger] entries@[j]).1,
                                selector@.push(Step::Field(entries@[j].0@)),
                                children@[j],
                            ),
                    decreases entries@.len() - i,
                {
                    proof {
                        assert(decreases_to!(*self => (*self)->Object_0));
                        assert(decreases_to!(*entries => entries[i as int]));
                        assert(decreases_to!(entries[i as int] => entries[i as int].1));
                    }
                    let key = entries[i].0.clone();
                    let w = entries[i].1.view(selector.push(SelectorSegment::ObjectField(key)));
                    children.push(w);
                    i = i + 1;
                }
                Widget::Column { children }
            },
        }
    }
}

impl Value {
    /// The position of the first entry of `entries` under `key`.
    fn find_key(entries: &Vec<(String, Value)>, key: &String) -> (r: Option<usize>)
        ensures
            match r {
                Some(i) => is_first_key(entries@, key@, i as int) && key_position(entries@, key@)
                    == Some(i as int),
                None => key_position(entries@, key@) is None,
            },
    {
        let mut i: usize = 0;
        while i < entries.len()
            invariant
                i <= entries@.len(),
                forall|j: int| 0 <= j < i ==> entries@[j].0@ != key@,
            decreases entries@.len() - i,
        {
            if entries[i].0 == *key {
                proof {
                    lemma_key_position(entries@, key@, i as int);
                }
                return Some(i);
            }
            i = i + 1;
        }
        None
    }

    /// The child one step down along `seg`, if there is one.
    pub fn child_ref(&self, seg: &SelectorSegment) -> (r: Option<&Value>)
        ensures
            match r {
                Some(c) => self.child(seg@) == Some(*c),
                None => self.child(seg@) is None,
            },
    {
        match self {
            Value::Array(items) => match seg {
                SelectorSegment::ArrayIndex(i) => if *i < items.len() {
                    Some(&items[*i])
                } else {
                    None
                },
                SelectorSegment::ObjectField(_) => None,
            },
            Value::Object(entries) => match seg {
                SelectorSegment::ObjectField(k) => match Value::find_key(entries, k) {
                    Some(j) => Some(&entries[j].1),
                    None => None,
                },
                SelectorSegment::ArrayIndex(_) => None,
            },
            _ => None,
        }
    }

    /// The node that `at` reaches, if any.
    pub fn get(&self, at: &Selector) -> (r: Option<&Value>)
        ensures
            match r {
                Some(x) => self.at(at@) == Some(*x),
                None => self.at(at@) is None,
            },
    {
        let mut cur: &Value = self;
        let mut d: usize = 0;
        assert(at@.skip(0) =~= at@);
        while d < at.len()
            invariant
                d <= at@.len(),
                self.at(at@) == cur.at(at@.skip(d as int)),
            decreases at@.len() - d,
        {
            let seg = at.segment(d);
            let ghost p = at@.skip(d as int);
            proof {
                assert(p[0] == at@[d as int]);
                assert(p.drop_first() =~= at@.skip(d + 1));
            }
            match cur.child_ref(seg) {
                Some(c) => {
                    cur = c;
                },
                None => {
                    return None;
                },
            }
            d = d + 1;
        }
        proof {
            assert(at@.skip(d as int) =~= Seq::<Step>::empty());
        }
        Some(cur)
    }

    /// Whether the control at `at` can send `input`.
    pub fn accepts(&self, at: &Selector, input: &Input) -> (r: bool)
        ensures
            r == accepts_at(*self, at@, *input),
    {
        match self.get(at) {
            Some(leaf) => match (leaf, input) {
                (Value::Bool(_), Input::Toggled(_)) => true,
                (Value::Number(_), Input::Typed(_)) => true,
                (Value::String(_), Input::Typed(_)) => true,
                _ => false,
            },
            None => false,
        }
    }

    /// What the control drawn for this leaf sends when it receives `input`:
    /// a toggled boolean, a string as typed, or a number read from its text,
    /// which may fail.
    pub fn leaf_changed(&self, input: Input) -> (r: IcedFormValueResult<Value>)
        requires
            takes(*self, input),
        ensures
            leaf_outcome(*self, input, r),
    {
        // The arms that yield null are ruled out by the precondition.
        match self {
            Value::Bool(_) => match input {
                Input::Toggled(b) => Ok(Value::Bool(b)),
                Input::Typed(_) => Ok(Value::Null),
            },
            Value::String(_) => match input {
                Input::Typed(t) => Ok(Value::String(t)),
                Input::Toggled(_) => Ok(Value::Null),
            },
            Value::Number(_) => match input {
                Input::Typed(t) => number_result(parse_number(t.as_str())),
                Input::Toggled(_) => Ok(Value::Null),
            },
            _ => Ok(Value::Null),
        }
    }

    /// Splits off the child at `seg`, leaving null in its place.
    fn take_child(self, seg: &SelectorSegment) -> (r: (Value, Value))
        requires
            self.child(seg@) is Some,
        ensures
            self.child(seg@) == Some(r.1),
            self.child_replaced(seg@, Value::Null, r.0),
    {
        // Mismatched steps and leaves are ruled out by the precondition.
        match self {
            Value::Array(mut items) => {
                let i = match seg {
                    SelectorSegment::ArrayIndex(i) => *i,
                    SelectorSegment::ObjectField(_) => 0,
                };
                let ghost a = items@;
                let c = items.remove(i);
                items.insert(i, Value::Null);
                assert(items@ =~= a.update(i as int, Value::Null));
                (Value::Array(items), c)
            },
            Value::Object(mut entries) => {
                let j = match seg {
                    SelectorSegment::ObjectField(k) => match Value::find_key(&entries, k) {
                        Some(j) => j,
                        None => 0,
                    },
                    SelectorSegment::ArrayIndex(_) => 0,
                };
                let ghost a = entries@;
                let (key, c) = entries.remove(j);
                entries.insert(j, (key, Value::Null));
                assert(entries@ =~= a.update(j as int, (a[j as int].0, Value::Null)));
                (Value::Object(entries), c)
            },
            other => (other, Value::Null),
        }
    }

    /// What a container sends when its child at `seg` sends `child`: itself
    /// with that child replaced and every other child kept, or the child's
    /// error as it came.
    pub fn child_changed(self, seg: &SelectorSegment, child: IcedFormValueResult<Value>) -> (r:
        IcedFormValueResult<Value>)
        requires
            self.child(seg@) is Some,
        ensures
            match child {
                Ok(c) => match r {
                    Ok(v2) => self.child_replaced(seg@, c, v2),
                    Err(_) => false,
                },
                Err(e) => r == Err::<Value, IcedFormValueError>(e),
            },
    {
        let c = match child {
            Ok(c) => c,
            Err(e) => {
                return Err(e);
            },
        };
        // Mismatched steps and leaves are ruled out by the precondition.
        match self {
            Value::Array(mut items) => {
                let i = match seg {
                    SelectorSegment::ArrayIndex(i) => *i,
                    SelectorSegment::ObjectField(_) => 0,
                };
                let ghost a = items@;
                items.remove(i);
                items.insert(i, c);
                assert(items@ =~= a.update(i as int, c));
                Ok(Value::Array(items))
            },
            Value::Object(mut entries) => {
                let j = match seg {
                    SelectorSegment::ObjectField(k) => match Value::find_key(&entries, k) {
                        Some(j) => j,
                        None => 0,
                    },
                    SelectorSegment::ArrayIndex(_) => 0,
                };
                let ghost a = entries@;
                let (key, _) = entries.remove(j);
                entries.insert(j, (key, c));
                assert(entries@ =~= a.update(j as int, (a[j as int].0, c)));
                Ok(Value::Object(entries))
            },
            other => Ok(other),
        }
    }

    fn propagate_from(self, at: &Selector, d: usize, sent: IcedFormValueResult<Value>) -> (r:
        IcedFormValueResult<Value>)
        requires
            d <= at@.len(),
            self.at(at@.skip(d as int)) is Some,
        ensures
            propagated(self, at@.skip(d as int), sent, r),
        decreases at@.len() - d,
    {
        let ghost p = at@.skip(d as int);
        if d == at.len() {
            assert(p =~= Seq::<Step>::empty());
            return sent;
        }
        let seg = at.segment(d);
        proof {
            assert(p[0] == at@[d as int]);
            assert(p.drop_first() =~= at@.skip(d + 1));
        }
        let ghost old_self = self;
        let ghost given = sent;
        let (rest, child) = self.take_child(seg);
        proof {
            old_self.lemma_child_replaced_child(seg@, Value::Null, rest);
        }
        let sub = child.propagate_from(at, d + 1, sent);
        let r = rest.child_changed(seg, sub);
        proof {
            if given is Ok {
                let c2 = sub->Ok_0;
                let v2 = r->Ok_0;
                old_self.lemma_child_replaced_twice(seg@, Value::Null, rest, c2, v2);
                old_self.lemma_child_replaced_child(seg@, c2, v2);
            }
        }
        r
    }

    /// What reaches the root when the node at `at` sends `sent`: on success
    /// the whole tree with that node replaced, rebuilt level by level; an
    /// error as it was sent, whatever the depth.
    pub fn propagate(self, at: &Selector, sent: IcedFormValueResult<Value>) -> (r:
        IcedFormValueResult<Value>)
        requires
            self.at(at@) is Some,
        ensures
            propagated(self, at@, sent, r),
    {
        assert(at@.skip(0) =~= at@);
        self.propagate_from(at, 0, sent)
    }

    /// Hands `input` to the control at `at` and returns what reaches the
    /// root: the edited tree, or the control's error.
    pub fn edit(self, at: &Selector, input: Input) -> (r: IcedFormValueResult<Value>)
        requires
            accepts_at(self, at@, input),
        ensures
            edit_outcome(self, at@, input, r),
    {
        let ghost leaf = self.at(at@)->Some_0;
        let ghost given = input;
        let sent = match self.get(at) {
            Some(l) => l.leaf_changed(input),
            // The precondition says that `at` reaches a node.
            None => Ok(Value::Null),
        };
        let ghost whole = self;
        let r = self.propagate(at, sent);
        proof {
            if r is Ok {
                let v2 = r->Ok_0;
                let n = sent->Ok_0;
                assert(leaf_outcome(leaf, given, Ok(n)) && whole.replaced_at(at@, n, v2));
            }
        }
        r
    }
}

} // verus!
