use iced_forms::{
    FormSession,
    from_value, to_value, Company, Customer, Device, IcedFormBuffer, IcedFormValueError, Input,
    PrivateCustomer, Selector, SelectorSegment, Value, Widget,
};

fn s(t: &str) -> String {
    t.to_string()
}

fn field(k: &str) -> SelectorSegment {
    SelectorSegment::ObjectField(s(k))
}

fn sample() -> Value {
    Value::Object(vec![
        (s("a"), Value::Number(s("1"))),
        (
            s("b"),
            Value::Array(vec![Value::Bool(true), Value::String(s("x"))]),
        ),
    ])
}

#[test]
fn test_serialization() {}

#[test]
fn it_works() {
    let result = 2 + 2;
    assert_eq!(result, 4);
}

#[test]
fn toggle_inside_nested_array() {
    let at = Selector::empty()
        .push(field("b"))
        .push(SelectorSegment::ArrayIndex(0));
    let v = sample();
    assert!(v.accepts(&at, &Input::Toggled(false)));
    let r = v.edit(&at, Input::Toggled(false)).unwrap();
    let expected = Value::Object(vec![
        (s("a"), Value::Number(s("1"))),
        (
            s("b"),
            Value::Array(vec![Value::Bool(false), Value::String(s("x"))]),
        ),
    ]);
    assert_eq!(r, expected);
}

#[test]
fn bad_number_text_is_rejected() {
    let v = Value::Object(vec![(s("n"), Value::Number(s("5")))]);
    let at = Selector::empty().push(field("n"));
    let r = v.edit(&at, Input::Typed(s("abc")));
    match r {
        Err(IcedFormValueError::Deserializing {
            target_type,
            message,
        }) => {
            assert_eq!(target_type, "Number");
            assert!(!message.is_empty());
        }
        Ok(v) => panic!("expected an error, got {:?}", v),
    }
}

#[test]
fn empty_array_renders_no_rows() {
    let w = Value::Array(vec![]).view(Selector::empty());
    match w {
        Widget::Column { children } => assert!(children.is_empty()),
        other => panic!("expected a column, got {:?}", other),
    }
}

#[test]
fn view_labels_and_targets() {
    let w = sample().view(Selector::empty());
    let children = match w {
        Widget::Column { children } => children,
        other => panic!("expected a column, got {:?}", other),
    };
    assert_eq!(children.len(), 2);
    match &children[0] {
        Widget::TextInput { caption, text, at } => {
            assert_eq!(caption, "a");
            assert_eq!(text, "1");
            assert_eq!(at.len(), 1);
        }
        other => panic!("expected a text field, got {:?}", other),
    }
    match &children[1] {
        Widget::Column { children } => {
            assert_eq!(children.len(), 2);
            match &children[0] {
                Widget::Toggle { caption, checked, at } => {
                    assert_eq!(caption, "0");
                    assert!(*checked);
                    assert_eq!(at.label(), "0");
                    assert_eq!(at.len(), 2);
                }
                other => panic!("expected a check box, got {:?}", other),
            }
            match &children[1] {
                Widget::TextInput { caption, text, .. } => {
                    assert_eq!(caption, "1");
                    assert_eq!(text, "x");
                }
                other => panic!("expected a text field, got {:?}", other),
            }
        }
        other => panic!("expected a column, got {:?}", other),
    }
}

#[test]
fn null_renders_a_caption() {
    let w = Value::Null.view(Selector::empty().push(field("note")));
    match w {
        Widget::Label { caption } => assert_eq!(caption, "note"),
        other => panic!("expected a caption, got {:?}", other),
    }
}

#[test]
fn number_edit_keeps_canonical_text() {
    let v = Value::Array(vec![Value::Number(s("3")), Value::Null]);
    let at = Selector::empty().push(SelectorSegment::ArrayIndex(0));
    let r = v.edit(&at, Input::Typed(s("1.50"))).unwrap();
    assert_eq!(r, Value::Array(vec![Value::Number(s("1.5")), Value::Null]));
}

#[test]
fn number_edit_accepts_integer() {
    let v = Value::Number(s("3"));
    let r = v.edit(&Selector::empty(), Input::Typed(s("42"))).unwrap();
    assert_eq!(r, Value::Number(s("42")));
}

#[test]
fn string_edit_replaces_text() {
    let v = Value::Object(vec![
        (s("x"), Value::String(s("old"))),
        (s("y"), Value::Bool(true)),
    ]);
    let at = Selector::empty().push(field("x"));
    let r = v.edit(&at, Input::Typed(s("new"))).unwrap();
    assert_eq!(
        r,
        Value::Object(vec![
            (s("x"), Value::String(s("new"))),
            (s("y"), Value::Bool(true)),
        ])
    );
}

#[test]
fn deep_error_reaches_root_unchanged() {
    let v = Value::Array(vec![
        Value::Null,
        Value::Object(vec![(
            s("k"),
            Value::Array(vec![Value::Bool(false), Value::Number(s("7"))]),
        )]),
    ]);
    let at = Selector::empty()
        .push(SelectorSegment::ArrayIndex(1))
        .push(field("k"))
        .push(SelectorSegment::ArrayIndex(1));
    let leaf = v.get(&at).unwrap().leaf_changed(Input::Typed(s("x1")));
    let leaf_message = match &leaf {
        Err(IcedFormValueError::Deserializing { message, .. }) => message.clone(),
        Ok(_) => panic!("expected the leaf to fail"),
    };
    let r = v.propagate(&at, leaf);
    match r {
        Err(IcedFormValueError::Deserializing {
            target_type,
            message,
        }) => {
            assert_eq!(target_type, "Number");
            assert_eq!(message, leaf_message);
        }
        Ok(_) => panic!("expected the error to reach the root"),
    }
}

#[test]
fn array_edit_keeps_length_and_others() {
    let v = Value::Array(vec![
        Value::String(s("p")),
        Value::String(s("q")),
        Value::String(s("r")),
    ]);
    let at = Selector::empty().push(SelectorSegment::ArrayIndex(1));
    let r = v.edit(&at, Input::Typed(s("Q"))).unwrap();
    assert_eq!(
        r,
        Value::Array(vec![
            Value::String(s("p")),
            Value::String(s("Q")),
            Value::String(s("r")),
        ])
    );
}

#[test]
fn object_edit_keeps_keys() {
    let v = Value::Object(vec![
        (s("first"), Value::Bool(true)),
        (s("second"), Value::Null),
        (s("third"), Value::Bool(false)),
    ]);
    let at = Selector::empty().push(field("third"));
    let r = v.edit(&at, Input::Toggled(true)).unwrap();
    assert_eq!(
        r,
        Value::Object(vec![
            (s("first"), Value::Bool(true)),
            (s("second"), Value::Null),
            (s("third"), Value::Bool(true)),
        ])
    );
}

#[test]
fn edit_elsewhere_keeps_sibling_subtrees() {
    let v = Value::Object(vec![
        (s("left"), Value::Array(vec![Value::Number(s("1"))])),
        (s("right"), Value::Array(vec![Value::Bool(true)])),
    ]);
    let at = Selector::empty()
        .push(field("right"))
        .push(SelectorSegment::ArrayIndex(0));
    let r = v.edit(&at, Input::Toggled(false)).unwrap();
    let left = Selector::empty().push(field("left"));
    assert_eq!(
        r.get(&left),
        Some(&Value::Array(vec![Value::Number(s("1"))]))
    );
    assert_eq!(r.get(&at), Some(&Value::Bool(false)));
}

#[test]
fn child_changed_replaces_one_entry() {
    let v = Value::Object(vec![(s("a"), Value::Null), (s("b"), Value::Null)]);
    let r = v.child_changed(&field("b"), Ok(Value::Bool(true))).unwrap();
    assert_eq!(
        r,
        Value::Object(vec![(s("a"), Value::Null), (s("b"), Value::Bool(true))])
    );
}

#[test]
fn child_changed_forwards_error() {
    let v = Value::Array(vec![Value::Null]);
    let e = IcedFormValueError::Deserializing {
        target_type: "Number",
        message: s("bad"),
    };
    match v.child_changed(&SelectorSegment::ArrayIndex(0), Err(e)) {
        Err(IcedFormValueError::Deserializing {
            target_type,
            message,
        }) => {
            assert_eq!(target_type, "Number");
            assert_eq!(message, "bad");
        }
        Ok(_) => panic!("expected the error"),
    }
}

#[test]
fn accepts_rejects_missing_or_mismatched() {
    let v = sample();
    let missing = Selector::empty().push(field("zzz"));
    assert!(!v.accepts(&missing, &Input::Toggled(true)));
    let out_of_range = Selector::empty()
        .push(field("b"))
        .push(SelectorSegment::ArrayIndex(2));
    assert!(!v.accepts(&out_of_range, &Input::Toggled(true)));
    let bool_leaf = Selector::empty()
        .push(field("b"))
        .push(SelectorSegment::ArrayIndex(0));
    assert!(!v.accepts(&bool_leaf, &Input::Typed(s("x"))));
    assert!(!v.accepts(&Selector::empty(), &Input::Typed(s("x"))));
}

#[test]
fn number_result_maps_both_outcomes() {
    assert_eq!(
        iced_forms::form::number_result(Ok(s("8"))).unwrap(),
        Value::Number(s("8"))
    );
    match iced_forms::form::number_result(Err(s("oops"))) {
        Err(IcedFormValueError::Deserializing {
            target_type,
            message,
        }) => {
            assert_eq!(target_type, "Number");
            assert_eq!(message, "oops");
        }
        Ok(_) => panic!("expected an error"),
    }
}

#[test]
fn selector_push_pop_label() {
    let root = Selector::empty();
    assert_eq!(root.label(), "");
    assert_eq!(root.len(), 0);
    let a = root.push(field("items"));
    let b = a.push(SelectorSegment::ArrayIndex(12));
    assert_eq!(root.len(), 0);
    assert_eq!(a.label(), "items");
    assert_eq!(b.label(), "12");
    assert_eq!(b.len(), 2);
    let up = b.pop();
    assert_eq!(up.len(), 1);
    assert_eq!(up.label(), "items");
    assert_eq!(root.pop().len(), 0);
    assert_eq!(SelectorSegment::ArrayIndex(0).label(), "0");
    assert_eq!(SelectorSegment::ArrayIndex(907).label(), "907");
}

#[test]
fn error_description() {
    let e = IcedFormValueError::Deserializing {
        target_type: "Number",
        message: s("invalid number"),
    };
    assert_eq!(
        e.describe(),
        "Deserializing value of type [Number] - invalid number"
    );
}

#[test]
fn company_round_trip() {
    let c = Company {
        name: s("Acme"),
        tax_number: s("123"),
        phone: s("555"),
    };
    let v = to_value(c.clone()).unwrap();
    let back: Company = from_value(&v).unwrap();
    assert_eq!(back.name, "Acme");
    assert_eq!(back.tax_number, "123");
    assert_eq!(back.phone, "555");
}

#[test]
fn customer_round_trip_both_kinds() {
    let p = Customer::PrivateCustomer(PrivateCustomer {
        name: s("Ann"),
        phone: s("1"),
    });
    let v = to_value(p).unwrap();
    match from_value::<Customer>(&v).unwrap() {
        Customer::PrivateCustomer(x) => {
            assert_eq!(x.name, "Ann");
            assert_eq!(x.phone, "1");
        }
        Customer::Company(_) => panic!("expected a person"),
    }
    let c = Customer::Company(Company {
        name: s("Acme"),
        tax_number: s("9"),
        phone: s("2"),
    });
    let v = to_value(c).unwrap();
    match from_value::<Customer>(&v).unwrap() {
        Customer::Company(x) => assert_eq!(x.tax_number, "9"),
        Customer::PrivateCustomer(_) => panic!("expected a company"),
    }
}

#[test]
fn device_buffer_round_trip_after_edit() {
    let d = IcedFormBuffer(Device {
        model_name: s("X1"),
        serial_number: s("SN"),
    });
    let v = d.to_buffer().unwrap();
    let at = Selector::empty().push(field("serial_number"));
    let edited = v.edit(&at, Input::Typed(s("SN-2"))).unwrap();
    let back = IcedFormBuffer::<Device>::from_buffer(&edited).unwrap();
    assert_eq!(back.0.model_name, "X1");
    assert_eq!(back.0.serial_number, "SN-2");
}

#[test]
fn from_value_rejects_wrong_shape() {
    let v = Value::Object(vec![(s("name"), Value::String(s("only")))]);
    match from_value::<Company>(&v) {
        Err(IcedFormValueError::Deserializing { target_type, .. }) => {
            assert_eq!(target_type, "Company")
        }
        Ok(_) => panic!("expected an error"),
    }
    match from_value::<Customer>(&Value::Null) {
        Err(IcedFormValueError::Deserializing { target_type, .. }) => {
            assert_eq!(target_type, "Customer")
        }
        Ok(_) => panic!("expected an error"),
    }
    let wrong_kind = Value::Object(vec![
        (s("model_name"), Value::Number(s("1"))),
        (s("serial_number"), Value::String(s("a"))),
    ]);
    assert!(from_value::<Device>(&wrong_kind).is_err());
}

#[test]
fn session_stores_edit_then_error_then_recovers() {
    let mut session = FormSession::new(Ok(Value::Object(vec![(
        s("n"),
        Value::Number(s("5")),
    )])));
    let at = Selector::empty().push(field("n"));
    assert!(session.handle_input(&at, Input::Typed(s("6"))));
    assert_eq!(
        session.buffer.as_ref().unwrap(),
        &Value::Object(vec![(s("n"), Value::Number(s("6")))])
    );
    assert!(session.handle_input(&at, Input::Typed(s("six"))));
    assert!(session.buffer.is_err());
    match session.view() {
        Widget::Label { caption } => {
            assert!(caption.starts_with("Deserializing value of type [Number] - "))
        }
        other => panic!("expected the error text, got {:?}", other),
    }
    assert!(!session.handle_input(&at, Input::Typed(s("7"))));
    session.form_updated(Ok(Value::Number(s("7"))));
    assert_eq!(session.buffer.as_ref().unwrap(), &Value::Number(s("7")));
}

#[test]
fn session_ignores_input_without_a_control() {
    let mut session = FormSession::new(Ok(Value::Array(vec![Value::Null])));
    let at = Selector::empty().push(SelectorSegment::ArrayIndex(0));
    assert!(!session.handle_input(&at, Input::Toggled(true)));
    assert_eq!(
        session.buffer.as_ref().unwrap(),
        &Value::Array(vec![Value::Null])
    );
    match session.view() {
        Widget::Column { children } => match &children[0] {
            Widget::Label { caption } => assert_eq!(caption, "0"),
            other => panic!("expected a caption, got {:?}", other),
        },
        other => panic!("expected a column, got {:?}", other),
    }
}

#[test]
fn device_encoding_is_exact() {
    let d = Device {
        model_name: s("m"),
        serial_number: s("s"),
    };
    let v = to_value(d).unwrap();
    assert_eq!(
        v,
        Value::Object(vec![
            (s("model_name"), Value::String(s("m"))),
            (s("serial_number"), Value::String(s("s"))),
        ])
    );
}

#[test]
fn to_buffer_matches_to_value() {
    let c = Company {
        name: s("Acme"),
        tax_number: s("1"),
        phone: s("2"),
    };
    let b = IcedFormBuffer(c.clone());
    assert_eq!(b.to_buffer().unwrap(), to_value(c).unwrap());
    assert_eq!(b.0.name, "Acme");
}

#[test]
fn from_buffer_error_matches_from_value() {
    let v = Value::Array(vec![]);
    let direct = match from_value::<Device>(&v) {
        Err(IcedFormValueError::Deserializing {
            target_type,
            message,
        }) => (target_type, message),
        Ok(_) => panic!("expected an error"),
    };
    match IcedFormBuffer::<Device>::from_buffer(&v) {
        Err(IcedFormValueError::Deserializing {
            target_type,
            message,
        }) => {
            assert_eq!((target_type, message), direct);
            assert_eq!(target_type, "Device");
        }
        Ok(_) => panic!("expected an error"),
    }
}

#[test]
fn customer_default_is_empty_person() {
    match Customer::default() {
        Customer::PrivateCustomer(p) => {
            assert!(p.name.is_empty());
            assert!(p.phone.is_empty());
        }
        Customer::Company(_) => panic!("expected a person"),
    }
}
