use crate::error::{IcedFormValueError, IcedFormValueResult};
use crate::value::{is_first_key, key_position, lemma_key_position, Value};
use vstd::prelude::*;

verus! {

/// The field `key` of the object `v` holds the string `s`.
pub open spec fn string_at(v: Value, key: Seq<char>, s: String) -> bool {
    match v {
        Value::Object(entries) => match key_position(entries@, key) {
            Some(j) => entries@[j].1 == Value::String(s),
            None => false,
        },
        _ => false,
    }
}

/// `v` is an object whose field `key` holds a string.
pub open spec fn has_string_at(v: Value, key: Seq<char>) -> bool {
    match v {
        Value::Object(entries) => match key_position(entries@, key) {
            Some(j) => entries@[j].1 is String,
            None => false,
        },
        _ => false,
    }
}

/// The string in field `key` of `v`, if `v` is an object with one there.
fn read_string(v: &Value, key: &str) -> (r: Option<String>)
    ensures
        match r {
            Some(s) => string_at(*v, key@, s),
            None => !has_string_at(*v, key@),
        },
{
    match v {
        Value::Object(entries) => {
            let k = String::from_str(key);
            let mut i: usize = 0;
            while i < entries.len()
                invariant
                    *v == Value::Object(*entries),
                    i <= entries@.len(),
                    k@ == key@,
                    forall|j: int| 0 <= j < i ==> entries@[j].0@ != key@,
                decreases entries@.len() - i,
            {
                if entries[i].0 == k {
                    proof {
                        lemma_key_position(entries@, key@, i as int);
                    }
                    return match &entries[i].1 {
                        Value::String(s) => {
                            assert(entries@[i as int].1 == Value::String(*s));
                            Some(s.clone())
                        },
                        _ => None,
                    };
                }
                i = i + 1;
            }
            None
        },
        _ => None,
    }
}

/// A record that has a value form: an object with one entry per field.
pub trait FormRecord: Sized {
    /// `r` is what `v` reads as.
    spec fn decodes(v: Value, r: Self) -> bool;

    /// `v` can be read as a record of this type.
    spec fn decodable(v: Value) -> bool;

    /// The name of the type, as errors give it.
    spec fn label() -> Seq<char>;

    /// A value that reads as a record reads as that record alone.
    proof fn lemma_decodes(v: Value, x: Self, y: Self)
        requires
            Self::decodes(v, x),
        ensures
            Self::decodable(v),
            Self::decodes(v, y) ==> x == y,
    ;

    fn type_label() -> (r: &'static str)
        ensures
            r@ == Self::label(),
    ;

    /// `v` is the value form of `r`: an object holding one string entry
    /// per field, in the order the fields are declared.
    spec fn encoded(r: Self, v: Value) -> bool;

    /// The value form of `self`.
    fn encode(&self) -> (v: Value)
        ensures
            Self::encoded(*self, v),
            Self::decodes(v, *self),
    ;

    /// Reads a record from `v`, or says that `v` does not have its shape.
    fn decode(v: &Value) -> (r: IcedFormValueResult<Self>)
        ensures
            match r {
                Ok(x) => Self::decodes(*v, x),
                Err(IcedFormValueError::Deserializing { target_type, message }) => !Self::decodable(
                    *v,
                ) && target_type@ == Self::label() && message@ == shape_message(),
            },
    ;
}

/// `r` is what reading `v` as a `T` gives: the record it reads as, or an
/// error naming `T` where `v` does not have its shape.
pub open spec fn decode_outcome<T: FormRecord>(v: Value, r: IcedFormValueResult<T>) -> bool {
    match r {
        Ok(x) => T::decodes(v, x),
        Err(IcedFormValueError::Deserializing { target_type, message }) => !T::decodable(v)
            && target_type@ == T::label() && message@ == shape_message(),
    }
}

/// The message of the error given for a value without a record's shape.
pub open spec fn shape_message() -> Seq<char> {
    "the value does not have the fields of this type"@
}

/// The entry `e` has key `key` and holds the string `s`.
pub open spec fn string_entry(e: (String, Value), key: Seq<char>, s: String) -> bool {
    e.0@ == key && e.1 == Value::String(s)
}

fn shape_error(target_type: &'static str) -> (e: IcedFormValueError)
    ensures
        e == (IcedFormValueError::Deserializing { target_type, message: e->message }),
        e->message@ == shape_message(),
{
    IcedFormValueError::Deserializing {
        target_type,
        message: String::from_str("the value does not have the fields of this type"),
    }
}

fn entry(key: &str, s: &String) -> (r: (String, Value))
    ensures
        r.0@ == key@,
        r.1 == Value::String(*s),
{
    (String::from_str(key), Value::String(s.clone()))
}

/// A customer that is a business.
#[derive(Debug, Clone, Default)]
pub struct Company {
    pub name: String,
    pub tax_number: String,
    pub phone: String,
}

/// A customer that is a person.
#[derive(Debug, Clone, Default)]
pub struct PrivateCustomer {
    pub name: String,
    pub phone: String,
}

/// Either kind of customer; its value form is that of the inner record.
#[derive(Debug, Clone)]
pub enum Customer {
    PrivateCustomer(PrivateCustomer),
    Company(Company),
}

/// A device brought in for repair.
#[derive(Debug, Clone, Default)]
pub struct Device {
    pub model_name: String,
    pub serial_number: String,
}

impl FormRecord for Company {
    open spec fn decodes(v: Value, r: Self) -> bool {
        &&& string_at(v, "name"@, r.name)
        &&& string_at(v, "tax_number"@, r.tax_number)
        &&& string_at(v, "phone"@, r.phone)
    }

    open spec fn decodable(v: Value) -> bool {
        &&& has_string_at(v, "name"@)
        &&& has_string_at(v, "tax_number"@)
        &&& has_string_at(v, "phone"@)
    }

    open spec fn encoded(r: Self, v: Value) -> bool {
        match v {
            Value::Object(e) => e@.len() == 3 && string_entry(e@[0], "name"@, r.name)
                && string_entry(e@[1], "tax_number"@, r.tax_number) && string_entry(
                e@[2],
                "phone"@,
                r.phone,
            ),
            _ => false,
        }
    }

    open spec fn label() -> Seq<char> {
        "Company"@
    }

    proof fn lemma_decodes(v: Value, x: Self, y: Self) {
    }

    fn type_label() -> (r: &'static str) {
        "Company"
    }

    fn encode(&self) -> (v: Value) {
        let mut entries: Vec<(String, Value)> = Vec::new();
        entries.push(entry("name", &self.name));
        entries.push(entry("tax_number", &self.tax_number));
        entries.push(entry("phone", &self.phone));
        proof {
            reveal_strlit("name");
            reveal_strlit("tax_number");
            reveal_strlit("phone");
            assert("name"@.len() == 4);
            assert("tax_number"@.len() == 10);
            assert("phone"@.len() == 5);
            lemma_key_position(entries@, "name"@, 0);
            lemma_key_position(entries@, "tax_number"@, 1);
            lemma_key_position(entries@, "phone"@, 2);
        }
        Value::Object(entries)
    }

    fn decode(v: &Value) -> (r: IcedFormValueResult<Self>) {
        match (read_string(v, "name"), read_string(v, "tax_number"), read_string(v, "phone")) {
            (Some(name), Some(tax_number), Some(phone)) => Ok(Company { name, tax_number, phone }),
            _ => Err(shape_error(Self::type_label())),
        }
    }
}

impl FormRecord for PrivateCustomer {
    open spec fn decodes(v: Value, r: Self) -> bool {
        &&& string_at(v, "name"@, r.name)
        &&& string_at(v, "phone"@, r.phone)
    }

    open spec fn decodable(v: Value) -> bool {
        &&& has_string_at(v, "name"@)
        &&& has_string_at(v, "phone"@)
    }

    open spec fn encoded(r: Self, v: Value) -> bool {
        match v {
            Value::Object(e) => e@.len() == 2 && string_entry(e@[0], "name"@, r.name)
                && string_entry(e@[1], "phone"@, r.phone),
            _ => false,
        }
    }

    open spec fn label() -> Seq<char> {
        "PrivateCustomer"@
    }

    proof fn lemma_decodes(v: Value, x: Self, y: Self) {
    }

    fn type_label() -> (r: &'static str) {
        "PrivateCustomer"
    }

    fn encode(&self) -> (v: Value) {
        let mut entries: Vec<(String, Value)> = Vec::new();
        entries.push(entry("name", &self.name));
        entries.push(entry("phone", &self.phone));
        proof {
            reveal_strlit("name");
            reveal_strlit("phone");
            assert("name"@.len() == 4);
            assert("phone"@.len() == 5);
            lemma_key_position(entries@, "name"@, 0);
            lemma_key_position(entries@, "phone"@, 1);
        }
        Value::Object(entries)
    }

    fn decode(v: &Value) -> (r: IcedFormValueResult<Self>) {
        match (read_string(v, "name"), read_string(v, "phone")) {
            (Some(name), Some(phone)) => Ok(PrivateCustomer { name, phone }),
            _ => Err(shape_error(Self::type_label())),
        }
    }
}

impl FormRecord for Customer {
    /// A value with the fields of a company reads as a company; one with
    /// only those of a person, as a person.
    open spec fn decodes(v: Value, r: Self) -> bool {
        match r {
            Customer::Company(c) => Company::decodes(v, c),
            Customer::PrivateCustomer(p) => !Company::decodable(v) && PrivateCustomer::decodes(
                v,
                p,
            ),
        }
    }

    open spec fn decodable(v: Value) -> bool {
        Company::decodable(v) || PrivateCustomer::decodable(v)
    }

    open spec fn encoded(r: Self, v: Value) -> bool {
        match r {
            Customer::Company(c) => Company::encoded(c, v),
            Customer::PrivateCustomer(p) => PrivateCustomer::encoded(p, v),
        }
    }

    open spec fn label() -> Seq<char> {
        "Customer"@
    }

    proof fn lemma_decodes(v: Value, x: Self, y: Self) {
        match x {
            Customer::Company(c) => Company::lemma_decodes(v, c, c),
            Customer::PrivateCustomer(p) => PrivateCustomer::lemma_decodes(v, p, p),
        }
        if Customer::decodes(v, y) {
            match (x, y) {
                (Customer::Company(c), Customer::Company(d)) => Company::lemma_decodes(v, c, d),
                (Customer::PrivateCustomer(p), Customer::PrivateCustomer(q)) => {
                    PrivateCustomer::lemma_decodes(v, p, q)
                },
                (Customer::Company(c), _) => Company::lemma_decodes(v, c, c),
                (_, Customer::Company(d)) => Company::lemma_decodes(v, d, d),
            }
        }
    }

    fn type_label() -> (r: &'static str) {
        "Customer"
    }

    fn encode(&self) -> (v: Value) {
        match self {
            Customer::Company(c) => {
                c.encode()
            },
            Customer::PrivateCustomer(p) => {
                let v = p.encode();
                proof {
                    let entries = v->Object_0@;
                    reveal_strlit("name");
                    reveal_strlit("phone");
                    reveal_strlit("tax_number");
                    assert("name"@.len() == 4);
                    assert("phone"@.len() == 5);
                    assert("tax_number"@.len() == 10);
                    assert(entries[0].0@ != "tax_number"@);
                    assert(entries[1].0@ != "tax_number"@);
                    assert(!exists|i: int| is_first_key(entries, "tax_number"@, i));
                }
                v
            },
        }
    }

    fn decode(v: &Value) -> (r: IcedFormValueResult<Self>) {
        match Company::decode(v) {
            Ok(c) => Ok(Customer::Company(c)),
            Err(_) => match PrivateCustomer::decode(v) {
                Ok(p) => Ok(Customer::PrivateCustomer(p)),
                Err(_) => Err(shape_error(Self::type_label())),
            },
        }
    }
}

impl Default for Customer {
    /// A person with an empty name and phone.
    fn default() -> (r: Self)
        ensures
            r matches Customer::PrivateCustomer(p) && p.name@.len() == 0 && p.phone@.len() == 0,
    {
        Customer::PrivateCustomer(PrivateCustomer { name: String::new(), phone: String::new() })
    }
}

impl FormRecord for Device {
    open spec fn decodes(v: Value, r: Self) -> bool {
        &&& string_at(v, "model_name"@, r.model_name)
        &&& string_at(v, "serial_number"@, r.serial_number)
    }

    open spec fn decodable(v: Value) -> bool {
        &&& has_string_at(v, "model_name"@)
        &&& has_string_at(v, "serial_number"@)
    }

    open spec fn encoded(r: Self, v: Value) -> bool {
        match v {
            Value::Object(e) => e@.len() == 2 && string_entry(e@[0], "model_name"@, r.model_name)
                && string_entry(e@[1], "serial_number"@, r.serial_number),
            _ => false,
        }
    }

    open spec fn label() -> Seq<char> {
        "Device"@
    }

    proof fn lemma_decodes(v: Value, x: Self, y: Self) {
    }

    fn type_label() -> (r: &'static str) {
        "Device"
    }

    fn encode(&self) -> (v: Value) {
        let mut entries: Vec<(String, Value)> = Vec::new();
        entries.push(entry("model_name", &self.model_name));
        entries.push(entry("serial_number", &self.serial_number));
        proof {
            reveal_strlit("model_name");
            reveal_strlit("serial_number");
            assert("model_name"@.len() == 10);
            assert("serial_number"@.len() == 13);
            lemma_key_position(entries@, "model_name"@, 0);
            lemma_key_position(entries@, "serial_number"@, 1);
        }
        Value::Object(entries)
    }

    fn decode(v: &Value) -> (r: IcedFormValueResult<Self>) {
        match (read_string(v, "model_name"), read_string(v, "serial_number")) {
            (Some(model_name), Some(serial_number)) => Ok(Device { model_name, serial_number }),
            _ => Err(shape_error(Self::type_label())),
        }
    }
}

/// The value form of a record.
pub fn to_value<T: FormRecord>(val: T) -> (r: IcedFormValueResult<Value>)
    ensures
        r is Ok,
        T::encoded(val, r->Ok_0),
        T::decodes(r->Ok_0, val),
{
    Ok(val.encode())
}

/// Reads a record from its value form.
pub fn from_value<T: FormRecord>(value: &Value) -> (r: IcedFormValueResult<T>)
    ensures
        decode_outcome(*value, r),
{
    T::decode(value)
}

/// A record held for editing through its value form.
#[derive(Debug, Clone)]
pub struct IcedFormBuffer<T>(pub T);

impl<T: FormRecord> IcedFormBuffer<T> {
    /// The value form of the held record.
    pub fn to_buffer(&self) -> (r: IcedFormValueResult<Value>)
        ensures
            r is Ok,
            T::encoded(self.0, r->Ok_0),
            T::decodes(r->Ok_0, self.0),
    {
        Ok(self.0.encode())
    }

    /// A buffer holding the record that `value` reads as; on failure, the
    /// error that `from_value` gives.
    pub fn from_buffer(value: &Value) -> (r: IcedFormValueResult<Self>)
        ensures
            match r {
                Ok(b) => decode_outcome::<T>(*value, Ok(b.0)),
                Err(e) => decode_outcome::<T>(*value, Err(e)),
            },
    {
        match from_value::<T>(value) {
            Ok(x) => Ok(IcedFormBuffer(x)),
            Err(e) => Err(e),
        }
    }
}

/// Reading back the value form of a record gives that record.
pub proof fn lemma_round_trip<T: FormRecord>(r: T, v: Value, back: IcedFormValueResult<T>)
    requires
        T::decodes(v, r),
        decode_outcome(v, back),
    ensures
        back == Ok::<T, IcedFormValueError>(r),
{
    T::lemma_decodes(v, r, r);
    if let Ok(x) = back {
        T::lemma_decodes(v, r, x);
    }
}

} // verus!
