use vstd::prelude::*;

verus! {

/// The one failure of the form engine: a text could not be read back as a
/// value of the named type.
#[derive(Debug, Clone)]
pub enum IcedFormValueError {
    Deserializing { target_type: &'static str, message: String },
}

pub type IcedFormValueResult<T> = Result<T, IcedFormValueError>;

impl IcedFormValueError {
    /// The text shown to a user in place of the form.
    pub fn describe(&self) -> (r: String)
        ensures
            r@ == self.description(),
    {
        match self {
            IcedFormValueError::Deserializing { target_type, message } => {
                let mut r = String::from_str("Deserializing value of type [");
                r.append(target_type);
                r.append("] - ");
                r.append(message.as_str());
                proof {
                    reveal_strlit("Deserializing value of type [");
                    reveal_strlit("] - ");
                }
                r
            },
        }
    }

    pub open spec fn description(&self) -> Seq<char> {
        match self {
            IcedFormValueError::Deserializing { target_type, message } => "Deserializing value of type ["@
                + target_type@ + "] - "@ + message@,
        }
    }
}

} // verus!
