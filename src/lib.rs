//! Editable forms generated from arbitrary structured values.
//!
//! A [`Value`] tree is rendered into a [`Widget`] description; an edit made
//! at one leaf is turned into a whole replacement tree, rebuilt from the leaf
//! outward, or into the leaf's error, handed back unchanged.
pub mod error;
pub mod selector;
pub mod value;
pub mod form;
pub mod laws;
pub mod record;
pub mod session;

pub use error::{IcedFormValueError, IcedFormValueResult};
pub use selector::{Selector, SelectorSegment, Step};
pub use value::Value;
pub use form::{Input, Widget};
pub use record::{from_value, to_value, Company, Customer, Device, FormRecord, IcedFormBuffer, PrivateCustomer};
pub use session::FormSession;
