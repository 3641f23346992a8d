use crate::error::IcedFormValueResult;
use crate::form::{accepts_at, edit_outcome, rendered, Input, Widget};
use crate::selector::{Selector, Step};
use crate::value::Value;
use vstd::prelude::*;

verus! {

/// The state a host keeps for one form: the current value, or the error
/// that the last edit ended in.
#[derive(Debug)]
pub struct FormSession {
    pub buffer: IcedFormValueResult<Value>,
}

impl FormSession {
    /// A session showing `buffer`.
    pub fn new(buffer: IcedFormValueResult<Value>) -> (r: FormSession)
        ensures
            r.buffer == buffer,
    {
        FormSession { buffer }
    }

    /// Stores what reached the root of the form: a new value replaces the
    /// old one, and an error replaces it too until valid input comes.
    pub fn form_updated(&mut self, updated: IcedFormValueResult<Value>)
        ensures
            final(self).buffer == updated,
    {
        self.buffer = updated;
    }

    /// Hands `input` to the control at `at` and stores what reaches the
    /// root. Returns whether there was such a control: without one, or
    /// while an error is shown, nothing changes.
    pub fn handle_input(&mut self, at: &Selector, input: Input) -> (applied: bool)
        ensures
            applied == match old(self).buffer {
                Ok(v) => accepts_at(v, at@, input),
                Err(_) => false,
            },
            applied ==> edit_outcome(old(self).buffer->Ok_0, at@, input, final(self).buffer),
            !applied ==> final(self).buffer == old(self).buffer,
    {
        let ok = match &self.buffer {
            Ok(v) => v.accepts(at, &input),
            Err(_) => false,
        };
        if !ok {
            return false;
        }
        let mut taken: IcedFormValueResult<Value> = Ok(Value::Null);
        std::mem::swap(&mut self.buffer, &mut taken);
        match taken {
            Ok(v) => {
                self.buffer = v.edit(at, input);
            },
            Err(e) => {
                self.buffer = Err(e);
            },
        }
        true
    }

    /// What the host draws: the form of the value, or the error's text in
    /// place of the form.
    pub fn view(&self) -> (w: Widget)
        ensures
            match self.buffer {
                Ok(v) => rendered(v, Seq::<Step>::empty(), w),
                Err(e) => match w {
                    Widget::Label { caption } => caption@ == e.description(),
                    _ => false,
                },
            },
    {
        match &self.buffer {
            Ok(v) => v.view(Selector::empty()),
            Err(e) => Widget::Label { caption: e.describe() },
        }
    }
}

} // verus!
