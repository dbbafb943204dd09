//! A line of text that is being typed, with a cursor.
use crate::keys::{edit_of, KeyEvent};
use crate::outside::{edit_line, edited_line, is_alphanumeric};
use crate::text::chars_of;
use vstd::prelude::*;

verus! {

#[derive(Debug)]
pub struct TextInput {
    value: String,
    cursor: usize,
}

pub struct InputModel {
    pub value: Seq<char>,
    pub cursor: nat,
}

impl View for TextInput {
    type V = InputModel;

    closed spec fn view(&self) -> InputModel {
        InputModel { value: self.value@, cursor: self.cursor as nat }
    }
}

/// A line of text with the cursor at its end.
pub open spec fn input_of(value: Seq<char>) -> InputModel {
    InputModel { value, cursor: value.len() }
}

/// Which characters of a line are alphanumeric.
pub open spec fn alphanumeric_marks(value: Seq<char>) -> Seq<bool> {
    Seq::new(value.len(), |i: int| is_alphanumeric(value[i]))
}

/// The line and the cursor after a key.
pub open spec fn edited(input: InputModel, key: KeyEvent) -> InputModel {
    match edit_of(key) {
        Some(request) => {
            let marks = alphanumeric_marks(input.value);
            let (value, cursor) = edited_line(input.value, marks, input.cursor, request);
            InputModel { value, cursor }
        },
        None => input,
    }
}

impl TextInput {
    /// The cursor stands within the line.
    #[verifier::type_invariant]
    spec fn wf(self) -> bool {
        self.cursor <= self.value@.len()
    }

    /// A line with the cursor at its end.
    pub fn new(value: String) -> (r: TextInput)
        ensures
            r@ == input_of(value@),
    {
        let cursor: usize = chars_of(value.as_str()).len();
        TextInput { value, cursor }
    }

    pub fn value(&self) -> (r: &str)
        ensures
            r@ == self@.value,
    {
        self.value.as_str()
    }

    pub fn cursor(&self) -> (r: usize)
        ensures
            r == self@.cursor,
            r <= self@.value.len(),
    {
        proof {
            use_type_invariant(self);
        }
        self.cursor
    }

    /// The line and the cursor after a key.
    pub fn handle(&self, key: KeyEvent) -> (r: TextInput)
        ensures
            r@ == edited(self@, key),
    {
        proof {
            use_type_invariant(self);
        }
        let (value, cursor) = edit_line(self.value.as_str(), self.cursor, key);
        TextInput { value, cursor }
    }
}

} // verus!
