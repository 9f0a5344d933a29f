use vstd::prelude::*;

verus! {

/// The error shape every request handler reports: a coarse error code,
/// a message, and how the client should present it.
pub struct OkErr {
    /// '1' an ordinary error, '2' authentication required.
    pub error_code: char,
    /// The message shown.
    pub error_message: String,
    /// 0 silent, 1 warning, 2 error, 4 notification, 9 page.
    pub show_type: i8,
}

impl OkErr {
    /// An ordinary error around any displayable value; the message is
    /// the value's rendering, so for a plain string the string itself.
    pub fn new<E: core::fmt::Display>(e: E) -> (r: OkErr)
        ensures
            r.error_code == '1',
            r.show_type == 2,
            vstd::string::to_string_from_display_ensures::<E>(&e, r.error_message),
    {
        OkErr { error_code: '1', error_message: e.to_string(), show_type: 2 }
    }

    /// Changes how the client presents the error.
    pub fn show_type(&mut self, show_type: i8) -> (ret: &mut OkErr)
        ensures
            *ret == (OkErr {
                error_code: old(self).error_code,
                error_message: old(self).error_message,
                show_type,
            }),
            *final(self) == *final(ret),
    {
        self.show_type = show_type;
        self
    }

    /// Changes the error code.
    pub fn error_code(&mut self, error_code: char) -> (ret: &mut OkErr)
        ensures
            *ret == (OkErr {
                error_code,
                error_message: old(self).error_message,
                show_type: old(self).show_type,
            }),
            *final(self) == *final(ret),
    {
        self.error_code = error_code;
        self
    }

    /// Marks the error as an authentication demand.
    pub fn auth(&mut self) -> (ret: &mut OkErr)
        ensures
            *ret == (OkErr {
                error_code: '2',
                error_message: old(self).error_message,
                show_type: old(self).show_type,
            }),
            *final(self) == *final(ret),
    {
        self.error_code('2')
    }

    /// A copy, for handing on after builder-style adjustments.
    pub fn build(&self) -> (r: OkErr)
        ensures
            r == *self,
    {
        OkErr {
            error_code: self.error_code,
            error_message: self.error_message.clone(),
            show_type: self.show_type,
        }
    }
}

/// Wraps any displayable error in the handler error shape.
pub fn ej<E: core::fmt::Display>(e: E) -> (r: OkErr)
    ensures
        r.error_code == '1',
        r.show_type == 2,
        vstd::string::to_string_from_display_ensures::<E>(&e, r.error_message),
{
    OkErr::new::<E>(e)
}

/// Renders any displayable error to its message; for a plain string
/// the message is the string itself.
pub fn es<E: core::fmt::Display>(e: E) -> (r: String)
    ensures
        vstd::string::to_string_from_display_ensures::<E>(&e, r),
{
    e.to_string()
}

} // verus!
