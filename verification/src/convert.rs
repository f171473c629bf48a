//! Two small types and the conversions between them and the types they are
//! made of.

use vstd::prelude::*;
use vstd::std_specs::convert::{FromSpecImpl, TryFromSpecImpl};
use super::format_spec::chars_of;

verus! {

/// How many of the characters are at-signs.
pub open spec fn at_signs(text: Seq<char>) -> nat
    decreases text.len(),
{
    if text.len() == 0 {
        0
    } else {
        at_signs(text.drop_last()) + if text.last() == '@' {
            1nat
        } else {
            0nat
        }
    }
}

/// Whether the text has the shape of an e-mail address: exactly one
/// at-sign parts it in two. Not a full check.
pub open spec fn is_email(text: Seq<char>) -> bool {
    at_signs(text) == 1
}

/// A string that has the shape of an e-mail address.
pub struct EmailString(String);

impl EmailString {
    /// The text of the address.
    pub closed spec fn view(&self) -> Seq<char> {
        self.0@
    }

    /// The address is held as a text with one at-sign.
    pub closed spec fn wf(&self) -> bool {
        is_email(self.0@)
    }
}

impl TryFrom<&str> for EmailString {
    type Error = ();

    /// The address that `text` holds, if `text` has the shape of one.
    fn try_from(text: &str) -> (address: Result<Self, ()>)
        ensures
            is_email(text@) <==> address is Ok,
            address matches Ok(email) ==> email@ == text@ && email.wf(),
    {
        let chars = chars_of(text);
        let mut count: usize = 0;
        for i in 0..chars.len()
            invariant
                count == at_signs(chars@.take(i as int)),
                count <= i,
        {
            proof {
                assert(chars@.take(i + 1).drop_last() =~= chars@.take(i as int));
            }
            if chars[i] == '@' {
                count += 1;
            }
        }
        proof {
            assert(chars@.take(chars@.len() as int) =~= chars@);
        }
        if count == 1 {
            Ok(EmailString(text.to_owned()))
        } else {
            Err(())
        }
    }
}

/// What the conversion returns is stated on `try_from` itself.
impl TryFromSpecImpl<&str> for EmailString {
    open spec fn obeys_try_from_spec() -> bool {
        false
    }

    open spec fn try_from_spec(text: &str) -> Result<Self, ()> {
        Err(())
    }
}

impl From<EmailString> for String {
    /// The text of the address.
    fn from(es: EmailString) -> (text: String)
        ensures
            text@ == es@,
    {
        es.0
    }
}

impl FromSpecImpl<EmailString> for String {
    open spec fn obeys_from_spec() -> bool {
        true
    }

    closed spec fn from_spec(es: EmailString) -> String {
        es.0
    }
}

impl core::ops::Deref for EmailString {
    type Target = String;

    /// The text of the address.
    fn deref(&self) -> (text: &String)
        ensures
            text@ == self@,
    {
        &self.0
    }
}

impl AsRef<String> for EmailString {
    /// The text of the address.
    fn as_ref(&self) -> (text: &String)
        ensures
            text@ == self@,
    {
        &self.0
    }
}

/// Three values, of which one is handed out at random.
pub struct Random<T>(pub T, pub T, pub T);

impl<T> From<Random<T>> for (T, T, T) {
    fn from(val: Random<T>) -> (values: (T, T, T)) {
        (val.0, val.1, val.2)
    }
}

impl<T> FromSpecImpl<Random<T>> for (T, T, T) {
    open spec fn obeys_from_spec() -> bool {
        true
    }

    open spec fn from_spec(val: Random<T>) -> (T, T, T) {
        (val.0, val.1, val.2)
    }
}

impl<T> From<(T, T, T)> for Random<T> {
    fn from(val: (T, T, T)) -> (values: Random<T>) {
        Random(val.0, val.1, val.2)
    }
}

impl<T> FromSpecImpl<(T, T, T)> for Random<T> {
    open spec fn obeys_from_spec() -> bool {
        true
    }

    open spec fn from_spec(val: (T, T, T)) -> Random<T> {
        Random(val.0, val.1, val.2)
    }
}

/// A byte drawn by `rand::random`. Any byte may come back, and two calls
/// need not agree. The generator behind it is seeded by the operating
/// system on a thread's first draw and gives up where the system has no
/// seed for it.
#[verifier::external_body]
fn random_byte() -> (byte: u8) {
    rand::random::<u8>()
}

impl<T> Random<T> {
    /// The value that a draw selects: the first for a multiple of three,
    /// the second for one more, the third for two more.
    pub open spec fn selected(&self, draw: u8) -> T {
        if draw % 3 == 0 {
            self.0
        } else if draw % 3 == 1 {
            self.1
        } else {
            self.2
        }
    }

    /// Hands out the value that `draw` selects.
    pub fn select(&self, draw: u8) -> (value: &T)
        ensures
            *value == self.selected(draw),
    {
        let i = draw % 3;
        if i == 0 {
            &self.0
        } else if i == 1 {
            &self.1
        } else {
            &self.2
        }
    }
}

impl<T> core::ops::Deref for Random<T> {
    type Target = T;

    /// Hands out one of the three values, chosen by a random draw.
    fn deref(&self) -> (value: &T)
        ensures
            exists|draw: u8| *value == #[trigger] self.selected(draw),
    {
        self.select(random_byte())
    }
}

} // verus!
