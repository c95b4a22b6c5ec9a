use vstd::prelude::*;

verus! {

/// The [`Message`] struct is used when displaying a message to a user.
pub struct Message {
    /// Displayed as a title alongside the message.  If not present, no
    /// title is shown.
    pub title: Option<String>,

    /// The main body of the message.
    pub text: String,
}

impl Message {
    /// Creates a message with the given text and no title.
    pub fn new(text: String) -> (m: Message)
        ensures
            m.title is None,
            m.text == text,
    {
        Message { title: None, text }
    }

    /// Builder method to add a title to an existing [`Message`].
    pub fn title(self, title: String) -> (m: Message)
        ensures
            m.title == Some(title),
            m.text == self.text,
    {
        Message { title: Some(title), text: self.text }
    }
}

} // verus!
