use vstd::prelude::*;

verus! {

/// One role-tagged message of a generation request.
#[derive(Clone)]
pub struct ChatCompletionRequestMessage {
    pub name: Option<String>,
    pub content: String,
    pub role: String,
}

/// What a message says, as plain sequences of characters.
pub ghost struct MessageView {
    pub name: Option<Seq<char>>,
    pub role: Seq<char>,
    pub content: Seq<char>,
}

impl View for ChatCompletionRequestMessage {
    type V = MessageView;

    open spec fn view(&self) -> MessageView {
        MessageView {
            name: match self.name {
                Some(n) => Some(n@),
                None => None,
            },
            role: self.role@,
            content: self.content@,
        }
    }
}

impl ChatCompletionRequestMessage {
    /// A message labelled `name`, sent in `role`.
    pub fn new(name: &str, role: &str, content: String) -> (r: Self)
        ensures
            r@ == (MessageView { name: Some(name@), role: role@, content: content@ }),
    {
        ChatCompletionRequestMessage { name: Some(name.to_owned()), content, role: role.to_owned() }
    }
}

/// An ordered list of messages: one generation request.
#[derive(Clone)]
pub struct ChatCompletionRequestMessages {
    pub messages: Vec<ChatCompletionRequestMessage>,
}

impl View for ChatCompletionRequestMessages {
    type V = Seq<MessageView>;

    open spec fn view(&self) -> Seq<MessageView> {
        self.messages@.map_values(|m: ChatCompletionRequestMessage| m@)
    }
}

impl From<Vec<ChatCompletionRequestMessage>> for ChatCompletionRequestMessages {
    fn from(messages: Vec<ChatCompletionRequestMessage>) -> (r: Self) {
        ChatCompletionRequestMessages { messages }
    }
}

impl vstd::std_specs::convert::FromSpecImpl<Vec<ChatCompletionRequestMessage>> for ChatCompletionRequestMessages {
    open spec fn obeys_from_spec() -> bool {
        true
    }

    open spec fn from_spec(v: Vec<ChatCompletionRequestMessage>) -> Self {
        ChatCompletionRequestMessages { messages: v }
    }
}

impl ChatCompletionRequestMessages {
    /// The number of messages.
    pub fn len(&self) -> (r: usize)
        ensures
            r == self@.len(),
    {
        self.messages.len()
    }

    /// Appends `m` at the end of the list.
    pub fn push(&mut self, m: ChatCompletionRequestMessage)
        ensures
            final(self)@ == old(self)@.push(m@),
    {
        self.messages.push(m);
        proof {
            assert(final(self)@ =~= old(self)@.push(m@));
        }
    }
}

} // verus!
