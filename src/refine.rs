use vstd::prelude::*;

use crate::error::PipelineError;
use crate::message::{ChatCompletionRequestMessage, ChatCompletionRequestMessages, MessageView};
use crate::tokenizer::token_views;

verus! {

/// Put before the previous commit message when asking for its revision.
pub const REVISION_PREAMBLE: &'static str = "Previous commit message is as follows.
Take this commit message and modify it to include the additional code snippet (above) provided by the user.
======
FORMAT
======
The commit message should be in the following format:
==========
Branch: <suggested branch name>
~~~~~~~~~~
Subject: <subject (50 chars or less)>
~~~~~~~~~~
Body: <body>
==========
END FORMAT
==========

";

pub open spec fn message(name: &str, role: &str, content: Seq<char>) -> MessageView {
    MessageView { name: Some(name@), role: role@, content }
}

/// The request for one window: the instructions, the window's text, and, after the
/// first window, the previous commit message to revise.
pub open spec fn request_for(
    system_prompt: Seq<char>,
    window: Seq<char>,
    previous: Option<Seq<char>>,
) -> Seq<MessageView> {
    let base = seq![
        message("GitCommitBot", "system", system_prompt),
        message("User", "user", window),
    ];
    match previous {
        Some(p) => base.push(message("PreviousCommitProvider", "user", REVISION_PREAMBLE@ + p)),
        None => base,
    }
}

/// Builds the request for one window.
pub fn window_messages(system_prompt: &str, window: &str, previous: Option<&String>) -> (r:
    ChatCompletionRequestMessages)
    ensures
        r@ == request_for(
            system_prompt@,
            window@,
            match previous {
                Some(p) => Some(p@),
                None => None,
            },
        ),
{
    let mut r = ChatCompletionRequestMessages::from(vec![
        ChatCompletionRequestMessage::new("GitCommitBot", "system", system_prompt.to_owned()),
        ChatCompletionRequestMessage::new("User", "user", window.to_owned()),
    ]);
    assert(r@ =~= seq![
        message("GitCommitBot", "system", system_prompt@),
        message("User", "user", window@),
    ]);
    match previous {
        Some(p) => {
            let mut content = REVISION_PREAMBLE.to_owned();
            content.append(p.as_str());
            r.push(ChatCompletionRequestMessage::new("PreviousCommitProvider", "user", content));
        },
        None => {},
    }
    r
}

/// What a run holds: the instructions, the text of each window, and the commit
/// message produced so far for each window already sent.
pub ghost struct RefinementView {
    pub system_prompt: Seq<char>,
    pub windows: Seq<Seq<char>>,
    pub artifacts: Seq<Seq<char>>,
}

/// The request that a run sends next, or `None` once every window has its message.
pub open spec fn pending_request(v: RefinementView) -> Option<Seq<MessageView>> {
    let k = v.artifacts.len();
    if k >= v.windows.len() {
        None
    } else {
        Some(
            request_for(
                v.system_prompt,
                v.windows[k as int],
                if k == 0 {
                    None
                } else {
                    Some(v.artifacts[k - 1])
                },
            ),
        )
    }
}

/// One run of the refinement loop: windows are sent one at a time, each request
/// carrying the commit message produced for the window before it.
pub struct Refinement {
    system_prompt: String,
    windows: Vec<String>,
    artifacts: Vec<String>,
}

impl View for Refinement {
    type V = RefinementView;

    closed spec fn view(&self) -> RefinementView {
        RefinementView {
            system_prompt: self.system_prompt@,
            windows: token_views(self.windows@),
            artifacts: token_views(self.artifacts@),
        }
    }
}

impl Refinement {
    /// A run with nothing sent yet.
    pub fn new(system_prompt: String, windows: Vec<String>) -> (r: Self)
        ensures
            r@ == (RefinementView {
                system_prompt: system_prompt@,
                windows: token_views(windows@),
                artifacts: Seq::empty(),
            }),
    {
        let r = Refinement { system_prompt, windows, artifacts: Vec::new() };
        assert(token_views(r.artifacts@) =~= Seq::empty());
        r
    }

    /// Whether every window has its commit message.
    pub fn is_done(&self) -> (r: bool)
        ensures
            r == (self@.artifacts.len() >= self@.windows.len()),
    {
        self.artifacts.len() >= self.windows.len()
    }

    /// The request to send next, or `None` once the run is done.
    pub fn next_request(&self) -> (r: Option<ChatCompletionRequestMessages>)
        ensures
            match r {
                Some(m) => pending_request(self@) == Some(m@),
                None => pending_request(self@) is None,
            },
    {
        let k = self.artifacts.len();
        if k >= self.windows.len() {
            return None;
        }
        let previous = if k == 0 {
            None
        } else {
            Some(&self.artifacts[k - 1])
        };
        Some(window_messages(self.system_prompt.as_str(), self.windows[k].as_str(), previous))
    }

    /// Takes the service's answer to the pending request. An answer becomes the next
    /// commit message; a failure ends the run, and the messages produced so far are
    /// dropped with it.
    pub fn accept(self, response: Result<String, String>) -> (r: Result<Self, PipelineError>)
        requires
            self@.artifacts.len() < self@.windows.len(),
        ensures
            match response {
                Ok(text) => r is Ok && r->Ok_0@ == (RefinementView {
                    artifacts: self@.artifacts.push(text@),
                    ..self@
                }),
                Err(e) => r is Err && r->Err_0 == PipelineError::Generation(e),
            },
    {
        match response {
            Ok(text) => {
                let mut next = self;
                let ghost before = next@;
                let ghost t = text@;
                next.artifacts.push(text);
                assert(token_views(next.artifacts@) =~= before.artifacts.push(t));
                Ok(next)
            },
            Err(e) => Err(PipelineError::Generation(e)),
        }
    }

    /// The commit messages of a finished run, one per window; the last is the result.
    pub fn finish(self) -> (r: Vec<String>)
        requires
            self@.artifacts.len() >= self@.windows.len(),
        ensures
            token_views(r@) == self@.artifacts,
    {
        self.artifacts
    }
}

/// After the first window, each request holds the previous commit message word for
/// word: it is the end of the last message's content.
pub proof fn lemma_request_carries_previous(v: RefinementView)
    requires
        0 < v.artifacts.len() < v.windows.len(),
    ensures
        pending_request(v) matches Some(msgs) && {
            let prev = v.artifacts.last();
            let c = msgs.last().content;
            &&& c.len() >= prev.len()
            &&& c.subrange(c.len() - prev.len(), c.len() as int) == prev
        },
{
    let prev = v.artifacts.last();
    let msgs = pending_request(v)->Some_0;
    let c = msgs.last().content;
    assert(c == REVISION_PREAMBLE@ + prev);
    assert(c.subrange(c.len() - prev.len(), c.len() as int) =~= prev);
}

} // verus!
