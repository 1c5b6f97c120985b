//! Chat messages with string content.
use vstd::prelude::*;

use crate::text::push_text;

verus! {

/// Who a message comes from.
#[derive(Clone, Copy, Debug, PartialEq, Eq, Structural)]
pub enum MessageRole {
    User,
    Assistant,
}

/// A message whose content is text.
#[derive(Debug)]
pub struct Message {
    pub role: MessageRole,
    pub content: String,
}

/// The mathematical value of a message.
pub struct MessageV {
    pub role: MessageRole,
    pub content: Seq<char>,
}

impl View for Message {
    type V = MessageV;

    open spec fn view(&self) -> MessageV {
        MessageV { role: self.role, content: self.content@ }
    }
}

/// The views of a sequence of messages.
pub open spec fn messages_view(ms: Seq<Message>) -> Seq<MessageV> {
    Seq::new(ms.len(), |i: int| ms[i]@)
}

/// Appends a message, or merges it into the last one when both come from the
/// same role: the contents are then concatenated.
pub open spec fn push_or_merge(ms: Seq<MessageV>, m: MessageV) -> Seq<MessageV> {
    if ms.len() > 0 && ms.last().role == m.role {
        ms.drop_last().push(MessageV { role: m.role, content: ms.last().content + m.content })
    } else {
        ms.push(m)
    }
}

/// Whether no two neighbouring messages come from the same role.
pub open spec fn roles_alternate(ms: Seq<MessageV>) -> bool {
    forall|i: int, j: int| 0 <= i && j == i + 1 && j < ms.len() ==> #[trigger] ms[i].role != #[trigger] ms[j].role
}

/// The text of all the messages, one after the other.
pub open spec fn all_text(ms: Seq<MessageV>) -> Seq<char>
    decreases ms.len(),
{
    if ms.len() == 0 {
        Seq::empty()
    } else {
        all_text(ms.drop_last()) + ms.last().content
    }
}

/// Pushing or merging a message keeps neighbouring messages from different
/// roles, and loses no text: the messages' text is extended by the new
/// message's text.
pub proof fn law_push_or_merge(ms: Seq<MessageV>, m: MessageV)
    requires
        roles_alternate(ms),
    ensures
        roles_alternate(push_or_merge(ms, m)),
        all_text(push_or_merge(ms, m)) == all_text(ms) + m.content,
        push_or_merge(ms, m).last().role == m.role,
{
    let r = push_or_merge(ms, m);
    if ms.len() > 0 && ms.last().role == m.role {
        assert(r.drop_last() =~= ms.drop_last());
        assert(all_text(r) =~= all_text(ms) + m.content);
        assert forall|i: int, j: int| 0 <= i && j == i + 1 && j < r.len() implies #[trigger] r[i].role != #[trigger] r[j].role by {
            assert(r[i] == ms[i]);
            if j < r.len() - 1 {
                assert(r[j] == ms[j]);
            } else {
                assert(ms[i].role != ms[j].role);
            }
        }
    } else {
        assert(r.drop_last() =~= ms);
        assert forall|i: int, j: int| 0 <= i && j == i + 1 && j < r.len() implies #[trigger] r[i].role != #[trigger] r[j].role by {
            assert(r[i] == ms[i]);
            if j < r.len() - 1 {
                assert(r[j] == ms[j]);
            }
        }
    }
}

impl Message {
    /// A user message with the given text.
    pub fn user(content: String) -> (r: Message)
        ensures
            r@ == (MessageV { role: MessageRole::User, content: content@ }),
    {
        Message { role: MessageRole::User, content }
    }

    /// A copy of this message.
    pub fn copy(&self) -> (r: Message)
        ensures
            r@ == self@,
    {
        Message { role: self.role, content: self.content.clone() }
    }
}

/// Pushes a message, merging it into the last message when the roles agree.
pub fn push_or_merge_message(messages: &mut Vec<Message>, to_push: Message)
    ensures
        messages_view(final(messages)@) == push_or_merge(messages_view(old(messages)@), to_push@),
{
    let ghost old_v = messages_view(messages@);
    let n = messages.len();
    if n > 0 && messages[n - 1].role == to_push.role {
        let mut last = messages.pop().unwrap();
        push_text(&mut last.content, to_push.content.as_str());
        messages.push(last);
        assert(messages_view(messages@) =~= push_or_merge(old_v, to_push@));
    } else {
        messages.push(to_push);
        assert(messages_view(messages@) =~= push_or_merge(old_v, to_push@));
    }
}

} // verus!
