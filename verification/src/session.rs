use vstd::prelude::*;

verus! {

/// Who wrote a message.
#[derive(Clone, Copy, Debug, PartialEq, Eq, Structural)]
pub enum Role {
    User,
    Assistant,
}

/// The tool that recorded a session.
#[derive(Clone, Copy, Debug, PartialEq, Eq, Structural)]
pub enum SessionSource {
    /// JSON-lines logs kept per project (`~/.<tool>/projects/*/*.jsonl`).
    Projects,
    /// The Codex CLI (`~/.codex/sessions`).
    CodexCli,
    /// Factory (`~/.factory/sessions`).
    Factory,
    /// OpenCode (its database, or its older file storage).
    OpenCode,
}

/// One message of a conversation; `timestamp` is in milliseconds since the Unix epoch.
#[derive(Debug)]
pub struct Message {
    pub role: Role,
    pub content: String,
    pub timestamp: i64,
}

/// The mathematical value of a [`Message`].
pub struct MessageModel {
    pub role: Role,
    pub content: Seq<char>,
    pub timestamp: i64,
}

impl View for Message {
    type V = MessageModel;

    open spec fn view(&self) -> MessageModel {
        MessageModel { role: self.role, content: self.content@, timestamp: self.timestamp }
    }
}

impl Message {
    /// A copy of this message with the same role, content and timestamp.
    pub(crate) fn duplicate(&self) -> (r: Message)
        ensures
            r@ == self@,
    {
        Message { role: self.role, content: self.content.clone(), timestamp: self.timestamp }
    }
}

/// The models of a sequence of messages, in order.
pub open spec fn messages_model(messages: Seq<Message>) -> Seq<MessageModel> {
    messages.map_values(|m: Message| m@)
}

/// The text that separates two joined messages.
pub open spec fn message_separator() -> Seq<char> {
    seq!['\n', '\n']
}

/// Folds `messages` from the left, appending each message to the previous
/// one when both have the same role; a joined message keeps the latest
/// timestamp of its parts.
pub open spec fn joined_messages(messages: Seq<MessageModel>) -> Seq<MessageModel>
    decreases messages.len(),
{
    if messages.len() == 0 {
        seq![]
    } else {
        let acc = joined_messages(messages.drop_last());
        let m = messages.last();
        if acc.len() > 0 && acc.last().role == m.role {
            acc.update(
                acc.len() - 1,
                MessageModel {
                    role: m.role,
                    content: acc.last().content + message_separator() + m.content,
                    timestamp: if m.timestamp > acc.last().timestamp {
                        m.timestamp
                    } else {
                        acc.last().timestamp
                    },
                },
            )
        } else {
            acc.push(m)
        }
    }
}

/// No two neighbouring messages share a role.
pub open spec fn roles_alternate(messages: Seq<MessageModel>) -> bool {
    forall|i: int, j: int|
        #![trigger messages[i], messages[j]]
        0 <= i && j == i + 1 && j < messages.len() ==> messages[i].role != messages[j].role
}

/// A conversation read from one of the supported tools; `timestamp` is in
/// milliseconds since the Unix epoch.
#[derive(Debug)]
pub struct Session {
    pub id: String,
    pub source: SessionSource,
    pub file_path: String,
    pub cwd: String,
    pub git_branch: Option<String>,
    pub timestamp: i64,
    pub messages: Vec<Message>,
}

/// The mathematical value of a [`Session`].
pub struct SessionModel {
    pub id: Seq<char>,
    pub source: SessionSource,
    pub file_path: Seq<char>,
    pub cwd: Seq<char>,
    pub git_branch: Option<Seq<char>>,
    pub timestamp: i64,
    pub messages: Seq<MessageModel>,
}

impl View for Session {
    type V = SessionModel;

    open spec fn view(&self) -> SessionModel {
        SessionModel {
            id: self.id@,
            source: self.source,
            file_path: self.file_path@,
            cwd: self.cwd@,
            git_branch: match self.git_branch {
                Some(b) => Some(b@),
                None => None,
            },
            timestamp: self.timestamp,
            messages: messages_model(self.messages@),
        }
    }
}

} // verus!
