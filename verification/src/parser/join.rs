use vstd::prelude::*;

use crate::session::{
    joined_messages, message_separator, messages_model, roles_alternate, Message, MessageModel,
};

verus! {

/// Join consecutive messages from the same role into single messages.
/// Uses the latest timestamp when joining.
pub fn join_consecutive_messages(messages: Vec<Message>) -> (joined: Vec<Message>)
    ensures
        messages_model(joined@) == joined_messages(messages_model(messages@)),
{
    let mut acc: Vec<Message> = Vec::new();
    let n = messages.len();
    let mut i: usize = 0;
    while i < n
        invariant
            n == messages.len(),
            0 <= i <= n,
            messages_model(acc@) == joined_messages(messages_model(messages@).take(i as int)),
        decreases n - i,
    {
        let msg = &messages[i];
        let ghost prefix = messages_model(messages@).take(i as int);
        let ghost next = messages_model(messages@).take(i as int + 1);
        assert(next.drop_last() =~= prefix);
        assert(next.last() == msg@);
        let len = acc.len();
        if len > 0 && acc[len - 1].role == msg.role {
            let ghost before = messages_model(acc@);
            let mut last = acc.pop().unwrap();
            assert(last@ == before.last());
            proof {
                reveal_strlit("\n\n");
            }
            assert("\n\n"@ =~= message_separator());
            last.content.append("\n\n");
            last.content.append(msg.content.as_str());
            if msg.timestamp > last.timestamp {
                last.timestamp = msg.timestamp;
            }
            assert(messages_model(acc@) =~= before.drop_last());
            acc.push(last);
            assert(messages_model(acc@) =~= joined_messages(next));
        } else {
            acc.push(msg.duplicate());
            assert(messages_model(acc@) =~= joined_messages(next));
        }
        i += 1;
    }
    assert(messages_model(messages@).take(n as int) =~= messages_model(messages@));
    acc
}

/// Every message has some content.
pub open spec fn contents_nonempty(messages: Seq<MessageModel>) -> bool {
    forall|i: int| 0 <= i < messages.len() ==> #[trigger] messages[i].content.len() > 0
}

/// Joining messages that all have content gives messages that all have content.
pub proof fn lemma_joined_contents_nonempty(messages: Seq<MessageModel>)
    requires
        contents_nonempty(messages),
    ensures
        contents_nonempty(joined_messages(messages)),
    decreases messages.len(),
{
    if messages.len() > 0 {
        let prefix = messages.drop_last();
        assert(contents_nonempty(prefix)) by {
            assert forall|i: int| 0 <= i < prefix.len() implies #[trigger] prefix[i].content.len() > 0 by {
                assert(prefix[i] == messages[i]);
            }
        }
        lemma_joined_contents_nonempty(prefix);
        assert(messages[messages.len() - 1].content.len() > 0);
    }
}

/// After joining, no two neighbouring messages share a role.
pub proof fn lemma_joined_roles_alternate(messages: Seq<MessageModel>)
    ensures
        roles_alternate(joined_messages(messages)),
    decreases messages.len(),
{
    if messages.len() > 0 {
        lemma_joined_roles_alternate(messages.drop_last());
    }
}

/// Joining never lengthens a conversation, and keeps a non-empty one non-empty.
pub proof fn lemma_joined_length(messages: Seq<MessageModel>)
    ensures
        joined_messages(messages).len() <= messages.len(),
        messages.len() > 0 ==> joined_messages(messages).len() > 0,
    decreases messages.len(),
{
    if messages.len() > 0 {
        lemma_joined_length(messages.drop_last());
    }
}

/// A conversation whose roles already alternate is left unchanged by joining.
pub proof fn lemma_join_keeps_alternating(messages: Seq<MessageModel>)
    requires
        roles_alternate(messages),
    ensures
        joined_messages(messages) == messages,
    decreases messages.len(),
{
    if messages.len() > 0 {
        let prefix = messages.drop_last();
        assert(roles_alternate(prefix)) by {
            assert forall|i: int, j: int|
                #![trigger prefix[i], prefix[j]]
                0 <= i && j == i + 1 && j < prefix.len() implies prefix[i].role
                != prefix[j].role by {
                assert(messages[i] == prefix[i] && messages[j] == prefix[j]);
            }
        }
        lemma_join_keeps_alternating(prefix);
        if prefix.len() > 0 {
            let k = prefix.len() - 1;
            assert(messages[k].role != messages[k + 1].role);
        }
        assert(prefix.push(messages.last()) =~= messages);
    }
}

/// Joining twice gives the same messages as joining once.
pub proof fn lemma_join_idempotent(messages: Seq<MessageModel>)
    ensures
        joined_messages(joined_messages(messages)) == joined_messages(messages),
{
    lemma_joined_roles_alternate(messages);
    lemma_join_keeps_alternating(joined_messages(messages));
}

} // verus!
