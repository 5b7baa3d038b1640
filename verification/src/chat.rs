use crate::objects::{Player, PlayerView};
use vstd::prelude::*;

verus! {

/// How many messages the text form of a chat shows.
pub const RECENT_MESSAGES: usize = 5;

/// One chat message, with a copy of the player who sent it as that player was then.
#[derive(Debug)]
pub struct Message {
    sender: Player,
    message: String,
}

/// The mathematical value of a [`Message`].
pub struct MessageView {
    pub sender: PlayerView,
    pub message: Seq<char>,
}

impl MessageView {
    /// The message as one line of text: the sender's name, a colon, a space, the text.
    pub open spec fn line(self) -> Seq<char> {
        self.sender.name + seq![':', ' '] + self.message
    }
}

/// The last `n` items of `s` in their order, or all of `s` where it has fewer.
pub open spec fn tail<A>(s: Seq<A>, n: nat) -> Seq<A> {
    if n >= s.len() {
        s
    } else {
        s.subrange(s.len() - n, s.len() as int)
    }
}

/// `tail(s, n)` has `n` items, or as many as `s` where that is fewer, and they are the
/// last items of `s` in the order they have there.
pub proof fn lemma_tail<A>(s: Seq<A>, n: nat)
    ensures
        tail(s, n).len() == (if n <= s.len() {
            n
        } else {
            s.len()
        }),
        forall|i: int|
            0 <= i < tail(s, n).len() ==> #[trigger] tail(s, n)[i] == s[s.len() - tail(s, n).len()
                + i],
{
}

/// The lines of the given messages, each ended by a line feed, one after the other.
pub open spec fn lines(messages: Seq<MessageView>) -> Seq<char>
    decreases messages.len(),
{
    if messages.len() == 0 {
        Seq::empty()
    } else {
        lines(messages.drop_last()) + messages.last().line() + seq!['\n']
    }
}

/// The values of stored messages, in their order.
pub open spec fn messages_view(messages: Seq<Message>) -> Seq<MessageView> {
    Seq::new(messages.len(), |i: int| messages[i]@)
}

impl View for Message {
    type V = MessageView;

    closed spec fn view(&self) -> MessageView {
        MessageView { sender: self.sender@, message: self.message@ }
    }
}

impl Clone for Message {
    fn clone(&self) -> (copy: Message)
        ensures
            copy@ == self@,
    {
        Message { sender: self.sender.clone(), message: self.message.clone() }
    }
}

impl Message {
    /// A message with the given text, sent by `sender`.
    pub fn new(sender: Player, message: &str) -> (created: Message)
        ensures
            created@ == (MessageView { sender: sender@, message: message@ }),
    {
        Message { sender, message: message.to_owned() }
    }

    /// The player who sent the message.
    pub fn sender(&self) -> (sender: &Player)
        ensures
            sender@ == self@.sender,
    {
        &self.sender
    }

    /// The text of the message.
    pub fn text(&self) -> (text: &str)
        ensures
            text@ == self@.message,
    {
        self.message.as_str()
    }

    /// The message as one line of text: the sender's name, a colon, a space, the text.
    pub fn to_text(&self) -> (line: String)
        ensures
            line@ == self@.line(),
    {
        proof {
            reveal_strlit(": ");
        }
        let mut line = self.sender.name.clone();
        line.append(": ");
        line.append(self.message.as_str());
        assert(": "@ =~= seq![':', ' ']);
        line
    }
}

/// The chat log: every message posted, oldest first. Messages are only ever added.
#[derive(Debug)]
pub struct Chat {
    messages: Vec<Message>,
}

impl View for Chat {
    type V = Seq<MessageView>;

    closed spec fn view(&self) -> Seq<MessageView> {
        messages_view(self.messages@)
    }
}

impl Clone for Chat {
    fn clone(&self) -> (copy: Chat)
        ensures
            copy@ == self@,
    {
        let copy = Chat { messages: self.recent(self.messages.len()) };
        copy
    }
}

impl Chat {
    /// An empty log.
    pub fn new() -> (chat: Chat)
        ensures
            chat@ == Seq::<MessageView>::empty(),
    {
        let chat = Chat { messages: Vec::new() };
        assert(chat@ =~= Seq::<MessageView>::empty());
        chat
    }

    /// The log that holds the given messages, oldest first.
    pub fn from_messages(messages: Vec<Message>) -> (chat: Chat)
        ensures
            chat@ == messages_view(messages@),
    {
        Chat { messages }
    }

    /// Adds a message at the end of the log.
    pub fn add_new_message(&mut self, message: Message)
        ensures
            final(self)@ == old(self)@.push(message@),
    {
        self.messages.push(message);
        assert(self@ =~= old(self)@.push(message@));
    }

    /// The number of messages in the log.
    pub fn len(&self) -> (len: usize)
        ensures
            len == self@.len(),
    {
        self.messages.len()
    }

    /// All messages, oldest first.
    pub fn messages(&self) -> (messages: &Vec<Message>)
        ensures
            messages_view(messages@) == self@,
    {
        &self.messages
    }

    /// The last `n` messages, oldest first; the whole log where it holds fewer than `n`.
    pub fn recent(&self, n: usize) -> (recent: Vec<Message>)
        ensures
            messages_view(recent@) == tail(self@, n as nat),
            recent@.len() == (if n <= self@.len() {
                n as nat
            } else {
                self@.len()
            }),
    {
        let total = self.messages.len();
        let start = if n >= total { 0 } else { total - n };
        let mut recent: Vec<Message> = Vec::new();
        let mut i: usize = start;
        while i < total
            invariant
                start <= i <= total,
                total == self.messages@.len(),
                recent@.len() == i - start,
                forall|k: int| 0 <= k < i - start ==> (#[trigger] recent@[k])@ == self.messages@[start + k]@,
            decreases total - i,
        {
            recent.push(self.messages[i].clone());
            i += 1;
        }
        assert(messages_view(recent@) =~= tail(self@, n as nat));
        recent
    }

    /// The text form of the log: the lines of its last `RECENT_MESSAGES` messages, oldest
    /// first, each ended by a line feed.
    pub fn to_text(&self) -> (text: String)
        ensures
            text@ == lines(tail(self@, RECENT_MESSAGES as nat)),
    {
        proof {
            reveal_strlit("\n");
        }
        let recent = self.recent(RECENT_MESSAGES);
        let mut text = String::new();
        let mut i: usize = 0;
        while i < recent.len()
            invariant
                i <= recent@.len(),
                "\n"@ =~= seq!['\n'],
                text@ == lines(messages_view(recent@).take(i as int)),
            decreases recent.len() - i,
        {
            let line = recent[i].to_text();
            assert(messages_view(recent@).take(i + 1).drop_last() =~= messages_view(recent@).take(
                i as int,
            ));
            text.append(line.as_str());
            text.append("\n");
            i += 1;
        }
        assert(messages_view(recent@).take(recent@.len() as int) =~= messages_view(recent@));
        text
    }
}

} // verus!
