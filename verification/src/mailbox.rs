//! A mail sender that delivers nothing and keeps every message it is asked
//! to send, in order, so that the messages can be read back.

use vstd::prelude::*;

verus! {

/// One message as the recorder sees it: recipient, subject and body.
pub type Message = (String, String, String);

/// The characters of one recorded message.
pub open spec fn message_view(m: Message) -> (Seq<char>, Seq<char>, Seq<char>) {
    (m.0@, m.1@, m.2@)
}

/// Keeps each message handed to `send`.
pub struct RecordingSender {
    pub sent: Vec<Message>,
}

impl RecordingSender {
    /// The recorded messages, oldest first.
    pub open spec fn messages(&self) -> Seq<(Seq<char>, Seq<char>, Seq<char>)> {
        self.sent@.map_values(|m: Message| message_view(m))
    }

    /// A recorder that has seen no message.
    pub fn new() -> (r: Self)
        ensures
            r.messages() == Seq::<(Seq<char>, Seq<char>, Seq<char>)>::empty(),
    {
        let r = RecordingSender { sent: Vec::new() };
        assert(r.messages() =~= Seq::<(Seq<char>, Seq<char>, Seq<char>)>::empty());
        r
    }

    /// Records a message to `to`; recording never fails.
    pub fn send(&mut self, to: &str, subject: &str, body: &str)
        ensures
            final(self).messages() == old(self).messages().push((to@, subject@, body@)),
    {
        let m: Message = (to.to_owned(), subject.to_owned(), body.to_owned());
        self.sent.push(m);
        assert(self.messages() =~= old(self).messages().push((to@, subject@, body@)));
    }

    /// A copy of the recorded messages, oldest first.
    pub fn emails(&self) -> (r: Vec<Message>)
        ensures
            r@.map_values(|m: Message| message_view(m)) == self.messages(),
    {
        let mut r: Vec<Message> = Vec::new();
        for i in 0..self.sent.len()
            invariant
                r@.map_values(|m: Message| message_view(m)) == self.messages().take(i as int),
        {
            let m = &self.sent[i];
            let copy: Message = (m.0.clone(), m.1.clone(), m.2.clone());
            let ghost before = r@.map_values(|m: Message| message_view(m));
            r.push(copy);
            assert(r@.map_values(|m: Message| message_view(m)) =~= before.push(message_view(self.sent@[i as int])));
            assert(self.messages().take(i + 1) =~= self.messages().take(i as int).push(message_view(self.sent@[i as int])));
        }
        assert(self.messages().take(self.sent.len() as int) =~= self.messages());
        r
    }
}

impl Default for RecordingSender {
    fn default() -> (r: Self)
        ensures
            r.messages() == Seq::<(Seq<char>, Seq<char>, Seq<char>)>::empty(),
    {
        RecordingSender::new()
    }
}

} // verus!
