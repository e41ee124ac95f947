//! The earlier, always-jittered pacing variant: the pace is a whole number
//! of seconds and every wait is a uniform draw over [0, 2 x pace].
use crate::message::LoadError;
use crate::message::MailMessage;
use crate::message::parse_corpus;
use crate::message::spec_parsed;
use crate::pace_maker::random_below;
use vstd::prelude::*;

verus! {

/// The always-jittered pacing engine: owns the loaded corpus, waits a random
/// interval each tick, and picks the message the tick publishes.
pub struct PaceSetter {
    pub pace_seconds: u8,
    pub messages: Vec<MailMessage>,
}

impl PaceSetter {
    pub fn new(pace_seconds: u8) -> (r: Self)
        ensures
            r.pace_seconds == pace_seconds,
            r.messages@.len() == 0,
    {
        Self { pace_seconds, messages: Vec::new() }
    }

    /// Loads the corpus from the raw contents of every file of the mail
    /// directory: every file must parse, and one bad file fails the whole
    /// load, leaving the corpus as it was.
    pub fn load_messages(&mut self, files: &Vec<Vec<u8>>) -> (r: Result<usize, LoadError>)
        ensures
            final(self).pace_seconds == old(self).pace_seconds,
            r matches Ok(n) ==> {
                &&& n == final(self).messages@.len()
                &&& final(self).messages@.len() == old(self).messages@.len() + files@.len()
                &&& forall|i: int|
                    0 <= i < files@.len() ==> (#[trigger] spec_parsed(files@[i]@)) is Some
                &&& forall|i: int|
                    0 <= i < old(self).messages@.len() ==> final(self).messages@[i] == old(
                        self,
                    ).messages@[i]
                &&& forall|i: int|
                    0 <= i < files@.len() ==> (#[trigger] final(self).messages@[old(
                        self,
                    ).messages@.len() + i]) == spec_parsed(files@[i]@)->0
                &&& forall|i: int|
                    0 <= i < files@.len() ==> (#[trigger] final(self).messages@[old(
                        self,
                    ).messages@.len() + i]).raw@ == files@[i]@
            },
            r matches Err(e) ==> {
                &&& *final(self) == *old(self)
                &&& e matches LoadError::Parse { file_index }
                &&& 0 <= file_index < files@.len()
                &&& spec_parsed(files@[file_index as int]@) is None
            },
            (forall|i: int| 0 <= i < files@.len() ==> (#[trigger] spec_parsed(files@[i]@)) is Some)
                ==> r is Ok,
    {
        match parse_corpus(files) {
            Ok(mut msgs) => {
                self.messages.append(&mut msgs);
                Ok(self.messages.len())
            },
            Err(e) => Err(e),
        }
    }

    /// The wait before the next injection, in milliseconds: a random
    /// duration never above twice the pace, drawn uniformly so that its
    /// expected value is the pace itself.
    pub fn next_wait_millis(&self) -> (w: u64)
        ensures
            w <= 2000 * (self.pace_seconds as u64),
    {
        random_below(2000 * (self.pace_seconds as u64) + 1)
    }

    /// Picks one message uniformly at random from the corpus; nothing comes
    /// back exactly when the corpus is empty.
    pub fn pick_message(&self) -> (r: Option<&MailMessage>)
        ensures
            match r {
                Some(m) => exists|i: int| 0 <= i < self.messages@.len() && *m == self.messages@[i],
                None => self.messages@.len() == 0,
            },
    {
        if self.messages.is_empty() {
            None
        } else {
            let i = random_below(self.messages.len() as u64) as usize;
            assert(*(&self.messages@[i as int]) == self.messages@[i as int]);
            Some(&self.messages[i])
        }
    }
}

} // verus!
