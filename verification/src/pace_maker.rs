//! The pacing engine's decisions: how long the next wait between two
//! injections lasts — the configured pace exactly in fixed mode, a uniform
//! draw over [0, 2 x pace] in jittered mode, so the expected interval equals
//! the pace — and which corpus message the next tick publishes. The timer
//! and the queue send stand outside the library.
use crate::message::LoadError;
use crate::message::MailMessage;
use crate::message::parse_corpus;
use crate::message::spec_parsed;
use vstd::prelude::*;

verus! {

/// Relies on `rand::Rng::gen_range` over `rand::thread_rng`: a value drawn
/// uniformly from `[0, bound)`, never outside it. The draw panics only on an
/// empty range, which the precondition excludes.
#[verifier::external_body]
pub(crate) fn random_below(bound: u64) -> (r: u64)
    requires
        bound >= 1,
    ensures
        r < bound,
{
    rand::Rng::gen_range(&mut rand::thread_rng(), 0..bound)
}

/// The pacing engine: owns the loaded corpus and decides when and what to
/// inject next into the distribution queue.
pub struct PaceMaker {
    pub pace_millis: u64,
    pub fixed_pace: bool,
    pub messages: Vec<MailMessage>,
}

impl PaceMaker {
    pub fn new(pace_millis: u64, fixed_pace: bool) -> (r: Self)
        ensures
            r.pace_millis == pace_millis,
            r.fixed_pace == fixed_pace,
            r.messages@.len() == 0,
    {
        Self { pace_millis, fixed_pace, messages: Vec::new() }
    }

    /// Loads the corpus from the raw contents of every file of the mail
    /// directory. The load succeeds exactly when every file parses, and
    /// returns the corpus size; one bad file fails the whole load and
    /// leaves the corpus as it was.
    pub fn load_messages(&mut self, files: &Vec<Vec<u8>>) -> (r: Result<usize, LoadError>)
        ensures
            final(self).pace_millis == old(self).pace_millis,
            final(self).fixed_pace == old(self).fixed_pace,
            r matches Ok(n) ==> {
                &&& n == final(self).messages@.len()
                &&& final(self).messages@.len() == old(self).messages@.len() + files@.len()
                &&& forall|i: int|
                    0 <= i < files@.len() ==> (#[trigger] spec_parsed(files@[i]@)) is Some
                &&& forall|i: int|
                    0 <= i < old(self).messages@.len() ==> final(self).messages@[i] == old(
                        self,
                    ).messages@[i]
                &&& forall|i: int|
                    0 <= i < files@.len() ==> (#[trigger] final(self).messages@[old(
                        self,
                    ).messages@.len() + i]) == spec_parsed(files@[i]@)->0
                &&& forall|i: int|
                    0 <= i < files@.len() ==> (#[trigger] final(self).messages@[old(
                        self,
                    ).messages@.len() + i]).raw@ == files@[i]@
            },
            r matches Err(e) ==> {
                &&& *final(self) == *old(self)
                &&& e matches LoadError::Parse { file_index }
                &&& 0 <= file_index < files@.len()
                &&& spec_parsed(files@[file_index as int]@) is None
            },
            (forall|i: int| 0 <= i < files@.len() ==> (#[trigger] spec_parsed(files@[i]@)) is Some)
                ==> r is Ok,
    {
        match parse_corpus(files) {
            Ok(mut msgs) => {
                self.messages.append(&mut msgs);
                Ok(self.messages.len())
            },
            Err(e) => Err(e),
        }
    }

    /// The wait before the next injection, in milliseconds: the configured
    /// pace exactly in fixed mode; in jittered mode a random duration never
    /// above twice the pace (drawn uniformly, so its expected value is the
    /// pace itself). Only jittered mode doubles the pace, so only there must
    /// the doubled pace fit.
    pub fn next_wait_millis(&self) -> (w: u64)
        requires
            !self.fixed_pace ==> self.pace_millis <= 0x7fff_ffff_ffff_ffff,
        ensures
            self.fixed_pace ==> w == self.pace_millis,
            !self.fixed_pace ==> w <= 2 * self.pace_millis,
    {
        if self.fixed_pace {
            self.pace_millis
        } else {
            random_below(2 * self.pace_millis + 1)
        }
    }

    /// Picks one message uniformly at random from the corpus; nothing comes
    /// back exactly when the corpus is empty — a per-tick condition the
    /// caller reports without stopping.
    pub fn pick_message(&self) -> (r: Option<&MailMessage>)
        ensures
            match r {
                Some(m) => exists|i: int| 0 <= i < self.messages@.len() && *m == self.messages@[i],
                None => self.messages@.len() == 0,
            },
    {
        if self.messages.is_empty() {
            None
        } else {
            let i = random_below(self.messages.len() as u64) as usize;
            assert(*(&self.messages@[i as int]) == self.messages@[i as int]);
            Some(&self.messages[i])
        }
    }
}

} // verus!
