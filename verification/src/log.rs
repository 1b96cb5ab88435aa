//! The injected logging collaborator.
//!
//! Every recoverable failure of a command is reported here, at error level,
//! and never escalated: the engine leaves the graph untouched and keeps
//! running. The host application owns the sink and decides what to do with
//! the recorded lines.

use vstd::prelude::*;

verus! {

/// An error sink that records every reported line, in order.
#[derive(Debug)]
pub struct ErrorLog {
    pub entries: Vec<String>,
}

impl View for ErrorLog {
    type V = Seq<Seq<char>>;

    open spec fn view(&self) -> Seq<Seq<char>> {
        Seq::new(self.entries@.len(), |i: int| self.entries@[i]@)
    }
}

impl ErrorLog {
    /// An empty log.
    pub fn new() -> (l: ErrorLog)
        ensures
            l@ == Seq::<Seq<char>>::empty(),
    {
        let l = ErrorLog { entries: Vec::new() };
        proof {
            assert(l@ =~= Seq::<Seq<char>>::empty());
        }
        l
    }

    /// Records one error line.
    pub fn error(&mut self, msg: String)
        ensures
            final(self)@ == old(self)@.push(msg@),
    {
        let ghost before = self@;
        self.entries.push(msg);
        proof {
            assert(self@ =~= before.push(msg@));
        }
    }

    /// How many lines have been recorded.
    pub fn len(&self) -> (n: usize)
        ensures
            n == self@.len(),
    {
        self.entries.len()
    }

    /// Reads one recorded line.
    pub fn entry(&self, i: usize) -> (line: &String)
        requires
            i < self@.len(),
        ensures
            line@ == self@[i as int],
    {
        &self.entries[i]
    }
}

} // verus!
