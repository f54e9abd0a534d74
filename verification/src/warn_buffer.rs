//! Warnings from before there is a log: they are kept, and said once there is one.

use vstd::prelude::*;

use crate::text::views;

verus! {

/// How grave an event is.
#[derive(Debug, Clone, Copy, PartialEq, Eq, Structural)]
pub enum LogLevel {
    Error,
    Warn,
    Info,
    Debug,
    Trace,
}

/// The warnings that have been kept. How to log is read from the configuration,
/// so what is said while that is read has to wait. An error ends the program
/// there and then, and nothing below a warning matters so early.
pub struct BufferLayer {
    warnings: Vec<String>,
}

impl View for BufferLayer {
    type V = Seq<Seq<char>>;

    /// The warnings, in the order in which they came.
    closed spec fn view(&self) -> Seq<Seq<char>> {
        views(self.warnings@)
    }
}

impl Default for BufferLayer {
    fn default() -> (out: Self)
        ensures
            out@ == Seq::<Seq<char>>::empty(),
    {
        let out = BufferLayer { warnings: Vec::new() };
        assert(out@ =~= Seq::<Seq<char>>::empty());
        out
    }
}

impl BufferLayer {
    /// Keeps the message of an event, if it is a warning.
    pub fn on_event(&mut self, level: LogLevel, message: String)
        ensures
            final(self)@ == if level == LogLevel::Warn {
                old(self)@.push(message@)
            } else {
                old(self)@
            },
    {
        if level != LogLevel::Warn {
            return;
        }
        let ghost kept = self@;
        self.warnings.push(message);
        assert(self@ =~= kept.push(message@));
    }

    /// Hands out every warning, to be said now, and keeps none.
    pub fn replay(&mut self) -> (out: Vec<String>)
        ensures
            views(out@) == old(self)@,
            final(self)@ == Seq::<Seq<char>>::empty(),
    {
        let mut out: Vec<String> = Vec::new();
        std::mem::swap(&mut out, &mut self.warnings);
        assert(self@ =~= Seq::<Seq<char>>::empty());
        out
    }
}

} // verus!
