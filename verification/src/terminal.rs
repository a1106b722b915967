//! The terminal capability the session core is injected with: in-place text
//! writes, the per-tick delay, and one line of user input per phase boundary.
//! A scripted terminal with a fixed input script is provided for exercising
//! the core without any real input or output.

use vstd::prelude::*;
use vstd::string::*;

verus! {

/// A runtime fault: it aborts the session and its message reaches the caller.
#[derive(Debug)]
pub struct TimerError {
    pub message: String,
}

impl View for TimerError {
    type V = Seq<char>;

    open spec fn view(&self) -> Seq<char> {
        self.message@
    }
}

impl TimerError {
    /// A fault carrying `message`.
    pub fn new(message: &str) -> (e: TimerError)
        ensures
            e@ == message@,
    {
        TimerError { message: String::from_str(message) }
    }
}

/// The terminal a session talks to.
///
/// `written` models the log of texts written so far; `pending_lines` the
/// input lines not yet read, each as the source hands it over, trailing
/// newline included.
pub trait Terminal {
    /// The texts written so far, in order. An implementation whose output
    /// is observable overrides this with its own model.
    open spec fn written(&self) -> Seq<Seq<char>> {
        Seq::empty()
    }

    /// The input lines not yet read, next line first. An implementation
    /// whose input is observable overrides this with its own model.
    open spec fn pending_lines(&self) -> Seq<Seq<char>> {
        Seq::empty()
    }

    /// Write `text` in place and make it visible at once.
    fn put(&mut self, text: &str) -> (r: Result<(), TimerError>)
        ensures
            r is Ok ==> final(self).written() == old(self).written().push(text@),
            r is Err ==> final(self).written() == old(self).written(),
            final(self).pending_lines() == old(self).pending_lines();

    /// Let one tick's delay pass.
    fn tick(&mut self)
        ensures
            final(self).written() == old(self).written(),
            final(self).pending_lines() == old(self).pending_lines();

    /// Read one input line; an exhausted input source yields the empty line.
    fn read_line(&mut self) -> (r: Result<String, TimerError>)
        ensures
            final(self).written() == old(self).written(),
            r is Ok && old(self).pending_lines().len() > 0 ==> r->Ok_0@ == old(
                self,
            ).pending_lines()[0] && final(self).pending_lines() == old(
                self,
            ).pending_lines().drop_first(),
            r is Ok && old(self).pending_lines().len() == 0 ==> r->Ok_0@ == Seq::<char>::empty()
                && final(self).pending_lines() == old(self).pending_lines(),
            r is Err ==> final(self).pending_lines() == old(self).pending_lines();
}

/// A terminal driven by a fixed script of input lines, keeping a log of
/// everything written. Its writes and reads never fail.
pub struct ScriptedTerminal {
    /// The input lines not yet read, the next one first.
    pub lines: Vec<String>,
    /// Everything written so far, in order.
    pub log: Vec<String>,
}

impl ScriptedTerminal {
    /// A terminal that will serve `lines` and has written nothing yet.
    pub fn new(lines: Vec<String>) -> (t: ScriptedTerminal)
        ensures
            t.pending_lines() == lines.deep_view(),
            t.written() == Seq::<Seq<char>>::empty(),
    {
        let t = ScriptedTerminal { lines, log: Vec::new() };
        proof {
            assert(t.log.deep_view() =~= Seq::<Seq<char>>::empty());
        }
        t
    }
}

impl Terminal for ScriptedTerminal {
    open spec fn written(&self) -> Seq<Seq<char>> {
        self.log.deep_view()
    }

    open spec fn pending_lines(&self) -> Seq<Seq<char>> {
        self.lines.deep_view()
    }

    fn put(&mut self, text: &str) -> (r: Result<(), TimerError>)
        ensures
            r is Ok,
    {
        self.log.push(String::from_str(text));
        proof {
            assert(self.log.deep_view() =~= old(self).log.deep_view().push(text@));
        }
        Result::Ok(())
    }

    fn tick(&mut self)
    {
    }

    fn read_line(&mut self) -> (r: Result<String, TimerError>)
        ensures
            r is Ok,
    {
        if self.lines.len() > 0 {
            let line = self.lines.remove(0);
            proof {
                assert(self.lines.deep_view() =~= old(self).lines.deep_view().drop_first());
            }
            Result::Ok(line)
        } else {
            Result::Ok(String::new())
        }
    }
}

} // verus!
