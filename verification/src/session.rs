//! The session loop: an unbounded alternating cycle of work and break
//! phases, each ending in an alarm and a continue-or-quit gate.

use vstd::prelude::*;
use vstd::string::*;
use crate::render::{countdown, frames, lemma_frames_len};
use crate::terminal::{Terminal, TimerError};

verus! {

/// One timed segment of the session.
#[derive(Clone, Copy, Debug, PartialEq, Eq, Structural)]
pub enum Phase {
    Work,
    Break,
}

/// What the continue-or-quit gate decides from one input line.
#[derive(Clone, Copy, Debug, PartialEq, Eq, Structural)]
pub enum GateDecision {
    Continue,
    Quit,
}

/// The display label of the work phase.
pub open spec fn work_label() -> Seq<char> {
    "\x1b[32m [Work] \x1b[0m"@
}

/// The display label of the break phase.
pub open spec fn break_label() -> Seq<char> {
    "\x1b[34m [Break] \x1b[0m"@
}

/// The display label of a phase.
pub open spec fn phase_label(p: Phase) -> Seq<char> {
    match p {
        Phase::Work => work_label(),
        Phase::Break => break_label(),
    }
}

/// The phase that follows `p` in the alternating cycle.
pub open spec fn next_phase_spec(p: Phase) -> Phase {
    match p {
        Phase::Work => Phase::Break,
        Phase::Break => Phase::Work,
    }
}

/// The phase at position `i` of a session: work first, then strictly
/// alternating.
pub open spec fn phase_at(i: int) -> Phase {
    if i % 2 == 0 {
        Phase::Work
    } else {
        Phase::Break
    }
}

/// The duration in seconds of a phase.
pub open spec fn phase_seconds(p: Phase, work_secs: int, break_secs: int) -> int {
    match p {
        Phase::Work => work_secs,
        Phase::Break => break_secs,
    }
}

/// The phase sequence alternates: after each phase comes the other kind.
pub proof fn lemma_phases_alternate(i: int)
    ensures
        phase_at(i + 1) == next_phase_spec(phase_at(i)),
{
}

/// The prompt shown at each phase boundary.
pub open spec fn prompt_text() -> Seq<char> {
    "\r \x1b[1m Enter\x1b[0m to continue (\x1b[1mq\x1b[0m to quit): "@
}

/// The control sequence that erases the prompt line before the next phase.
pub open spec fn clear_text() -> Seq<char> {
    "\x1b[1A\x1b[2K"@
}

/// `s` with all trailing carriage-return and newline characters removed.
pub open spec fn trim_crlf(s: Seq<char>) -> Seq<char>
    decreases s.len(),
{
    if s.len() > 0 && (s.last() == '\n' || s.last() == '\r') {
        trim_crlf(s.drop_last())
    } else {
        s
    }
}

/// Whether an input line asks to quit: after trimming trailing newline and
/// carriage-return characters it is exactly `q`.
pub open spec fn quit_line(line: Seq<char>) -> bool {
    trim_crlf(line) == seq!['q']
}

/// Whether an input line stops the session: an explicit quit line, or the
/// empty line that an exhausted input source yields.
pub open spec fn stop_line(line: Seq<char>) -> bool {
    quit_line(line) || line.len() == 0
}

/// Everything one phase writes up to and including its prompt: the countdown
/// frames of phase `i`, then the continue-or-quit prompt.
pub open spec fn phase_writes(work_secs: int, break_secs: int, i: int) -> Seq<Seq<char>> {
    frames(phase_label(phase_at(i)), phase_seconds(phase_at(i), work_secs, break_secs)).push(
        prompt_text(),
    )
}

/// Everything the first `n` phases write when each ends in a continue
/// decision: each phase's frames and prompt, then the prompt-clearing
/// control sequence.
pub open spec fn continued_writes(work_secs: int, break_secs: int, n: int) -> Seq<Seq<char>>
    decreases n,
{
    if n <= 0 {
        Seq::empty()
    } else {
        continued_writes(work_secs, break_secs, n - 1) + phase_writes(
            work_secs,
            break_secs,
            n - 1,
        ).push(clear_text())
    }
}

/// Every one of the first `k` input lines reads as a continue decision.
pub open spec fn continue_lines(lines: Seq<Seq<char>>, k: int) -> bool {
    forall|i: int| 0 <= i < k ==> !stop_line(#[trigger] lines[i])
}

/// The session stopped cleanly after `k` continue decisions, having started
/// with writes `w0` and input lines `lines` and ended with writes `w1` and
/// input lines `p1`: the first `k` lines read Continue; then either line `k`
/// asked to stop, or the input was exhausted after all its lines read
/// Continue; exactly the consumed lines are gone; and exactly the traces of
/// `k + 1` phases were written, the last one without a prompt-clearing
/// sequence.
pub open spec fn clean_stop(
    work_secs: int,
    break_secs: int,
    w0: Seq<Seq<char>>,
    lines: Seq<Seq<char>>,
    w1: Seq<Seq<char>>,
    p1: Seq<Seq<char>>,
    k: int,
) -> bool {
    &&& 0 <= k <= lines.len()
    &&& continue_lines(lines, k)
    &&& (k < lines.len() ==> stop_line(lines[k]) && p1 == lines.skip(k + 1))
    &&& (k == lines.len() ==> p1 == lines.skip(k))
    &&& w1 == w0 + continued_writes(work_secs, break_secs, k) + phase_writes(
        work_secs,
        break_secs,
        k,
    )
}

/// The alarm capability: a single fallible, no-argument operation, invoked
/// once per completed phase. `alarm_result` is what invoking it yields:
/// success, or the text of the error it reports.
pub trait Notifier {
    /// What sounding the alarm yields. An implementation whose outcome is
    /// observable overrides this with its own model.
    open spec fn alarm_result(&self) -> Result<(), Seq<char>> {
        Result::Ok(())
    }

    /// Sound the alarm now.
    fn run(&self) -> (r: Result<(), TimerError>)
        ensures
            r is Ok <==> self.alarm_result() is Ok,
            r is Err ==> r->Err_0@ == self.alarm_result()->Err_0;
}

/// The phase that follows `p` in the alternating cycle.
pub fn next_phase(p: Phase) -> (q: Phase)
    ensures
        q == next_phase_spec(p),
{
    match p {
        Phase::Work => Phase::Break,
        Phase::Break => Phase::Work,
    }
}

/// Decide from one input line whether the session proceeds or stops: after
/// trimming trailing newline and carriage-return characters, exactly the
/// line `q` quits; anything else continues.
pub fn gate_decision(line: &str) -> (d: GateDecision)
    ensures
        d == (if quit_line(line@) {
            GateDecision::Quit
        } else {
            GateDecision::Continue
        }),
{
    let n = line.unicode_len();
    let mut end: usize = n;
    proof {
        assert(line@.take(n as int) =~= line@);
    }
    loop
        invariant_except_break
            end <= n,
            n == line@.len(),
            trim_crlf(line@) == trim_crlf(line@.take(end as int)),
        ensures
            end <= n,
            n == line@.len(),
            trim_crlf(line@) == line@.take(end as int),
        decreases end,
    {
        if end == 0 {
            proof {
                assert(line@.take(0) =~= Seq::<char>::empty());
            }
            break;
        }
        let c = line.get_char(end - 1);
        proof {
            assert(line@.take(end as int).last() == line@[end - 1]);
        }
        if c != '\n' && c != '\r' {
            break;
        }
        proof {
            assert(line@.take(end as int).drop_last() =~= line@.take(end - 1));
        }
        end = end - 1;
    }
    if end == 1 {
        let c0 = line.get_char(0);
        proof {
            assert(line@.take(1) =~= seq![line@[0]]);
        }
        if c0 == 'q' {
            return GateDecision::Quit;
        }
    }
    GateDecision::Continue
}

/// Cycle work and break phases on `term`, starting with work: each phase
/// counts down, sounds `alarm`, writes the prompt, and reads one line; a
/// quit line or an exhausted input source ends the session cleanly, any
/// other line erases the prompt and starts the next phase. On success the
/// session consumed exactly the input lines up to and including the first
/// stopping one and wrote exactly the phase traces; on an error only
/// continue lines were consumed; an alarm error aborts the session before
/// the prompt is written and before any input line is consumed.
pub fn run<N: Notifier, C: Terminal>(work: u16, brk: u16, alarm: &N, term: &mut C) -> (r: Result<
    (),
    TimerError,
>)
    requires
        work <= 1080,
        brk <= 1080,
    ensures
        r is Ok ==> exists|k: int|
            #[trigger] clean_stop(
                work * 60,
                brk * 60,
                old(term).written(),
                old(term).pending_lines(),
                final(term).written(),
                final(term).pending_lines(),
                k,
            ),
        r is Err ==> exists|k: int|
            0 <= k <= old(term).pending_lines().len() && final(term).pending_lines() == old(
                term,
            ).pending_lines().skip(k) && #[trigger] continue_lines(old(term).pending_lines(), k),
        alarm.alarm_result() is Err ==> r is Err && final(term).pending_lines() == old(
            term,
        ).pending_lines() && exists|k: int|
            0 <= k <= work * 60 + 1 && final(term).written() == old(term).written() + #[trigger] frames(
                work_label(),
                work * 60,
            ).take(k),
{
    let work_secs: u16 = work * 60;
    let break_secs: u16 = brk * 60;
    let ghost w0 = term.written();
    let ghost p0 = term.pending_lines();
    let ghost ws: int = work_secs as int;
    let ghost bs: int = break_secs as int;
    let mut phase = Phase::Work;
    let ghost mut j: int = 0;
    proof {
        assert(continued_writes(ws, bs, 0) =~= Seq::<Seq<char>>::empty());
        assert(w0 + continued_writes(ws, bs, 0) =~= w0);
        assert(p0.skip(0) =~= p0);
    }
    loop
        invariant
            work <= 1080,
            brk <= 1080,
            ws == work * 60,
            bs == brk * 60,
            work_secs == ws,
            break_secs == bs,
            w0 == old(term).written(),
            p0 == old(term).pending_lines(),
            0 <= j <= p0.len(),
            phase == phase_at(j),
            term.written() == w0 + continued_writes(ws, bs, j),
            term.pending_lines() == p0.skip(j),
            continue_lines(p0, j),
            j > 0 ==> alarm.alarm_result() is Ok,
        decreases term.pending_lines().len(),
    {
        let label: &str = match phase {
            Phase::Work => "\x1b[32m [Work] \x1b[0m",
            Phase::Break => "\x1b[34m [Break] \x1b[0m",
        };
        let secs: u16 = match phase {
            Phase::Work => work_secs,
            Phase::Break => break_secs,
        };
        proof {
            assert(label@ == phase_label(phase));
            assert(secs as int == phase_seconds(phase, ws, bs));
        }
        match countdown(label, secs, term) {
            Result::Ok(()) => {},
            Result::Err(e) => {
                proof {
                    if alarm.alarm_result() is Err {
                        assert(j == 0);
                        assert(term.pending_lines() == p0);
                        let k0 = choose|k: int|
                            0 <= k <= secs && term.written() == (w0 + continued_writes(ws, bs, 0))
                                + frames(label@, secs as int).take(k);
                        assert(w0 + continued_writes(ws, bs, 0) == w0);
                        assert(term.written() == w0 + frames(work_label(), ws).take(k0));
                        assert(0 <= k0 <= work * 60 + 1);
                    }
                }
                return Result::Err(e);
            },
        }
        match alarm.run() {
            Result::Ok(()) => {},
            Result::Err(e) => {
                proof {
                    assert(j == 0);
                    assert(term.pending_lines() == p0);
                    lemma_frames_len(work_label(), ws);
                    assert(w0 + continued_writes(ws, bs, 0) == w0);
                    assert(frames(work_label(), ws).take(ws + 1) =~= frames(work_label(), ws));
                    assert(term.written() == w0 + frames(work_label(), ws).take(ws + 1));
                }
                return Result::Err(e);
            },
        }
        match term.put("\r \x1b[1m Enter\x1b[0m to continue (\x1b[1mq\x1b[0m to quit): ") {
            Result::Ok(()) => {},
            Result::Err(e) => {
                return Result::Err(e);
            },
        }
        proof {
            assert((w0 + continued_writes(ws, bs, j) + frames(
                phase_label(phase_at(j)),
                phase_seconds(phase_at(j), ws, bs),
            )).push(prompt_text()) =~= w0 + continued_writes(ws, bs, j) + phase_writes(ws, bs, j));
        }
        let line = match term.read_line() {
            Result::Ok(l) => l,
            Result::Err(e) => {
                return Result::Err(e);
            },
        };
        proof {
            if j < p0.len() {
                assert(p0.skip(j)[0] == p0[j]);
                assert(p0.skip(j).drop_first() =~= p0.skip(j + 1));
            } else {
                assert(line@ == Seq::<char>::empty());
            }
        }
        if line.as_str().is_empty() {
            proof {
                assert(clean_stop(ws, bs, w0, p0, term.written(), term.pending_lines(), j));
            }
            return Result::Ok(());
        }
        let d = gate_decision(line.as_str());
        if d == GateDecision::Quit {
            proof {
                assert(j < p0.len());
                assert(line@ == p0[j]);
                assert(clean_stop(ws, bs, w0, p0, term.written(), term.pending_lines(), j));
            }
            return Result::Ok(());
        }
        match term.put("\x1b[1A\x1b[2K") {
            Result::Ok(()) => {},
            Result::Err(e) => {
                proof {
                    assert(j < p0.len());
                    assert(!stop_line(p0[j]));
                    assert(continue_lines(p0, j + 1));
                    assert(term.pending_lines() == p0.skip(j + 1));
                }
                return Result::Err(e);
            },
        }
        phase = next_phase(phase);
        proof {
            assert((w0 + continued_writes(ws, bs, j) + phase_writes(ws, bs, j)).push(clear_text())
                =~= w0 + (continued_writes(ws, bs, j) + phase_writes(ws, bs, j).push(
                clear_text(),
            )));
            assert(continued_writes(ws, bs, j + 1) == continued_writes(ws, bs, j) + phase_writes(
                ws,
                bs,
                j,
            ).push(clear_text()));
            lemma_phases_alternate(j);
            assert(j < p0.len());
            assert(!stop_line(p0[j]));
            assert(continue_lines(p0, j + 1));
            j = j + 1;
        }
    }
}

} // verus!
