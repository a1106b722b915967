//! The countdown renderer: MM:SS frames written in place, one per second
//! remaining, ending on a 00:00 frame.

use vstd::prelude::*;
use vstd::string::*;
use crate::numerals::{dec_str, dec_string, digit_char};
use crate::terminal::{Terminal, TimerError};

verus! {

/// Zero-padded two-digit rendering of a value; wider values keep all digits.
pub open spec fn two_digits(v: int) -> Seq<char> {
    if v < 10 {
        seq!['0'] + dec_str(v)
    } else {
        dec_str(v)
    }
}

/// One countdown frame: a carriage return, the label, a space, and the
/// remaining time as MM:SS.
pub open spec fn frame_text(label: Seq<char>, s: int) -> Seq<char> {
    "\r"@ + label + " "@ + two_digits(s / 60) + ":"@ + two_digits(s % 60)
}

/// The frames a countdown from `n` seconds writes, first to last:
/// `n, n - 1, ..., 1, 0`.
pub open spec fn frames(label: Seq<char>, n: int) -> Seq<Seq<char>>
    decreases n,
{
    if n <= 0 {
        seq![frame_text(label, 0)]
    } else {
        seq![frame_text(label, n)] + frames(label, n - 1)
    }
}

pub proof fn lemma_frames_len(label: Seq<char>, n: int)
    requires
        n >= 0,
    ensures
        frames(label, n).len() == n + 1,
    decreases n,
{
    if n > 0 {
        lemma_frames_len(label, n - 1);
    }
}

pub proof fn lemma_frames_index(label: Seq<char>, n: int, k: int)
    requires
        0 <= k <= n,
    ensures
        frames(label, n)[k] == frame_text(label, n - k),
    decreases k,
{
    lemma_frames_len(label, n);
    if k > 0 {
        lemma_frames_len(label, n - 1);
        lemma_frames_index(label, n - 1, k - 1);
        assert(frames(label, n) == seq![frame_text(label, n)] + frames(label, n - 1));
        assert(frames(label, n)[k] == frames(label, n - 1)[k - 1]);
    } else {
        if n > 0 {
            assert(frames(label, n)[0] == frame_text(label, n));
        }
    }
}

fn two_digit_string(v: u16) -> (s: String)
    ensures
        s@ == two_digits(v as int),
{
    if v < 10 {
        let mut s = String::from_str("0");
        let d = dec_string(v);
        s.append(d.as_str());
        proof {
            reveal_strlit("0");
            assert("0"@ =~= seq!['0']);
        }
        s
    } else {
        dec_string(v)
    }
}

/// Render the frame for `s` seconds remaining under `label`.
pub fn render_frame(label: &str, s: u16) -> (t: String)
    ensures
        t@ == frame_text(label@, s as int),
{
    let mut t = String::from_str("\r");
    t.append(label);
    t.append(" ");
    let minutes = two_digit_string(s / 60);
    t.append(minutes.as_str());
    t.append(":");
    let rest = two_digit_string(s % 60);
    t.append(rest.as_str());
    t
}

/// Drive one countdown from `seconds` down to zero on `term`: one frame per
/// second remaining, each followed by a tick's delay, then the final 00:00
/// frame with no further delay. On success exactly the frame sequence has
/// been written; a failed write aborts the countdown after a prefix of it.
/// The input source is never touched.
pub fn countdown<C: Terminal>(label: &str, seconds: u16, term: &mut C) -> (r: Result<
    (),
    TimerError,
>)
    ensures
        r is Ok ==> final(term).written() == old(term).written() + frames(
            label@,
            seconds as int,
        ),
        r is Err ==> exists|k: int|
            0 <= k <= seconds && final(term).written() == old(term).written() + frames(
                label@,
                seconds as int,
            ).take(k),
        final(term).pending_lines() == old(term).pending_lines(),
{
    let ghost w0 = term.written();
    let ghost p0 = term.pending_lines();
    let ghost fs = frames(label@, seconds as int);
    proof {
        lemma_frames_len(label@, seconds as int);
        assert(fs.take(0) =~= Seq::<Seq<char>>::empty());
        assert(w0 + fs.take(0) =~= w0);
    }
    let mut sec: u16 = seconds;
    while sec > 0
        invariant
            sec <= seconds,
            fs == frames(label@, seconds as int),
            fs.len() == seconds + 1,
            w0 == old(term).written(),
            p0 == old(term).pending_lines(),
            term.written() == w0 + fs.take(seconds - sec),
            term.pending_lines() == p0,
        decreases sec,
    {
        let text = render_frame(label, sec);
        let ghost j: int = seconds - sec;
        match term.put(text.as_str()) {
            Result::Ok(()) => {},
            Result::Err(e) => {
                proof {
                    assert(0 <= j <= seconds && term.written() == w0 + fs.take(j));
                }
                return Result::Err(e);
            },
        }
        proof {
            lemma_frames_index(label@, seconds as int, j);
            assert(fs.take(j).push(fs[j]) =~= fs.take(j + 1));
            assert((w0 + fs.take(j)).push(text@) =~= w0 + fs.take(j + 1));
        }
        term.tick();
        sec = sec - 1;
    }
    let fin = render_frame(label, 0);
    let ghost j: int = seconds as int;
    match term.put(fin.as_str()) {
        Result::Ok(()) => {},
        Result::Err(e) => {
            proof {
                assert(0 <= j <= seconds && term.written() == w0 + fs.take(j));
            }
            return Result::Err(e);
        },
    }
    proof {
        lemma_frames_index(label@, seconds as int, j);
        assert(fs.take(j).push(fs[j]) =~= fs.take(j + 1));
        assert(fs.take(j + 1) =~= fs);
        assert((w0 + fs.take(j)).push(fin@) =~= w0 + fs);
    }
    Result::Ok(())
}

} // verus!
