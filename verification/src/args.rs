//! The argument parser: command-line tokens in, a validated
//! `(work_minutes, break_minutes)` pair or a descriptive error message out.

use vstd::prelude::*;
use vstd::string::*;
use crate::numerals::{dec_str, lemma_u16_of_dec_str, u16_of_str, parse_u16};

verus! {

/// Error text for a flag whose value token is missing.
pub open spec fn no_value_msg(flag: Seq<char>) -> Seq<char> {
    "no value for "@ + flag
}

/// Error text for a value that is not a non-negative integer.
pub open spec fn invalid_value_msg(flag: Seq<char>, value: Seq<char>) -> Seq<char> {
    "invalid value '"@ + value + "' for "@ + flag
}

/// Error text for an integer value above the 1080-minute bound.
pub open spec fn exceed_msg(flag: Seq<char>) -> Seq<char> {
    flag + " value cannot exceed 1080 minutes"@
}

/// Error text for a token that is not a recognized flag.
pub open spec fn unknown_flag_msg(flag: Seq<char>) -> Seq<char> {
    "unknown flag "@ + flag
}

/// Whether a token selects the work-minutes flag.
pub open spec fn is_work_flag(flag: Seq<char>) -> bool {
    flag == "-w"@ || flag == "--work"@
}

/// Whether a token selects the break-minutes flag.
pub open spec fn is_break_flag(flag: Seq<char>) -> bool {
    flag == "-b"@ || flag == "--break"@
}

/// What parsing one value token yields: the minutes on success, or the
/// exact error message.
pub open spec fn parse_value_spec(flag: Seq<char>, value: Seq<char>) -> Result<u16, Seq<char>> {
    match u16_of_str(value) {
        Option::None => Result::Err(invalid_value_msg(flag, value)),
        Option::Some(v) => if v <= 1080 {
            Result::Ok(v)
        } else {
            Result::Err(exceed_msg(flag))
        },
    }
}

/// What parsing the tokens from position `i` onward yields, with `work` and
/// `rest` the minutes gathered so far.
pub open spec fn parse_args_from(args: Seq<Seq<char>>, i: int, work: u16, rest: u16) -> Result<
    (u16, u16),
    Seq<char>,
>
    decreases args.len() - i,
{
    if i < 0 || i >= args.len() {
        Result::Ok((work, rest))
    } else {
        let flag = args[i];
        if is_work_flag(flag) || is_break_flag(flag) {
            if i + 1 >= args.len() {
                Result::Err(no_value_msg(flag))
            } else {
                match parse_value_spec(flag, args[i + 1]) {
                    Result::Ok(v) => if is_work_flag(flag) {
                        parse_args_from(args, i + 2, v, rest)
                    } else {
                        parse_args_from(args, i + 2, work, v)
                    },
                    Result::Err(m) => Result::Err(m),
                }
            }
        } else {
            Result::Err(unknown_flag_msg(flag))
        }
    }
}

/// What parsing a whole token sequence yields, starting from the default
/// configuration of 60 work minutes and 10 break minutes.
pub open spec fn parse_args_spec(args: Seq<Seq<char>>) -> Result<(u16, u16), Seq<char>> {
    parse_args_from(args, 0, 60, 10)
}

/// Parse one flag's value token into minutes, enforcing the 1080-minute bound.
pub fn parse_value(flag: &str, value: &str) -> (r: Result<u16, String>)
    ensures
        r is Ok ==> parse_value_spec(flag@, value@) == Result::<u16, Seq<char>>::Ok(r->Ok_0)
            && r->Ok_0 <= 1080,
        r is Err ==> parse_value_spec(flag@, value@) == Result::<u16, Seq<char>>::Err(r->Err_0@),
{
    match parse_u16(value) {
        Option::Some(v) => {
            if v <= 1080 {
                Result::Ok(v)
            } else {
                let mut m = String::from_str(flag);
                m.append(" value cannot exceed 1080 minutes");
                Result::Err(m)
            }
        },
        Option::None => {
            let mut m = String::from_str("invalid value '");
            m.append(value);
            m.append("' for ");
            m.append(flag);
            Result::Err(m)
        },
    }
}

/// Parse the command-line tokens (program name already excluded) into the
/// `(work_minutes, break_minutes)` pair, defaulting any flag not supplied
/// to 60 and 10 respectively. Each malformed input yields its exact error
/// message, and both returned values lie within the 1080-minute bound.
pub fn parse_args(args: &Vec<String>) -> (r: Result<(u16, u16), String>)
    ensures
        r is Ok ==> parse_args_spec(args.deep_view()) == Result::<(u16, u16), Seq<char>>::Ok(
            r->Ok_0,
        ) && r->Ok_0.0 <= 1080 && r->Ok_0.1 <= 1080,
        r is Err ==> parse_args_spec(args.deep_view()) == Result::<(u16, u16), Seq<char>>::Err(
            r->Err_0@,
        ),
{
    let w_short = String::from_str("-w");
    let w_long = String::from_str("--work");
    let b_short = String::from_str("-b");
    let b_long = String::from_str("--break");
    let ghost av = args.deep_view();
    let mut work: u16 = 60;
    let mut rest: u16 = 10;
    let mut i: usize = 0;
    while i < args.len()
        invariant
            av == args.deep_view(),
            av.len() == args@.len(),
            i <= args@.len(),
            work <= 1080,
            rest <= 1080,
            parse_args_from(av, i as int, work, rest) == parse_args_spec(av),
            w_short@ == "-w"@,
            w_long@ == "--work"@,
            b_short@ == "-b"@,
            b_long@ == "--break"@,
        decreases args@.len() - i,
    {
        let flag: &String = &args[i];
        proof {
            assert(av[i as int] == flag@);
        }
        let is_work: bool = *flag == w_short || *flag == w_long;
        let is_rest: bool = *flag == b_short || *flag == b_long;
        if is_work || is_rest {
            if i + 1 >= args.len() {
                let mut m = String::from_str("no value for ");
                m.append(flag.as_str());
                return Result::Err(m);
            }
            let value: &String = &args[i + 1];
            proof {
                assert(av[i + 1] == value@);
            }
            match parse_value(flag.as_str(), value.as_str()) {
                Result::Ok(v) => {
                    if is_work {
                        work = v;
                    } else {
                        rest = v;
                    }
                    i = i + 2;
                },
                Result::Err(m) => {
                    return Result::Err(m);
                },
            }
        } else {
            let mut m = String::from_str("unknown flag ");
            m.append(flag.as_str());
            return Result::Err(m);
        }
    }
    Result::Ok((work, rest))
}

/// Round trip: for any minutes value within the bound, parsing `-w` followed
/// by that value's decimal rendering yields exactly that work length together
/// with the default break length.
pub proof fn lemma_parse_work_roundtrip(m: u16)
    requires
        m <= 1080,
    ensures
        parse_args_spec(seq!["-w"@, dec_str(m as int)]) == Result::<(u16, u16), Seq<char>>::Ok(
            (m, 10),
        ),
{
    lemma_u16_of_dec_str(m);
    let args = seq!["-w"@, dec_str(m as int)];
    assert(args[0] == "-w"@);
    assert(is_work_flag(args[0]));
    assert(parse_value_spec(args[0], args[1]) == Result::<u16, Seq<char>>::Ok(m));
    assert(parse_args_from(args, 2, m, 10) == Result::<(u16, u16), Seq<char>>::Ok((m, 10)));
}

} // verus!
