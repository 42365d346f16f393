//! The command line: what to do, and the version line.

use vstd::prelude::*;

use crate::errors::AppError;
use crate::text::{concat, owned, push_char, str_eq};

verus! {

broadcast use vstd::std_specs::vec::group_vec_axioms;

/// What the program is asked to do.
#[derive(Debug, Clone, Copy, PartialEq, Eq, Structural)]
pub enum CliAction {
    Run,
    PrintHelp,
    PrintVersion,
}

/// The options of the command line.
#[derive(Debug, Clone, PartialEq, Eq)]
pub struct CliOptions {
    pub action: CliAction,
    pub debug_log_path: Option<String>,
    pub disable_clipboard: bool,
}

/// The options read from the arguments from position `i` on, given those
/// read so far; or the message of the first error: a `--debug-log` without
/// a value, or an unknown argument. A later help or version flag overrides
/// an earlier one, a later `--debug-log` value an earlier one.
pub open spec fn parse_from(
    args: Seq<Seq<char>>,
    i: int,
    action: CliAction,
    path: Option<Seq<char>>,
    clip: bool,
) -> Result<(CliAction, Option<Seq<char>>, bool), Seq<char>>
    decreases args.len() - i,
{
    if i >= args.len() || i < 0 {
        Ok((action, path, clip))
    } else {
        let a = args[i];
        if a == "-h"@ || a == "--help"@ {
            parse_from(args, i + 1, CliAction::PrintHelp, path, clip)
        } else if a == "-v"@ || a == "--version"@ {
            parse_from(args, i + 1, CliAction::PrintVersion, path, clip)
        } else if a == "--no-clipboard"@ {
            parse_from(args, i + 1, action, path, true)
        } else if a == "--debug-log"@ {
            if i + 1 >= args.len() {
                Err("missing value for --debug-log"@)
            } else {
                parse_from(args, i + 2, action, Some(args[i + 1]), clip)
            }
        } else {
            Err("unknown argument: "@ + a)
        }
    }
}

/// The views of the arguments.
pub open spec fn arg_views(args: Seq<String>) -> Seq<Seq<char>> {
    args.map_values(|a: String| a@)
}

/// Reads the command line; the first argument is the program's name.
pub fn parse_cli_args(args: Vec<String>) -> (r: Result<CliOptions, AppError>)
    ensures
        match parse_from(arg_views(args@), 1, CliAction::Run, None, false) {
            Ok(o) => r matches Ok(opts) && opts.action == o.0 && opts.disable_clipboard == o.2 && match o.1 {
                None => opts.debug_log_path is None,
                Some(p) => opts.debug_log_path matches Some(q) && q@ == p,
            },
            Err(m) => r matches Err(AppError::Config(s)) && s@ == m,
        },
{
    let ghost views = arg_views(args@);
    let n = args.len();
    let mut action = CliAction::Run;
    let mut path: Option<String> = None;
    let mut clip = false;
    let mut i: usize = 1;
    while i < n
        invariant
            1 <= i,
            n == args@.len(),
            views == arg_views(args@),
            parse_from(views, 1, CliAction::Run, None, false) == parse_from(
                views,
                i as int,
                action,
                match path {
                    None => None,
                    Some(p) => Some(p@),
                },
                clip,
            ),
        decreases n - i,
    {
        let a = args[i].as_str();
        proof {
            assert(views[i as int] == a@);
        }
        if str_eq(a, "-h") || str_eq(a, "--help") {
            action = CliAction::PrintHelp;
            i = i + 1;
        } else if str_eq(a, "-v") || str_eq(a, "--version") {
            action = CliAction::PrintVersion;
            i = i + 1;
        } else if str_eq(a, "--no-clipboard") {
            clip = true;
            i = i + 1;
        } else if str_eq(a, "--debug-log") {
            if i + 1 >= n {
                return Err(AppError::Config(owned("missing value for --debug-log")));
            }
            proof {
                assert(views[i + 1] == args@[i + 1]@);
            }
            path = Some(owned(args[i + 1].as_str()));
            i = i + 2;
        } else {
            return Err(AppError::Config(concat("unknown argument: ", a)));
        }
    }
    proof {
        assert(parse_from(views, i as int, action, match path {
            None => None,
            Some(p) => Some(p@),
        }, clip) == Ok::<(CliAction, Option<Seq<char>>, bool), Seq<char>>((action, match path {
            None => None,
            Some(p) => Some(p@),
        }, clip)));
    }
    Ok(CliOptions { action, debug_log_path: path, disable_clipboard: clip })
}

/// The civil date (year, month, day) of a day counted from 1970-01-01.
pub open spec fn civil_from_days(days: int) -> (int, int, int) {
    let z = days + 719468;
    let era = z / 146097;
    let doe = z - era * 146097;
    let yoe = (doe - doe / 1460 + doe / 36524 - doe / 146096) / 365;
    let doy = doe - (365 * yoe + yoe / 4 - yoe / 100);
    let mp = (5 * doy + 2) / 153;
    let d = doy - (153 * mp + 2) / 5 + 1;
    let m = if mp < 10 {
        mp + 3
    } else {
        mp - 9
    };
    let y = yoe + era * 400 + if m <= 2 {
        1int
    } else {
        0
    };
    (y, m, d)
}

/// Two decimal digits of `n`, below one hundred.
pub open spec fn two_digits(n: int) -> Seq<char> {
    seq![((n / 10) + 0x30) as char, ((n % 10) + 0x30) as char]
}

/// A moment as `YYMMDD-HHMMSS` in UTC.
pub open spec fn stamp_text(secs: nat) -> Seq<char> {
    let days = (secs / 86400) as int;
    let rem = (secs % 86400) as int;
    let (y, m, d) = civil_from_days(days);
    two_digits(y % 100) + two_digits(m) + two_digits(d) + seq!['-'] + two_digits(rem / 3600) + two_digits(
        (rem % 3600) / 60,
    ) + two_digits(rem % 60)
}

fn push_two_digits(s: &mut String, n: u64)
    requires
        n < 100,
    ensures
        final(s)@ == old(s)@ + two_digits(n as int),
{
    push_char(s, digit((n / 10) as u8));
    push_char(s, digit((n % 10) as u8));
    proof {
        assert(final(s)@ =~= old(s)@ + two_digits(n as int));
    }
}

fn digit(d: u8) -> (c: char)
    requires
        d < 10,
    ensures
        c == (d + 0x30) as char,
{
    let v = vec!['0', '1', '2', '3', '4', '5', '6', '7', '8', '9'];
    proof {
        assert(v@[d as int] == (d + 0x30) as char);
    }
    v[d as usize]
}

/// The civil date of a day counted from 1970-01-01.
pub fn civil_date(days: u64) -> (r: (u64, u64, u64))
    requires
        days < 0x1_0000_0000_0000,
    ensures
        (r.0 as int, r.1 as int, r.2 as int) == civil_from_days(days as int),
{
    let z = days + 719468;
    let era = z / 146097;
    let doe = z - era * 146097;
    assert(doe < 146097) by (nonlinear_arith)
        requires
            era == z / 146097,
            doe == z - era * 146097,
    ;
    let yoe = (doe - doe / 1460 + doe / 36524 - doe / 146096) / 365;
    assert(yoe < 400) by (nonlinear_arith)
        requires
            doe < 146097,
            yoe == (doe - doe / 1460 + doe / 36524 - doe / 146096) / 365,
    ;
    let doy = doe - (365 * yoe + yoe / 4 - yoe / 100);
    assert(doy < 366) by (nonlinear_arith)
        requires
            doe < 146097,
            yoe == (doe - doe / 1460 + doe / 36524 - doe / 146096) / 365,
            doy == doe - (365 * yoe + yoe / 4 - yoe / 100),
    ;
    let mp = (5 * doy + 2) / 153;
    let d = doy - (153 * mp + 2) / 5 + 1;
    let m = if mp < 10 { mp + 3 } else { mp - 9 };
    let y = yoe + era * 400 + if m <= 2 { 1 } else { 0 };
    (y, m, d)
}

/// The version line: the tag, a space and the moment `secs` (in seconds
/// since 1970) as `YYMMDD-HHMMSS` in UTC.
pub fn cli_version_string(tag: &str, secs: u64) -> (s: String)
    ensures
        s@ == tag@ + seq![' '] + stamp_text(secs as nat),
{
    let days = secs / 86400;
    let rem = secs % 86400;
    let (y, m, d) = civil_date(days);
    let mut s = owned(tag);
    push_char(&mut s, ' ');
    push_two_digits(&mut s, y % 100);
    push_two_digits(&mut s, m);
    push_two_digits(&mut s, d);
    push_char(&mut s, '-');
    push_two_digits(&mut s, rem / 3600);
    push_two_digits(&mut s, (rem % 3600) / 60);
    push_two_digits(&mut s, rem % 60);
    proof {
        assert(s@ =~= tag@ + seq![' '] + stamp_text(secs as nat));
    }
    s
}

} // verus!
