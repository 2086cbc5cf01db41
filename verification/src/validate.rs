//! Path validation: the rules a job's source and target must satisfy
//! before any copy, and `~/` expansion. The filesystem is probed by the
//! caller; the rules here read only the probe's plain results.

use vstd::prelude::*;
use vstd::string::StrSliceExecFns;
use vstd::string::StringExecFns;
use crate::structs::{Job, LogResult};

verus! {

/// What a probe reports of one path: whether it exists, whether it is
/// written as an absolute path, and whether it is a plain file.
#[derive(Debug, Clone, Copy, PartialEq, Eq, Structural)]
pub struct PathStatus {
    pub exists: bool,
    pub absolute: bool,
    pub is_file: bool,
}

/// The validation rule: the source must exist and be absolute; the
/// target, when it exists, must be absolute and must not be a file.
pub open spec fn paths_ok(source: PathStatus, target: PathStatus) -> bool {
    source.exists && source.absolute && (target.exists ==> (target.absolute && !target.is_file))
}

/// The error text for the first violated rule, in the order the rules are
/// checked.
pub open spec fn path_error_text(source: PathStatus, target: PathStatus) -> Seq<char> {
    if source.exists && !source.absolute {
        "Source path must be absolute"@
    } else if !source.exists {
        "Source path does not exist"@
    } else if target.exists && !target.absolute {
        "Target path must be absolute"@
    } else {
        "Target path must be a directory"@
    }
}

/// Checks a job's probed paths. On a violation, exactly one failed
/// outcome naming the first violated rule is appended and `false` comes
/// back, so the caller skips the job without touching the filesystem.
pub fn are_paths_valid(
    freq_str: &String,
    job: &Job,
    source: &PathStatus,
    target: &PathStatus,
    failed_directories: &mut Vec<LogResult>,
) -> (ok: bool)
    ensures
        ok == paths_ok(*source, *target),
        ok ==> final(failed_directories)@ == old(failed_directories)@,
        !ok ==> ({
            let lr = final(failed_directories)@.last();
            &&& final(failed_directories)@ == old(failed_directories)@.push(lr)
            &&& lr.log_id is None
            &&& lr.frequency@ == freq_str@
            &&& lr.message@ == path_error_text(*source, *target)
            &&& lr.source@ == job.source@
            &&& lr.target@ == job.target@
        }),
{
    let msg: &'static str = if source.exists && !source.absolute {
        "Source path must be absolute"
    } else if !source.exists {
        "Source path does not exist"
    } else if target.exists && !target.absolute {
        "Target path must be absolute"
    } else if target.exists && target.is_file {
        "Target path must be a directory"
    } else {
        return true;
    };
    failed_directories.push(
        LogResult::new(
            freq_str.clone(),
            String::from_str(msg),
            job.source.clone(),
            job.target.clone(),
        ),
    );
    false
}

/// `path` with a leading `~/` replaced by the home directory, when one is
/// known; existence is not checked.
pub open spec fn normalised(path: Seq<char>, home: Option<Seq<char>>) -> Seq<char> {
    match home {
        Some(h) => if path.len() >= 2 && path[0] == '~' && path[1] == '/' {
            if path.skip(2).len() > 0 && path.skip(2)[0] == '/' {
                path.skip(2)
            } else {
                h + seq!['/'] + path.skip(2)
            }
        } else {
            path
        },
        None => path,
    }
}

/// Expands a leading `~/` to the given home directory, joining as a path
/// join would; any other path comes back unchanged.
pub fn normalise_path(path: &str, home: Option<&str>) -> (r: String)
    ensures
        r@ == normalised(
            path@,
            match home {
                Some(h) => Some(h@),
                None => None,
            },
        ),
{
    match home {
        Some(h) => {
            if path.unicode_len() >= 2 && path.get_char(0) == '~' && path.get_char(1) == '/' {
                let rest = path.substring_char(2, path.unicode_len());
                if rest.unicode_len() > 0 && rest.get_char(0) == '/' {
                    String::from_str(rest)
                } else {
                    let mut r = String::from_str(h);
                    r.append("/");
                    r.append(rest);
                    proof {
                        reveal_strlit("/");
                        assert(r@ =~= h@ + seq!['/'] + path@.skip(2));
                    }
                    r
                }
            } else {
                String::from_str(path)
            }
        },
        None => String::from_str(path),
    }
}

/// A decimal digit.
pub open spec fn is_dec_digit(c: char) -> bool {
    48 <= c as u32 <= 57
}

/// The value of one digit character.
pub open spec fn digit_value(c: char) -> nat {
    (c as u32 - 48) as nat
}

/// The number a digit string denotes.
pub open spec fn dec_val(s: Seq<char>) -> nat
    decreases s.len(),
{
    if s.len() == 0 {
        0
    } else {
        dec_val(s.drop_last()) * 10 + digit_value(s.last())
    }
}

/// Every character is a decimal digit.
pub open spec fn all_digits(s: Seq<char>) -> bool {
    forall|i: int| 0 <= i < s.len() ==> is_dec_digit(#[trigger] s[i])
}

/// The digits an unsigned parse reads: the text with one leading `+`
/// allowed.
pub open spec fn u8_text(s: Seq<char>) -> Seq<char> {
    if s.len() > 0 && s[0] == '+' {
        s.skip(1)
    } else {
        s
    }
}

/// A longer digit prefix never denotes a smaller number.
proof fn lemma_dec_val_monotone(s: Seq<char>, i: int, j: int)
    requires
        0 <= i <= j <= s.len(),
    ensures
        dec_val(s.take(i)) <= dec_val(s.take(j)),
    decreases j - i,
{
    if i < j {
        lemma_dec_val_monotone(s, i, j - 1);
        assert(s.take(j).drop_last() =~= s.take(j - 1));
    }
}

/// Reads the text as an unsigned byte, as the hour field is read: an
/// optional `+`, then decimal digits whose value fits in a byte.
#[verifier::loop_isolation(false)]
pub fn parse_u8(text: &str) -> (r: Option<u8>)
    ensures
        ({
            let d = u8_text(text@);
            &&& (r is Some) == (d.len() > 0 && all_digits(d) && dec_val(d) <= 255)
            &&& (r matches Some(v) ==> v == dec_val(d))
        }),
{
    let chars = crate::strutil::str_to_chars(text);
    let ghost d = u8_text(text@);
    let start: usize = if chars.len() > 0 && chars[0] == '+' {
        1
    } else {
        0
    };
    proof {
        assert(d =~= text@.skip(start as int));
    }
    if start >= chars.len() {
        return None;
    }
    let mut acc: u32 = 0;
    let mut i: usize = start;
    while i < chars.len()
        invariant
            start <= i <= chars@.len(),
            chars@ == text@,
            d == text@.skip(start as int),
            all_digits(d.take(i - start)),
            acc == dec_val(d.take(i - start)),
            acc <= 255,
        decreases chars@.len() - i,
    {
        let c = chars[i];
        let cv = c as u32;
        proof {
            assert(d.take(i + 1 - start).drop_last() =~= d.take(i - start));
            assert(d.take(i + 1 - start).last() == text@[i as int]);
        }
        if cv < 48 || cv > 57 {
            proof {
                assert(!is_dec_digit(d[i - start]));
            }
            return None;
        }
        let next = acc * 10 + (cv - 48);
        if next > 255 {
            proof {
                lemma_dec_val_monotone(d, i + 1 - start, d.len() as int);
                assert(d.take(d.len() as int) =~= d);
            }
            return None;
        }
        acc = next;
        i = i + 1;
    }
    proof {
        assert(d.take(d.len() as int) =~= d);
    }
    Some(acc as u8)
}

/// Whether the hour field holds a valid hour of the day.
pub fn is_hour_valid(hour: &str) -> (r: bool)
    ensures
        r == ({
            let d = u8_text(hour@);
            d.len() > 0 && all_digits(d) && dec_val(d) <= 23
        }),
{
    match parse_u8(hour) {
        Some(h) => h <= 23,
        None => false,
    }
}

/// The seven canonical day tokens, case folded.
pub open spec fn valid_day(day_lower: Seq<char>) -> bool {
    day_lower == "mon"@ || day_lower == "tue"@ || day_lower == "wed"@ || day_lower == "thu"@
        || day_lower == "fri"@ || day_lower == "sat"@ || day_lower == "sun"@
}

/// The schedule-field rule a drafted job must pass before it is
/// persisted: paths present; for a daily job a valid hour; for a weekly
/// job a valid hour and a canonical day; an unrecognized frequency is
/// rejected, never a panic.
pub fn is_record_valid(
    source: &str,
    target: &str,
    hour: &str,
    day: &str,
    frequency: &str,
) -> (r: bool)
    ensures
        r == (source@.len() > 0 && target@.len() > 0 && (if frequency@ == "realtime"@ {
            true
        } else if frequency@ == "daily"@ {
            ({
                let d = u8_text(hour@);
                d.len() > 0 && all_digits(d) && dec_val(d) <= 23
            })
        } else if frequency@ == "weekly"@ {
            ({
                let d = u8_text(hour@);
                d.len() > 0 && all_digits(d) && dec_val(d) <= 23
            }) && valid_day(crate::strutil::lower_of(day@))
        } else {
            false
        })),
{
    if source.is_empty() || target.is_empty() {
        return false;
    }
    if crate::strutil::str_eq(frequency, "realtime") {
        true
    } else if crate::strutil::str_eq(frequency, "daily") {
        is_hour_valid(hour)
    } else if crate::strutil::str_eq(frequency, "weekly") {
        let low = crate::strutil::to_lowercase(day);
        let day_ok = crate::strutil::str_eq(low.as_str(), "mon") || crate::strutil::str_eq(
            low.as_str(),
            "tue",
        ) || crate::strutil::str_eq(low.as_str(), "wed") || crate::strutil::str_eq(
            low.as_str(),
            "thu",
        ) || crate::strutil::str_eq(low.as_str(), "fri") || crate::strutil::str_eq(
            low.as_str(),
            "sat",
        ) || crate::strutil::str_eq(low.as_str(), "sun");
        is_hour_valid(hour) && day_ok
    } else {
        false
    }
}

} // verus!
