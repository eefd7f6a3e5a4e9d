use vstd::prelude::*;
use vstd::std_specs::iter::IteratorSpec;
use vstd::string::*;

use chrono::{Datelike, Timelike};

use crate::lstm::split_on;
use crate::text::{first_index_of, lemma_first_index_of_bound, second_field, second_field_of};

verus! {

/// The lines of a text as `str::lines` gives them: the text is cut after each `\n`,
/// the `\n` (and a `\r` just before it) is dropped, and no empty line follows a final `\n`.
pub open spec fn text_lines(s: Seq<char>) -> Seq<Seq<char>>
    decreases s.len(),
{
    if s.len() == 0 {
        Seq::empty()
    } else {
        let k = first_index_of(s, '\n');
        if k >= s.len() {
            seq![s]
        } else {
            seq![strip_cr(s.take(k as int))] + text_lines(s.skip(k + 1 as int))
        }
    }
}

pub open spec fn strip_cr(l: Seq<char>) -> Seq<char> {
    if l.len() > 0 && l.last() == '\r' {
        l.drop_last()
    } else {
        l
    }
}

/// A date and time as read from text. A leap second (`:60`) is second 59 with a
/// nanosecond count of one billion or more, as chrono keeps it.
#[derive(Debug, Clone, Copy, PartialEq, Eq, Structural)]
pub struct DateTimeParts {
    pub year: i32,
    pub month: u32,
    pub day: u32,
    pub hour: u32,
    pub minute: u32,
    pub second: u32,
    pub nanosecond: u32,
}

pub open spec fn parts_tuple(p: DateTimeParts) -> (i32, u32, u32, u32, u32, u32, u32) {
    (p.year, p.month, p.day, p.hour, p.minute, p.second, p.nanosecond)
}

/// What `chrono::NaiveDateTime::parse_from_str(text, fmt)` reads, as year, month,
/// day, hour, minute, second and nanosecond; `None` where it fails.
pub uninterp spec fn chrono_datetime(text: Seq<char>, fmt: Seq<char>) -> Option<(i32, u32, u32, u32, u32, u32, u32)>;

/// `chrono::NaiveDateTime::parse_from_str`, with the date and time it reads taken
/// apart into its fields. The result is a function of the text and the format alone,
/// named `chrono_datetime`; nothing more is stated of it.
#[verifier::external_body]
fn parse_datetime(text: &str, fmt: &str) -> (r: Option<DateTimeParts>)
    ensures
        match r {
            Some(p) => chrono_datetime(text@, fmt@) == Some(parts_tuple(p)),
            None => chrono_datetime(text@, fmt@) is None,
        },
{
    match chrono::NaiveDateTime::parse_from_str(text, fmt) {
        Ok(t) => Some(
            DateTimeParts {
                year: t.year(),
                month: t.month(),
                day: t.day(),
                hour: t.hour(),
                minute: t.minute(),
                second: t.second(),
                nanosecond: t.nanosecond(),
            },
        ),
        Err(_) => None,
    }
}

/// Why an inflow table does not give the simulation's length and start.
#[derive(Debug, Clone, Copy, PartialEq, Eq, Structural)]
pub enum SimParamsError {
    /// The table has no line.
    EmptyFile,
    /// The table has its header line only.
    HeaderOnly,
    /// The first data line has no second, comma-separated field.
    MissingTime,
    /// The second field of the first data line is not a date and time.
    TimeParse,
}

/// The number of external steps that an inflow table gives (its lines less the header
/// and the initial state) and the text of its start time (the second field of the
/// first line after the header).
pub open spec fn table_steps_and_time(content: Seq<char>) -> Result<(nat, Seq<char>), SimParamsError> {
    let ls = text_lines(content);
    if ls.len() == 0 {
        Err(SimParamsError::EmptyFile)
    } else if ls.len() == 1 {
        Err(SimParamsError::HeaderOnly)
    } else {
        match second_field(ls[1], ',') {
            None => Err(SimParamsError::MissingTime),
            Some(t) => Ok(((ls.len() - 2) as nat, t)),
        }
    }
}

/// The characters of `s`.
fn chars_of(s: &str) -> (v: Vec<char>)
    ensures
        v@ == s@,
{
    let mut v: Vec<char> = Vec::new();
    for c in it: s.chars()
        invariant
            it.seq() == s@,
            v@ == s@.take(it.index()),
    {
        v.push(c);
        assert(v@ =~= s@.take(it.index() + 1));
    }
    assert(v@ =~= s@);
    v
}

/// The first `c` at or after `from`, or the length.
fn find_from(v: &Vec<char>, from: usize, c: char) -> (k: usize)
    requires
        from <= v@.len(),
    ensures
        from <= k <= v@.len(),
        k - from == first_index_of(v@.skip(from as int), c),
{
    let mut k = from;
    while k < v.len() && v[k] != c
        invariant
            from <= k <= v@.len(),
            forall|j: int| from <= j < k ==> v@[j] != c,
        decreases v.len() - k,
    {
        k = k + 1;
    }
    proof {
        let t = v@.skip(from as int);
        lemma_first_index_of_bound(t, c);
        let f = first_index_of(t, c);
        if f < k - from {
            assert(t[f as int] == v@[from + f]);
        }
        if f > k - from {
            assert(t[k - from] == v@[k as int]);
        }
    }
    k
}

/// The number of lines of `content` and the bounds of its second line, where it has one.
fn scan_lines(v: &Vec<char>) -> (r: (usize, usize, usize))
    ensures
        r.0 == text_lines(v@).len(),
        r.0 >= 2 ==> r.1 <= r.2 <= v@.len() && v@.subrange(r.1 as int, r.2 as int) == text_lines(v@)[1],
{
    let n = v.len();
    let mut pos: usize = 0;
    let mut count: usize = 0;
    let mut second: (usize, usize) = (0, 0);
    assert(v@.skip(0) =~= v@);
    while pos < n
        invariant
            pos <= n,
            n == v@.len(),
            count <= pos,
            text_lines(v@) == text_lines(v@).take(count as int) + text_lines(v@.skip(pos as int)),
            text_lines(v@).len() == count + text_lines(v@.skip(pos as int)).len(),
            count >= 2 ==> second.0 <= second.1 <= n && v@.subrange(second.0 as int, second.1 as int)
                == text_lines(v@)[1],
        decreases n - pos,
    {
        let k = find_from(v, pos, '\n');
        let ghost rest = v@.skip(pos as int);
        proof {
            lemma_first_index_of_bound(rest, '\n');
        }
        let line_end = if k < n && k > pos && v[k - 1] == '\r' {
            k - 1
        } else {
            k
        };
        proof {
            let kk = (k - pos) as int;
            if kk < rest.len() {
                assert(rest.skip(kk + 1) =~= v@.skip(k + 1));
                assert(text_lines(rest) == seq![strip_cr(rest.take(kk))] + text_lines(rest.skip(kk + 1)));
                assert(v@.subrange(pos as int, line_end as int) =~= strip_cr(rest.take(kk)));
            } else {
                assert(text_lines(rest) == seq![rest]);
                assert(v@.skip(n as int) =~= Seq::<char>::empty());
                assert(v@.subrange(pos as int, line_end as int) =~= rest);
            }
            assert(text_lines(rest)[0] == v@.subrange(pos as int, line_end as int));
        }
        if count == 1 {
            second = (pos, line_end);
        }
        let ghost old_count = count;
        count = count + 1;
        proof {
            let next = if k < n { k + 1 } else { n as int };
            let tail = v@.skip(next);
            assert(text_lines(rest) =~= seq![text_lines(rest)[0]] + tail_lines(rest));
            assert(tail_lines(rest) == text_lines(tail)) by {
                if k < n {
                    assert(rest.skip((k - pos) + 1) =~= tail);
                } else {
                    assert(tail =~= Seq::<char>::empty());
                }
            }
            assert(text_lines(v@).take(count as int) =~= text_lines(v@).take(old_count as int) + seq![
                text_lines(rest)[0],
            ]);
        }
        pos = if k < n { k + 1 } else { n };
    }
    assert(v@.skip(pos as int) =~= Seq::<char>::empty());
    assert(text_lines(v@).take(count as int) =~= text_lines(v@));
    (count, second.0, second.1)
}

/// The lines of a nonempty text after its first.
pub open spec fn tail_lines(s: Seq<char>) -> Seq<Seq<char>> {
    text_lines(s).drop_first()
}

/// The number of external steps and the start-time text that an inflow table
/// gives (see `table_steps_and_time`).
pub fn table_steps_and_time_of(content: &str) -> (r: Result<(usize, String), SimParamsError>)
    ensures
        match table_steps_and_time(content@) {
            Ok((steps, t)) => (r matches Ok((s2, t2)) && s2 as nat == steps && t2@ == t),
            Err(e) => r == Err::<(usize, String), SimParamsError>(e),
        },
{
    let v = chars_of(content);
    let (count, a, b) = scan_lines(&v);
    if count == 0 {
        return Err(SimParamsError::EmptyFile);
    }
    if count == 1 {
        return Err(SimParamsError::HeaderOnly);
    }
    let line = content.substring_char(a, b);
    match second_field_of(line, ',') {
        None => Err(SimParamsError::MissingTime),
        Some(t) => Ok((count - 2, String::from_str(t))),
    }
}

/// The format in which inflow tables write their times.
pub open spec fn table_time_format() -> Seq<char> {
    "%Y-%m-%d %H:%M:%S"@
}

/// The number of external steps of a simulation and its reference time, from the
/// inflow table of one catchment: the table must have a data line, whose second field
/// is the reference time, read with the format `%Y-%m-%d %H:%M:%S`.
pub fn get_simulation_params(content: &str) -> (r: Result<(usize, DateTimeParts), SimParamsError>)
    ensures
        match table_steps_and_time(content@) {
            Err(e) => r == Err::<(usize, DateTimeParts), SimParamsError>(e),
            Ok((steps, t)) => match chrono_datetime(t, table_time_format()) {
                None => r == Err::<(usize, DateTimeParts), SimParamsError>(SimParamsError::TimeParse),
                Some(p) => (r matches Ok((s2, p2)) && s2 as nat == steps && parts_tuple(p2) == p),
            },
        },
{
    let (steps, time) = match table_steps_and_time_of(content) {
        Ok(x) => x,
        Err(e) => {
            return Err(e);
        },
    };
    match parse_datetime(time.as_str(), "%Y-%m-%d %H:%M:%S") {
        Some(p) => Ok((steps, p)),
        None => Err(SimParamsError::TimeParse),
    }
}

/// The step counts of a run: how many internal steps make one hour, how many internal
/// steps the run takes, and how many seconds it spans.
#[derive(Debug, Clone, Copy, PartialEq, Eq, Structural)]
pub struct Schedule {
    pub downsampling: usize,
    pub total_timesteps: usize,
    pub span_seconds: usize,
}

/// The schedule of a run of `max_external_steps` hourly steps, each cut into internal
/// steps of `internal_timestep_seconds` (rounded down to whole steps per hour).
pub fn simulation_schedule(internal_timestep_seconds: usize, max_external_steps: usize) -> (r: Schedule)
    requires
        internal_timestep_seconds > 0,
        max_external_steps * (3600int / internal_timestep_seconds as int) <= usize::MAX,
        max_external_steps * 3600 <= usize::MAX,
    ensures
        r.downsampling == 3600int / internal_timestep_seconds as int,
        r.total_timesteps == max_external_steps * r.downsampling,
        r.span_seconds == 3600 * max_external_steps,
{
    let external_timestep_seconds: usize = 3600;
    let downsampling = external_timestep_seconds / internal_timestep_seconds;
    Schedule {
        downsampling,
        total_timesteps: max_external_steps * downsampling,
        span_seconds: external_timestep_seconds * max_external_steps,
    }
}

/// The first piece of `x` cut at each `c` is what stands before the first `c`.
proof fn lemma_split_first(x: Seq<char>, c: char)
    ensures
        split_on(x, c).len() >= 1,
        split_on(x, c)[0] == x.take(first_index_of(x, c) as int),
{
    lemma_first_index_of_bound(x, c);
    let k = first_index_of(x, c);
    if k >= x.len() {
        assert(x.take(k as int) =~= x);
    }
}

/// The second field of `s` is the second of the pieces that `s.split(c)` gives.
proof fn lemma_second_field_split(s: Seq<char>, c: char)
    ensures
        second_field(s, c) == (if split_on(s, c).len() >= 2 {
            Some(split_on(s, c)[1])
        } else {
            None::<Seq<char>>
        }),
{
    lemma_first_index_of_bound(s, c);
    let k = first_index_of(s, c);
    if k < s.len() {
        let rest = s.skip(k + 1 as int);
        lemma_split_first(rest, c);
        let tail = split_on(rest, c);
        assert(split_on(s, c) == seq![s.take(k as int)] + tail);
        assert(split_on(s, c)[1] == tail[0]);
    }
}

/// The start time of an inflow table is the second comma-separated field of its first
/// data line, however many fields the line has; the number of steps is the number of
/// lines less the header and the initial state; a line with no comma gives no time.
pub proof fn lemma_start_time_field(content: Seq<char>)
    ensures
        text_lines(content).len() >= 2 && split_on(text_lines(content)[1], ',').len() >= 2
            ==> table_steps_and_time(content) == Ok::<(nat, Seq<char>), SimParamsError>(
            ((text_lines(content).len() - 2) as nat, split_on(text_lines(content)[1], ',')[1]),
        ),
        text_lines(content).len() >= 2 && split_on(text_lines(content)[1], ',').len() < 2
            ==> table_steps_and_time(content) == Err::<(nat, Seq<char>), SimParamsError>(
            SimParamsError::MissingTime,
        ),
        text_lines(content).len() == 0 ==> table_steps_and_time(content) == Err::<(nat, Seq<char>), SimParamsError>(
            SimParamsError::EmptyFile,
        ),
        text_lines(content).len() == 1 ==> table_steps_and_time(content) == Err::<(nat, Seq<char>), SimParamsError>(
            SimParamsError::HeaderOnly,
        ),
{
    if text_lines(content).len() >= 2 {
        lemma_second_field_split(text_lines(content)[1], ',');
    }
}

} // verus!
