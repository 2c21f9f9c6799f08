//! The metadata that the encoder attaches to a video: the file's name, its
//! extension and the time of encoding.
use vstd::prelude::*;
use chrono::DateTime;
use std::fmt::Write;

verus! {

/// What follows the last `sep` in `s`; all of `s` when `sep` does not occur
/// (the last item of `s.split(sep)`).
pub open spec fn after_last(s: Seq<char>, sep: char) -> Seq<char>
    decreases s.len(),
{
    if s.len() == 0 {
        s
    } else if s.last() == sep {
        Seq::empty()
    } else {
        after_last(s.drop_last(), sep).push(s.last())
    }
}

/// What `after_last` gives is an end of `s` without `sep` in it, and the
/// character before that end, if any, is `sep`.
pub proof fn lemma_after_last_is_last_piece(s: Seq<char>, sep: char)
    ensures
        after_last(s, sep).len() <= s.len(),
        after_last(s, sep) == s.subrange(s.len() - after_last(s, sep).len(), s.len() as int),
        !after_last(s, sep).contains(sep),
        after_last(s, sep).len() < s.len() ==> s[s.len() - after_last(s, sep).len() - 1] == sep,
    decreases s.len(),
{
    if s.len() > 0 && s.last() != sep {
        let rest = s.drop_last();
        lemma_after_last_is_last_piece(rest, sep);
        let a = after_last(rest, sep);
        assert(after_last(s, sep) =~= s.subrange(s.len() - a.len() - 1, s.len() as int));
        assert forall|i: int| 0 <= i < a.len() + 1 implies after_last(s, sep)[i] != sep by {
            if i < a.len() {
                assert(a[i] != sep);
            }
        }
    } else if s.len() > 0 {
        assert(after_last(s, sep) =~= s.subrange(s.len() as int, s.len() as int));
    }
}

/// The text that chrono writes for the UTC time `secs` seconds and `nanos`
/// nanoseconds after the Unix epoch with the format string `format`, or
/// `None` where chrono has no such time or the format does not apply.
pub uninterp spec fn utc_time_text(secs: i64, nanos: u32, format: Seq<char>) -> Option<Seq<char>>;

/// Calls chrono's `DateTime::from_timestamp(secs, nanos)` and writes the
/// time with `format`. The result depends on the arguments alone (the time
/// zone is UTC). It is `None` where chrono gives no time (outside the range
/// of dates it represents) or formatting reports an error; the text itself
/// is not stated here.
#[verifier::external_body]
fn format_utc_time(secs: i64, nanos: u32, format: &str) -> (text: Option<String>)
    ensures
        match text {
            Some(t) => utc_time_text(secs, nanos, format@) == Some(t@),
            None => utc_time_text(secs, nanos, format@) is None,
        },
{
    match DateTime::from_timestamp(secs, nanos) {
        Some(t) => {
            let mut text = String::new();
            match write!(text, "{}", t.format(format)) {
                Ok(()) => Some(text),
                Err(_) => None,
            }
        },
        None => None,
    }
}

/// The last item of `s.split(sep)`.
pub fn last_segment(s: &str, sep: char) -> (segment: &str)
    ensures
        segment@ == after_last(s@, sep),
{
    let n = s.unicode_len();
    let mut i: usize = n;
    proof {
        assert(s@.take(n as int) =~= s@);
        assert(s@.subrange(n as int, n as int) =~= Seq::<char>::empty());
        assert(after_last(s@, sep) + Seq::<char>::empty() =~= after_last(s@, sep));
    }
    while i > 0 && s.get_char(i - 1) != sep
        invariant
            n == s@.len(),
            i <= n,
            after_last(s@, sep) == after_last(s@.take(i as int), sep) + s@.subrange(
                i as int,
                n as int,
            ),
        decreases i,
    {
        let ghost t = s@.take(i as int);
        assert(t.drop_last() =~= s@.take(i - 1));
        assert(s@.subrange(i - 1, n as int) =~= seq![s@[i - 1]] + s@.subrange(i as int, n as int));
        assert(after_last(t, sep) =~= after_last(s@.take(i - 1), sep).push(s@[i - 1]));
        assert(after_last(s@.take(i - 1), sep).push(s@[i - 1]) + s@.subrange(i as int, n as int)
            =~= after_last(s@.take(i - 1), sep) + s@.subrange(i - 1, n as int));
        i = i - 1;
    }
    proof {
        if i == 0 {
            assert(s@.take(0) =~= Seq::<char>::empty());
        } else {
            assert(s@.take(i as int).last() == sep);
        }
        assert(after_last(s@.take(i as int), sep) =~= Seq::<char>::empty());
        assert(after_last(s@, sep) =~= s@.subrange(i as int, n as int));
    }
    s.substring_char(i, n)
}

/// The video's title metadata: `title=` and the file name, what follows the
/// last `/` of `input_path`.
pub fn title_metadata(input_path: &str) -> (title: String)
    ensures
        title@ == "title="@ + after_last(input_path@, '/'),
{
    let mut title = String::from_str("title=");
    title.append(last_segment(input_path, '/'));
    title
}

/// The video's author metadata, which holds the file's extension:
/// `author=` and what follows the last `.` of `title`.
pub fn author_metadata(title: &str) -> (author: String)
    ensures
        author@ == "author="@ + after_last(title@, '.'),
{
    let mut author = String::from_str("author=");
    author.append(last_segment(title, '.'));
    author
}

/// The time metadata entry for a formatted time: `time=` and `text`.
pub fn time_entry(text: &str) -> (time: String)
    ensures
        time@ == "time="@ + text@,
{
    let mut time = String::from_str("time=");
    time.append(text);
    time
}

/// The format of the time metadata.
pub open spec fn time_format() -> Seq<char> {
    "%Y-%m-%d %H:%M:%S"@
}

/// The video's time metadata for the moment `secs` seconds after the Unix
/// epoch: `time=` and the UTC time as `%Y-%m-%d %H:%M:%S` (whole seconds);
/// `None` where chrono has no such time.
pub fn time_metadata(secs: i64) -> (time: Option<String>)
    ensures
        match time {
            Some(t) => utc_time_text(secs, 0, time_format()) matches Some(text) && t@ == "time="@
                + text,
            None => utc_time_text(secs, 0, time_format()) is None,
        },
{
    match format_utc_time(secs, 0, "%Y-%m-%d %H:%M:%S") {
        Some(text) => Some(time_entry(text.as_str())),
        None => None,
    }
}

} // verus!
