//! From the lines that a script returns to the lines of a report.

use crate::outside::{parse_rfc3339, rfc3339_nanos};
use crate::plugin_engine::js_value::{
    as_unsigned, hundred_bits, is_finite_bits, is_zero_bits, sign_is_set, slot_any_text,
    slot_number, slot_text, text_or_nothing, Number, Slot,
};
use crate::plugin_engine::output::{
    error_line, error_line_view, line_views, FormatView, LineView, MetricLine, ProgressFormat,
};
use crate::text::{
    after_first, blank, decimal, decimal_text, finishes_with, has_char, is_blank, opt_view, same,
    split_once, trim, trimmed,
};
use vstd::prelude::*;

verus! {

/// The format of a progress line, as the script gave it.
#[derive(Debug)]
pub struct FormatObject {
    pub kind: Slot,
    pub suffix: Slot,
}

/// A line, as the script gave it; properties that a kind of line does not have are not
/// looked at.
#[derive(Debug)]
pub struct LineObject {
    pub line_type: Slot,
    pub label: Slot,
    pub color: Slot,
    pub subtitle: Slot,
    pub value: Slot,
    pub text: Slot,
    pub used: Slot,
    pub limit: Slot,
    /// The format, if it is an object.
    pub format: Option<FormatObject>,
    pub resets_at: Slot,
    pub period_duration_ms: Slot,
}

/// The complaint about a progress line.
pub open spec fn line_problem(idx: int, what: Seq<char>) -> Seq<char> {
    "progress line at index "@ + decimal(idx as nat) + what
}

/// The format of a progress line with a limit, or what is wrong with it.
pub open spec fn read_format(format: FormatObject, limit: Number, idx: int) -> Result<
    FormatView,
    Seq<char>,
> {
    match slot_any_text(format.kind) {
        None => Err(
            line_problem(
                idx,
                if format.kind is Threw {
                    " missing format.kind"@
                } else {
                    " invalid format.kind (expected string)"@
                },
            ),
        ),
        Some(kind) => if kind == "percent"@ {
            if limit.bits == hundred_bits() {
                Ok(FormatView::Percent)
            } else {
                Err(
                    line_problem(
                        idx,
                        ": percent format requires limit=100 (got "@ + limit.text@ + ")"@,
                    ),
                )
            }
        } else if kind == "dollars"@ {
            Ok(FormatView::Dollars)
        } else if kind == "count"@ {
            match slot_any_text(format.suffix) {
                None => Err(
                    line_problem(
                        idx,
                        if format.suffix is Threw {
                            ": count format missing suffix"@
                        } else {
                            ": count format suffix must be a string"@
                        },
                    ),
                ),
                Some(suffix) => if is_blank(suffix) {
                    Err(line_problem(idx, ": count format suffix must be non-empty"@))
                } else {
                    Ok(FormatView::Count { suffix: trimmed(suffix) })
                },
            }
        } else {
            Err(line_problem(idx, " invalid format.kind: "@ + kind))
        },
    }
}

/// True for a text that looks like a time but does not say of which zone.
pub open spec fn lacks_zone(value: Seq<char>) -> bool {
    match after_first(value, 'T') {
        Some(tail) => value.last() != 'Z' && !tail.contains('+') && !tail.contains('-'),
        None => false,
    }
}

/// The time of a reset, given which texts are times: the text itself, or the text as a
/// time of the zone UTC if it does not say of which zone it is.
pub open spec fn reset_choice(value: Seq<char>, is_time: bool, is_utc_time: bool) -> Option<
    Seq<char>,
> {
    if value.len() == 0 {
        None
    } else if is_time {
        Some(value)
    } else if lacks_zone(value) && is_utc_time {
        Some(value + "Z"@)
    } else {
        None
    }
}

/// The time of a reset that a script gave, if it is one.
pub open spec fn read_reset(slot: Slot) -> Option<Seq<char>> {
    match slot_any_text(slot) {
        None => None,
        Some(raw) => {
            let value = trimmed(raw);
            reset_choice(
                value,
                rfc3339_nanos(value) is Some,
                rfc3339_nanos(value + "Z"@) is Some,
            )
        },
    }
}

/// The duration of a period that a script gave, if it is positive.
pub open spec fn read_period(slot: Slot) -> Option<u64> {
    match slot_number(slot) {
        Some(number) => if as_unsigned(number.bits) > 0 {
            Some(as_unsigned(number.bits))
        } else {
            None
        },
        None => None,
    }
}

/// A progress line, or what is wrong with it.
pub open spec fn read_progress(line: LineObject, idx: int) -> Result<LineView, Seq<char>> {
    match slot_number(line.used) {
        None => Err(
            line_problem(
                idx,
                if line.used is Threw {
                    " missing used"@
                } else {
                    " invalid used (expected number)"@
                },
            ),
        ),
        Some(used) => match slot_number(line.limit) {
            None => Err(
                line_problem(
                    idx,
                    if line.limit is Threw {
                        " missing limit"@
                    } else {
                        " invalid limit (expected number)"@
                    },
                ),
            ),
            Some(limit) => if !is_finite_bits(used.bits) || (sign_is_set(used.bits)
                && !is_zero_bits(used.bits)) {
                Err(line_problem(idx, " invalid used: "@ + used.text@))
            } else if !is_finite_bits(limit.bits) || sign_is_set(limit.bits) || is_zero_bits(
                limit.bits,
            ) {
                Err(line_problem(idx, " invalid limit: "@ + limit.text@))
            } else {
                match line.format {
                    None => Err(line_problem(idx, " missing format"@)),
                    Some(format) => match read_format(format, limit, idx) {
                        Err(message) => Err(message),
                        Ok(shown) => Ok(
                            LineView::Progress {
                                label: text_or_nothing(slot_text(line.label)),
                                used,
                                limit,
                                format: shown,
                                resets_at: read_reset(line.resets_at),
                                period_duration_ms: read_period(line.period_duration_ms),
                                color: slot_text(line.color),
                            },
                        ),
                    },
                }
            },
        },
    }
}

/// The line of the report that a line of the script becomes: where something is wrong
/// with it, a line that says what.
pub open spec fn read_line(line: LineObject, idx: int) -> LineView {
    let kind = text_or_nothing(slot_text(line.line_type));
    if kind == "text"@ {
        LineView::Text {
            label: text_or_nothing(slot_text(line.label)),
            value: text_or_nothing(slot_text(line.value)),
            color: slot_text(line.color),
            subtitle: slot_text(line.subtitle),
        }
    } else if kind == "progress"@ {
        match read_progress(line, idx) {
            Ok(progress) => progress,
            Err(message) => error_line_view(message),
        }
    } else if kind == "badge"@ {
        LineView::Badge {
            label: text_or_nothing(slot_text(line.label)),
            text: text_or_nothing(slot_text(line.text)),
            color: slot_text(line.color),
            subtitle: slot_text(line.subtitle),
        }
    } else {
        error_line_view("unknown line type at index "@ + decimal(idx as nat) + ": "@ + kind)
    }
}

/// The lines of the report, or the complaint about the first element that is no line.
pub open spec fn read_lines(lines: Seq<Option<LineObject>>) -> Result<Seq<LineView>, Seq<char>>
    decreases lines.len(),
{
    if lines.len() == 0 {
        Ok(Seq::empty())
    } else {
        match read_lines(lines.drop_last()) {
            Err(message) => Err(message),
            Ok(before) => match lines.last() {
                None => Err("invalid line at index "@ + decimal((lines.len() - 1) as nat)),
                Some(line) => Ok(before.push(read_line(line, lines.len() - 1))),
            },
        }
    }
}

/// Where all elements are lines, each of them becomes exactly one line of the report, in
/// the same order.
pub proof fn law_each_line_is_reported(lines: Seq<Option<LineObject>>)
    ensures
        read_lines(lines) is Ok <==> forall|i: int| 0 <= i < lines.len() ==> #[trigger] lines[i] is Some,
        read_lines(lines) matches Ok(shown) ==> shown.len() == lines.len() && forall|i: int|
            0 <= i < lines.len() ==> #[trigger] shown[i] == read_line(lines[i].unwrap(), i),
    decreases lines.len(),
{
    if lines.len() > 0 {
        let init = lines.drop_last();
        law_each_line_is_reported(init);
        if read_lines(lines) is Ok {
            assert forall|i: int| 0 <= i < lines.len() implies #[trigger] lines[i] is Some by {
                if i < init.len() {
                    assert(init[i] == lines[i]);
                }
            }
            let shown = read_lines(lines)->Ok_0;
            assert forall|i: int| 0 <= i < lines.len() implies #[trigger] shown[i] == read_line(
                lines[i].unwrap(),
                i,
            ) by {
                if i < init.len() {
                    assert(init[i] == lines[i]);
                    assert(shown[i] == read_lines(init)->Ok_0[i]);
                }
            }
        }
        if forall|i: int| 0 <= i < lines.len() ==> #[trigger] lines[i] is Some {
            assert forall|i: int| 0 <= i < init.len() implies #[trigger] init[i] is Some by {
                assert(init[i] == lines[i]);
            }
            assert(lines[lines.len() - 1] is Some);
        }
    }
}

fn problem(idx: usize, what: &str) -> (r: String)
    ensures
        r@ == line_problem(idx as int, what@),
{
    let mut out = "progress line at index ".to_string();
    let number = decimal_text(idx as u128);
    out.append(number.as_str());
    out.append(what);
    out
}

fn problem_with(idx: usize, what: &str, detail: &str) -> (r: String)
    ensures
        r@ == line_problem(idx as int, what@ + detail@),
{
    let mut tail = what.to_string();
    tail.append(detail);
    problem(idx, tail.as_str())
}

fn parse_format(format: &FormatObject, limit: &Number, idx: usize) -> (r: Result<
    ProgressFormat,
    String,
>)
    ensures
        match (r, read_format(*format, *limit, idx as int)) {
            (Ok(shown), Ok(expected)) => shown@ == expected,
            (Err(message), Err(expected)) => message@ == expected,
            _ => false,
        },
{
    match format.kind.any_text() {
        None => {
            if format.kind.threw() {
                Err(problem(idx, " missing format.kind"))
            } else {
                Err(problem(idx, " invalid format.kind (expected string)"))
            }
        },
        Some(kind) => {
            if same(kind.as_str(), "percent") {
                if limit.is_hundred() {
                    Ok(ProgressFormat::Percent)
                } else {
                    let mut what = ": percent format requires limit=100 (got ".to_string();
                    what.append(limit.text.as_str());
                    what.append(")");
                    Err(problem(idx, what.as_str()))
                }
            } else if same(kind.as_str(), "dollars") {
                Ok(ProgressFormat::Dollars)
            } else if same(kind.as_str(), "count") {
                match format.suffix.any_text() {
                    None => {
                        if format.suffix.threw() {
                            Err(problem(idx, ": count format missing suffix"))
                        } else {
                            Err(problem(idx, ": count format suffix must be a string"))
                        }
                    },
                    Some(suffix) => {
                        if blank(suffix.as_str()) {
                            Err(problem(idx, ": count format suffix must be non-empty"))
                        } else {
                            Ok(ProgressFormat::Count { suffix: trim(suffix.as_str()) })
                        }
                    },
                }
            } else {
                Err(problem_with(idx, " invalid format.kind: ", kind.as_str()))
            }
        },
    }
}

/// True for a text that looks like a time but does not say of which zone.
pub fn is_missing_zone(value: &str) -> (r: bool)
    ensures
        r == lacks_zone(value@),
{
    match split_once(value, 'T') {
        Some((head, tail)) => {
            assert(value@.len() > 0);
            !finishes_with(value, 'Z') && !has_char(tail.as_str(), '+') && !has_char(
                tail.as_str(),
                '-',
            )
        },
        None => false,
    }
}

/// The time of a reset, given which texts are times.
pub fn choose_reset(value: &str, is_time: bool, is_utc_time: bool) -> (r: Option<String>)
    ensures
        opt_view(r) == reset_choice(value@, is_time, is_utc_time),
{
    if value.is_empty() {
        None
    } else if is_time {
        Some(value.to_string())
    } else if is_missing_zone(value) && is_utc_time {
        let mut with_zone = value.to_string();
        with_zone.append("Z");
        Some(with_zone)
    } else {
        None
    }
}

fn parse_reset(slot: &Slot) -> (r: Option<String>)
    ensures
        opt_view(r) == read_reset(*slot),
{
    match slot.any_text() {
        None => None,
        Some(raw) => {
            let value = trim(raw.as_str());
            let mut with_zone = value.clone();
            with_zone.append("Z");
            let is_time = parse_rfc3339(value.as_str()).is_some();
            let is_utc_time = parse_rfc3339(with_zone.as_str()).is_some();
            choose_reset(value.as_str(), is_time, is_utc_time)
        },
    }
}

fn parse_period(slot: &Slot) -> (r: Option<u64>)
    ensures
        r == read_period(*slot),
{
    match slot.number() {
        Some(number) => {
            let ms = number.to_unsigned();
            if ms > 0 {
                Some(ms)
            } else {
                None
            }
        },
        None => None,
    }
}

fn parse_progress(line: &LineObject, idx: usize) -> (r: Result<MetricLine, String>)
    ensures
        match (r, read_progress(*line, idx as int)) {
            (Ok(shown), Ok(expected)) => shown@ == expected,
            (Err(message), Err(expected)) => message@ == expected,
            _ => false,
        },
{
    let used = match line.used.number() {
        Some(number) => number,
        None => {
            return if line.used.threw() {
                Err(problem(idx, " missing used"))
            } else {
                Err(problem(idx, " invalid used (expected number)"))
            };
        },
    };
    let limit = match line.limit.number() {
        Some(number) => number,
        None => {
            return if line.limit.threw() {
                Err(problem(idx, " missing limit"))
            } else {
                Err(problem(idx, " invalid limit (expected number)"))
            };
        },
    };
    if !used.is_finite() || used.is_below_zero() {
        return Err(problem_with(idx, " invalid used: ", used.text.as_str()));
    }
    if !limit.is_finite() || limit.is_zero_or_below() {
        return Err(problem_with(idx, " invalid limit: ", limit.text.as_str()));
    }
    match &line.format {
        None => Err(problem(idx, " missing format")),
        Some(format) => match parse_format(format, &limit, idx) {
            Err(message) => Err(message),
            Ok(shown) => Ok(
                MetricLine::Progress {
                    label: line.label.text_or_empty(),
                    used,
                    limit,
                    format: shown,
                    resets_at: parse_reset(&line.resets_at),
                    period_duration_ms: parse_period(&line.period_duration_ms),
                    color: line.color.text(),
                },
            ),
        },
    }
}

/// The line of the report that a line of the script becomes.
pub fn parse_line(line: &LineObject, idx: usize) -> (r: MetricLine)
    ensures
        r@ == read_line(*line, idx as int),
{
    let kind = line.line_type.text_or_empty();
    if same(kind.as_str(), "text") {
        MetricLine::Text {
            label: line.label.text_or_empty(),
            value: line.value.text_or_empty(),
            color: line.color.text(),
            subtitle: line.subtitle.text(),
        }
    } else if same(kind.as_str(), "progress") {
        match parse_progress(line, idx) {
            Ok(progress) => progress,
            Err(message) => error_line(message),
        }
    } else if same(kind.as_str(), "badge") {
        MetricLine::Badge {
            label: line.label.text_or_empty(),
            text: line.text.text_or_empty(),
            color: line.color.text(),
            subtitle: line.subtitle.text(),
        }
    } else {
        let mut message = "unknown line type at index ".to_string();
        let number = decimal_text(idx as u128);
        message.append(number.as_str());
        message.append(": ");
        message.append(kind.as_str());
        error_line(message)
    }
}

/// The lines of the report; `None` where the script returned no list of lines, and `None`
/// in the list for an element that is no object.
pub fn parse_lines(lines: &Option<Vec<Option<LineObject>>>) -> (r: Result<Vec<MetricLine>, String>)
    ensures
        lines is None ==> (r matches Err(message) && message@ == "missing lines"@),
        lines matches Some(list) ==> match (r, read_lines(list@)) {
            (Ok(shown), Ok(expected)) => line_views(shown@) == expected,
            (Err(message), Err(expected)) => message@ == expected,
            _ => false,
        },
{
    let list = match lines {
        Some(list) => list,
        None => {
            return Err("missing lines".to_string());
        },
    };
    let mut out: Vec<MetricLine> = Vec::new();
    let mut i: usize = 0;
    assert(list@.take(0) =~= Seq::<Option<LineObject>>::empty());
    assert(line_views(out@) =~= Seq::<LineView>::empty());
    while i < list.len()
        invariant
            i <= list@.len(),
            *lines == Some(*list),
            read_lines(list@.take(i as int)) == Ok::<Seq<LineView>, Seq<char>>(line_views(out@)),
        decreases list@.len() - i,
    {
        let ghost next = list@.take(i + 1);
        assert(next.drop_last() =~= list@.take(i as int));
        assert(next.last() == list@[i as int]);
        match &list[i] {
            None => {
                let mut message = "invalid line at index ".to_string();
                let number = decimal_text(i as u128);
                message.append(number.as_str());
                proof {
                    assert(read_lines(next) == Err::<Seq<LineView>, Seq<char>>(message@));
                    lemma_first_complaint_stays(list@, i + 1);
                }
                return Err(message);
            },
            Some(line) => {
                let ghost before = out@;
                out.push(parse_line(line, i));
                assert(line_views(out@) =~= line_views(before).push(read_line(*line, i as int)));
            },
        }
        i = i + 1;
    }
    assert(list@.take(list@.len() as int) =~= list@);
    Ok(out)
}

pub(crate) proof fn lemma_first_complaint_stays(lines: Seq<Option<LineObject>>, n: int)
    requires
        0 <= n <= lines.len(),
        read_lines(lines.take(n)) is Err,
    ensures
        read_lines(lines) == read_lines(lines.take(n)),
    decreases lines.len() - n,
{
    if n < lines.len() {
        assert(lines.take(n + 1).drop_last() =~= lines.take(n));
        lemma_first_complaint_stays(lines, n + 1);
    } else {
        assert(lines.take(n) =~= lines);
    }
}

} // verus!
