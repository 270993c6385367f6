//! What holds of the lines of a report, whatever a script returned.

use crate::outside::rfc3339_nanos;
use crate::plugin_engine::js_value::{extract_error_string, Caught, JsValue, Number, Slot};
use crate::plugin_engine::lines::{
    choose_reset, is_missing_zone, parse_line, parse_lines, LineObject,
};
use crate::plugin_engine::output::{
    error_line, has_error_line, MetricLine, PluginOutput, ProgressFormat,
};
use crate::text::{decimal, is_blank, opt_view, trimmed};
use vstd::arithmetic::power2::pow2;
use vstd::prelude::*;

verus! {

/// True if a property holds this text.
pub open spec fn holds(slot: Slot, text: Seq<char>) -> bool {
    slot matches Slot::Value(JsValue::Text(own)) && own@ == text
}

/// True if a property holds this text, where a text that is not valid Unicode counts as empty.
pub open spec fn holds_any(slot: Slot, text: Seq<char>) -> bool {
    holds(slot, text) || (slot == Slot::Value(JsValue::BrokenText) && text.len() == 0)
}

/// True if `shown` is the text of a property, and empty where the property holds none.
pub open spec fn shows(shown: String, slot: Slot) -> bool {
    match slot {
        Slot::Value(JsValue::Text(own)) => shown@ == own@,
        _ => shown@.len() == 0,
    }
}

/// True if `shown` is the text of a property, and nothing where the property holds none.
pub open spec fn shows_if_any(shown: Option<String>, slot: Slot) -> bool {
    match slot {
        Slot::Value(JsValue::Text(own)) => shown matches Some(text) && text@ == own@,
        _ => shown is None,
    }
}

/// True for a line that reports an error: a red badge.
pub open spec fn is_error_badge(line: MetricLine, message: Seq<char>) -> bool {
    line matches MetricLine::Badge { label, text, color, subtitle } && label@ == "Error"@
        && text@ == message && (color matches Some(c) && c@ == "#ef4444"@) && subtitle is None
}

/// True for the bits of a finite number that is not below zero.
pub open spec fn may_be_used(bits: u64) -> bool {
    bits < 0x7ff0_0000_0000_0000 || bits == 0x8000_0000_0000_0000
}

/// True for the bits of a finite number above zero.
pub open spec fn may_be_limit(bits: u64) -> bool {
    0 < bits < 0x7ff0_0000_0000_0000
}

/// Three numbers that are read off the bits of any number: its sign, its exponent and its
/// fraction make up the bits again, and say which numbers may stand in a progress line.
pub proof fn law_bits_tell_the_number(bits: u64)
    ensures
        bits == (if crate::plugin_engine::js_value::sign_is_set(bits) {
            0x8000_0000_0000_0000int
        } else {
            0
        }) + crate::plugin_engine::js_value::exponent_field(bits) * 0x10_0000_0000_0000
            + crate::plugin_engine::js_value::fraction_field(bits),
        0 <= crate::plugin_engine::js_value::exponent_field(bits) < 2048,
        0 <= crate::plugin_engine::js_value::fraction_field(bits) < 0x10_0000_0000_0000,
        may_be_used(bits) <==> crate::plugin_engine::js_value::is_finite_bits(bits) && (
        !crate::plugin_engine::js_value::sign_is_set(bits)
            || crate::plugin_engine::js_value::is_zero_bits(bits)),
        may_be_limit(bits) <==> crate::plugin_engine::js_value::is_finite_bits(bits)
            && !crate::plugin_engine::js_value::sign_is_set(bits)
            && !crate::plugin_engine::js_value::is_zero_bits(bits),
{
    let high: int = bits as int / 0x10_0000_0000_0000;
    assert(0 <= high < 4096);
}

/// A number is cut down to a whole one: it is no more than the number and less than one away
/// from it, as far as it can be counted, and zero for what is below zero or no number. Here
/// `s` is the significand and `e` the power of two that it is scaled by.
pub proof fn law_number_is_cut_down(n: Number, s: int, e: nat, r: u64)
    requires
        call_ensures(Number::to_unsigned, (&n,), r),
    ensures
        n.bits >= 0x8000_0000_0000_0000 ==> r == 0,
        n.bits < 0x3ff0_0000_0000_0000 ==> r == 0,
        0x43f0_0000_0000_0000 <= n.bits <= 0x7ff0_0000_0000_0000 ==> r == u64::MAX,
        0x7ff0_0000_0000_0000 < n.bits < 0x8000_0000_0000_0000 ==> r == 0,
        0x10_0000_0000_0000 <= s < 0x20_0000_0000_0000 && e < 64 && n.bits
            == 0x3ff0_0000_0000_0000 + e * 0x10_0000_0000_0000 + (s - 0x10_0000_0000_0000)
            ==> r * 0x10_0000_0000_0000 <= s * pow2(e) < (r + 1) * 0x10_0000_0000_0000,
{
    if 0x10_0000_0000_0000 <= s < 0x20_0000_0000_0000 && e < 64 && n.bits
        == 0x3ff0_0000_0000_0000 + e * 0x10_0000_0000_0000 + (s - 0x10_0000_0000_0000) {
        assert(crate::plugin_engine::js_value::exponent_field(n.bits) == 1023 + e);
        assert(crate::plugin_engine::js_value::fraction_field(n.bits) == s - 0x10_0000_0000_0000);
        crate::plugin_engine::js_value::lemma_scaled_fits(s, e);
        let product = s * pow2(e);
        assert(0 <= product / 0x10_0000_0000_0000 < 0x1_0000_0000_0000_0000);
    }
}

proof fn lemma_names_differ()
    ensures
        "percent"@ != "dollars"@,
        "percent"@ != "count"@,
        "dollars"@ != "count"@,
        "text"@ != "progress"@,
        "text"@ != "badge"@,
        "progress"@ != "badge"@,
        "percent"@.len() > 0,
        "dollars"@.len() > 0,
        "count"@.len() > 0,
        "text"@.len() > 0,
        "progress"@.len() > 0,
        "badge"@.len() > 0,
{
    reveal_strlit("percent");
    reveal_strlit("dollars");
    reveal_strlit("count");
    reveal_strlit("text");
    reveal_strlit("progress");
    reveal_strlit("badge");
    assert("percent"@[0] == 'p' && "dollars"@[0] == 'd' && "count"@[0] == 'c');
    assert("text"@[0] == 't' && "progress"@[0] == 'p' && "badge"@[0] == 'b');
}

/// True if the format of a progress line is one that can be shown with the limit.
pub open spec fn may_be_shown(line: LineObject, limit: Number) -> bool {
    line.format matches Some(format) && {
        ||| holds(format.kind, "percent"@) && limit.bits == 0x4059_0000_0000_0000
        ||| holds(format.kind, "dollars"@)
        ||| holds(format.kind, "count"@) && exists|suffix: Seq<char>| #[trigger]
            holds(format.suffix, suffix) && !is_blank(suffix)
    }
}

/// True if a line has two numbers that can stand in a progress line, and a format that can be
/// shown with them.
pub open spec fn has_usable_numbers(line: LineObject) -> bool {
    match (line.used, line.limit) {
        (
            Slot::Value(JsValue::Number(used)),
            Slot::Value(JsValue::Number(limit)),
        ) => may_be_used(used.bits) && may_be_limit(limit.bits) && may_be_shown(line, limit),
        _ => false,
    }
}

/// A progress line is shown as one exactly where it names two numbers, the first finite and
/// not below zero, the second finite and above zero, and a format that can be shown; what is
/// shown are these numbers, in this format, under this label.
pub proof fn law_progress_is_shown_as_given(line: &LineObject, idx: usize, r: MetricLine)
    requires
        call_ensures(parse_line, (line, idx), r),
    ensures
        r is Progress <==> holds(line.line_type, "progress"@) && has_usable_numbers(*line),
        r matches MetricLine::Progress {
            label,
            used,
            limit,
            format,
            resets_at,
            period_duration_ms,
            color,
        } ==> {
            &&& shows(label, line.label)
            &&& shows_if_any(color, line.color)
            &&& line.used == Slot::Value(JsValue::Number(used))
            &&& line.limit == Slot::Value(JsValue::Number(limit))
            &&& line.format matches Some(given) && match format {
                ProgressFormat::Percent => holds(given.kind, "percent"@) && limit.bits
                    == 0x4059_0000_0000_0000,
                ProgressFormat::Dollars => holds(given.kind, "dollars"@),
                ProgressFormat::Count { suffix } => holds(given.kind, "count"@)
                    && suffix@.len() > 0 && (given.suffix matches Slot::Value(JsValue::Text(own))
                    && suffix@ == trimmed(own@)),
            }
            &&& period_duration_ms matches Some(ms) ==> ms > 0
        },
{
    lemma_names_differ();
    if let Slot::Value(JsValue::Number(used)) = line.used {
        law_bits_tell_the_number(used.bits);
    }
    if let Slot::Value(JsValue::Number(limit)) = line.limit {
        law_bits_tell_the_number(limit.bits);
    }
    if let Some(format) = line.format {
        if let Slot::Value(JsValue::Text(own)) = format.suffix {
            assert(holds(format.suffix, own@));
        }
    }
}

/// Dollars stay dollars, counts stay counts, and only what is called a percentage is one.
pub proof fn law_format_is_the_named_one(line: &LineObject, idx: usize, r: MetricLine)
    requires
        call_ensures(parse_line, (line, idx), r),
        r is Progress,
    ensures
        line.format matches Some(given) && r matches MetricLine::Progress { format, .. } && {
            &&& holds(given.kind, "dollars"@) <==> format is Dollars
            &&& holds(given.kind, "count"@) <==> format is Count
            &&& holds(given.kind, "percent"@) <==> format is Percent
        },
{
    lemma_names_differ();
    law_progress_is_shown_as_given(line, idx, r);
}

/// The time of a reset is shown where the text without the white space around it is a time,
/// as it stands; and where it becomes one with the letter `Z` behind it, with that letter,
/// unless a letter, a plus or a minus says already of which zone it is. Nothing that is shown
/// is not a time.
pub proof fn law_reset_is_a_time(line: &LineObject, idx: usize, raw: String, r: MetricLine)
    requires
        call_ensures(parse_line, (line, idx), r),
        r is Progress,
    ensures
        r matches MetricLine::Progress { resets_at, .. } && {
            &&& resets_at matches Some(time) ==> rfc3339_nanos(time@) is Some
            &&& line.resets_at == Slot::Value(JsValue::Text(raw)) && trimmed(raw@).len() > 0
                && rfc3339_nanos(trimmed(raw@)) is Some ==> (resets_at matches Some(time)
                && time@ == trimmed(raw@))
            &&& line.resets_at == Slot::Value(JsValue::Text(raw)) && rfc3339_nanos(
                trimmed(raw@),
            ) is None ==> (resets_at matches Some(time) ==> time@ == trimmed(raw@) + "Z"@)
            &&& !(line.resets_at matches Slot::Value(JsValue::Text(_))) ==> resets_at is None
        },
{
    lemma_names_differ();
}

/// The time of a reset, given which texts are times: a time that names its zone, or that is
/// one already, is never changed; one that lacks a zone, behind its first `T`, gets it.
pub proof fn law_zone_is_added_where_it_lacks(
    value: &str,
    date: Seq<char>,
    time: Seq<char>,
    is_time: bool,
    is_utc_time: bool,
    r: Option<String>,
)
    requires
        call_ensures(choose_reset, (value, is_time, is_utc_time), r),
        value@ == date + seq!['T'] + time,
        !date.contains('T'),
    ensures
        is_time ==> (r matches Some(shown) && shown@ == value@),
        !is_time && is_utc_time && !time.contains('+') && !time.contains('-') && (time.len() == 0
            || time.last() != 'Z') ==> (r matches Some(shown) && shown@ == value@ + "Z"@),
        !is_time && (!is_utc_time || time.contains('+') || time.contains('-') || (time.len() > 0
            && time.last() == 'Z')) ==> r is None,
{
    crate::text_laws::law_first_occurrence_parts(value@, date, time, 'T');
    assert(time.len() > 0 ==> value@.last() == time.last());
    assert(time.len() == 0 ==> value@.last() == 'T');
}

/// Lines of text and badges are shown with all that the script gave, and a line of a kind
/// that is not known is shown as an error that names it.
pub proof fn law_plain_lines_are_shown_as_given(line: &LineObject, idx: usize, r: MetricLine)
    requires
        call_ensures(parse_line, (line, idx), r),
    ensures
        r is Text <==> holds(line.line_type, "text"@),
        r matches MetricLine::Text { label, value, color, subtitle } ==> shows(label, line.label)
            && shows(value, line.value) && shows_if_any(color, line.color) && shows_if_any(
            subtitle,
            line.subtitle,
        ),
        holds(line.line_type, "badge"@) ==> (r matches MetricLine::Badge {
            label,
            text,
            color,
            subtitle,
        } && shows(label, line.label) && shows(text, line.text) && shows_if_any(color, line.color)
            && shows_if_any(subtitle, line.subtitle)),
        forall|kind: Seq<char>| #[trigger]
            holds(line.line_type, kind) && kind != "text"@ && kind != "progress"@ && kind
                != "badge"@ ==> is_error_badge(
                r,
                "unknown line type at index "@ + decimal(idx as nat) + ": "@ + kind,
            ),
        !(line.line_type matches Slot::Value(JsValue::Text(_))) ==> is_error_badge(
            r,
            "unknown line type at index "@ + decimal(idx as nat) + ": "@,
        ),
{
    lemma_names_differ();
    let said = "unknown line type at index "@ + decimal(idx as nat) + ": "@;
    assert(said + Seq::<char>::empty() =~= said);
}

/// What is wrong with a progress line is said in its place, with its index: first what is
/// wrong with the number that is used up, then with the limit, then with the format.
pub proof fn law_bad_progress_says_why(line: &LineObject, idx: usize, r: MetricLine)
    requires
        call_ensures(parse_line, (line, idx), r),
        holds(line.line_type, "progress"@),
    ensures
        ({
            let at = "progress line at index "@ + decimal(idx as nat);
            let used = line.used;
            let limit = line.limit;
            &&& used is Threw ==> is_error_badge(r, at + " missing used"@)
            &&& used is Value && !(used matches Slot::Value(JsValue::Number(_)))
                ==> is_error_badge(r, at + " invalid used (expected number)"@)
            &&& used matches Slot::Value(JsValue::Number(u)) ==> {
                &&& limit is Threw ==> is_error_badge(r, at + " missing limit"@)
                &&& limit is Value && !(limit matches Slot::Value(JsValue::Number(_)))
                    ==> is_error_badge(r, at + " invalid limit (expected number)"@)
                &&& limit matches Slot::Value(JsValue::Number(l)) ==> {
                    &&& !may_be_used(u.bits) ==> is_error_badge(
                        r,
                        at + (" invalid used: "@ + u.text@),
                    )
                    &&& may_be_used(u.bits) && !may_be_limit(l.bits) ==> is_error_badge(
                        r,
                        at + (" invalid limit: "@ + l.text@),
                    )
                    &&& may_be_used(u.bits) && may_be_limit(l.bits) ==> match line.format {
                        None => is_error_badge(r, at + " missing format"@),
                        Some(format) => {
                            &&& format.kind is Threw ==> is_error_badge(
                                r,
                                at + " missing format.kind"@,
                            )
                            &&& format.kind matches Slot::Value(kind) ==> !(kind is Text) && !(
                            kind is BrokenText) ==> is_error_badge(
                                r,
                                at + " invalid format.kind (expected string)"@,
                            )
                            &&& holds(format.kind, "percent"@) && l.bits != 0x4059_0000_0000_0000
                                ==> is_error_badge(
                                r,
                                at + (": percent format requires limit=100 (got "@ + l.text@
                                    + ")"@),
                            )
                            &&& holds(format.kind, "count"@) && format.suffix is Threw
                                ==> is_error_badge(r, at + ": count format missing suffix"@)
                            &&& holds(format.kind, "count"@) ==> (
                            format.suffix matches Slot::Value(suffix) ==> !(suffix is Text) && !(
                            suffix is BrokenText) ==> is_error_badge(
                                r,
                                at + ": count format suffix must be a string"@,
                            ))
                            &&& forall|suffix: Seq<char>|
                                holds(format.kind, "count"@) && #[trigger] holds_any(
                                    format.suffix,
                                    suffix,
                                ) && is_blank(suffix) ==> is_error_badge(
                                    r,
                                    at + ": count format suffix must be non-empty"@,
                                )
                            &&& forall|kind: Seq<char>| #[trigger]
                                holds_any(format.kind, kind) && kind != "percent"@ && kind
                                    != "dollars"@ && kind != "count"@ ==> is_error_badge(
                                    r,
                                    at + (" invalid format.kind: "@ + kind),
                                )
                        },
                    }
                }
            }
        }),
{
    lemma_names_differ();
    if let Slot::Value(JsValue::Number(used)) = line.used {
        law_bits_tell_the_number(used.bits);
    }
    if let Slot::Value(JsValue::Number(limit)) = line.limit {
        law_bits_tell_the_number(limit.bits);
    }
    assert(forall|text: Seq<char>| text.len() == 0 ==> text =~= Seq::<char>::empty());
}

/// Lines in a list are shown as each of them is alone, one for one and in order, as long as
/// all elements are lines; otherwise the first that is none is named.
pub proof fn law_lines_are_shown_one_by_one(
    lines: &Option<Vec<Option<LineObject>>>,
    i: int,
    alone: MetricLine,
    r: Result<Vec<MetricLine>, String>,
)
    requires
        call_ensures(parse_lines, (lines,), r),
    ensures
        lines is None ==> (r matches Err(message) && message@ == "missing lines"@),
        lines matches Some(list) ==> {
            &&& r is Ok <==> forall|k: int|
                0 <= k < list@.len() ==> #[trigger] list@[k] is Some
            &&& r matches Ok(shown) ==> shown@.len() == list@.len() && (0 <= i < list@.len()
                && call_ensures(parse_line, (&list@[i].unwrap(), i as usize), alone)
                && i <= usize::MAX ==> shown@[i]@ == alone@)
            &&& 0 <= i < list@.len() && list@[i] is None && (forall|k: int|
                0 <= k < i ==> #[trigger] list@[k] is Some) ==> (r matches Err(message) && message@
                == "invalid line at index "@ + decimal(i as nat))
        },
{
    if let Some(list) = lines {
        crate::plugin_engine::lines::law_each_line_is_reported(list@);
        if let Ok(shown) = r {
            let views = crate::plugin_engine::output::line_views(shown@);
            if 0 <= i < list@.len() {
                assert(views[i] == shown@[i]@);
            }
        }
        if 0 <= i < list@.len() && list@[i] is None && (forall|k: int|
            0 <= k < i ==> #[trigger] list@[k] is Some) {
            let head = list@.take(i);
            let next = list@.take(i + 1);
            crate::plugin_engine::lines::law_each_line_is_reported(head);
            assert(next.drop_last() =~= head);
            crate::plugin_engine::lines::lemma_first_complaint_stays(list@, i + 1);
        }
    }
}

/// Lines that look the same are the same, in every part.
pub proof fn law_lines_are_known_by_their_looks(a: MetricLine, b: MetricLine)
    requires
        a@ == b@,
    ensures
        match (a, b) {
            (
                MetricLine::Text { label, value, color, subtitle },
                MetricLine::Text { label: l, value: v, color: c, subtitle: s },
            ) => label@ == l@ && value@ == v@ && opt_view(color) == opt_view(c) && opt_view(
                subtitle,
            ) == opt_view(s),
            (
                MetricLine::Badge { label, text, color, subtitle },
                MetricLine::Badge { label: l, text: t, color: c, subtitle: s },
            ) => label@ == l@ && text@ == t@ && opt_view(color) == opt_view(c) && opt_view(
                subtitle,
            ) == opt_view(s),
            (
                MetricLine::Progress {
                    label,
                    used,
                    limit,
                    format,
                    resets_at,
                    period_duration_ms,
                    color,
                },
                MetricLine::Progress {
                    label: l,
                    used: u,
                    limit: m,
                    format: f,
                    resets_at: t,
                    period_duration_ms: p,
                    color: c,
                },
            ) => label@ == l@ && used == u && limit == m && opt_view(resets_at) == opt_view(t)
                && period_duration_ms == p && opt_view(color) == opt_view(c) && match (format, f) {
                (ProgressFormat::Percent, ProgressFormat::Percent) => true,
                (ProgressFormat::Dollars, ProgressFormat::Dollars) => true,
                (
                    ProgressFormat::Count { suffix },
                    ProgressFormat::Count { suffix: other },
                ) => suffix@ == other@,
                _ => false,
            },
            _ => false,
        },
{
}

/// A report holds an error exactly where one of its lines is a badge called so.
pub proof fn law_error_is_a_badge(output: &PluginOutput, r: bool)
    requires
        call_ensures(has_error_line, (output,), r),
    ensures
        r <==> exists|i: int|
            0 <= i < output.lines@.len() && (#[trigger] output.lines@[i] matches MetricLine::Badge {
                label,
                ..
            } && label@ == "Error"@),
{
    let seen = output@.lines;
    assert forall|i: int| 0 <= i < output.lines@.len() implies #[trigger] output.lines@[i]@
        == seen[i] by {}
    if r {
        let i = choose|i: int|
            0 <= i < seen.len() && #[trigger] crate::plugin_engine::output::is_error_line(seen[i]);
        assert(output.lines@[i]@ == seen[i]);
    }
    assert forall|i: int|
        0 <= i < output.lines@.len() && (#[trigger] output.lines@[i] matches MetricLine::Badge {
            label,
            ..
        } && label@ == "Error"@) implies r by {
        assert(output.lines@[i]@ == seen[i]);
        assert(crate::plugin_engine::output::is_error_line(seen[i]));
    }
}

/// An error is shown as a red badge with the message.
pub proof fn law_error_line_is_a_red_badge(message: String, r: MetricLine)
    requires
        call_ensures(error_line, (message,), r),
    ensures
        is_error_badge(r, message@),
{
}

/// A line as text names its label, and then its value, its text, or how much of how much.
pub proof fn law_line_is_written_out(line: &MetricLine, r: String)
    requires
        call_ensures(MetricLine::display, (line,), r),
    ensures
        r@ == match *line {
            MetricLine::Text { label, value, .. } => label@ + ": "@ + value@,
            MetricLine::Badge { label, text, .. } => label@ + ": "@ + text@,
            MetricLine::Progress { label, used, limit, .. } => label@ + ": "@ + used.text@ + "/"@
                + limit.text@,
        },
{
}

/// A user is told what a script threw, without the white space around it: the text, or else
/// the message of the object, or else its name; and otherwise that the plugin failed.
pub proof fn law_failure_is_told(caught: &Caught, r: String)
    requires
        call_ensures(extract_error_string, (caught,), r),
    ensures
        *caught matches Caught::Text(text) ==> !is_blank(text@) ==> r@ == trimmed(text@),
        *caught matches Caught::Object { message, .. } ==> forall|text: Seq<char>| #[trigger]
            holds(message, text) && !is_blank(text) ==> r@ == trimmed(text),
        *caught matches Caught::Object { message, name, .. } ==> forall|text: Seq<char>| #[trigger]
            holds(name, text) && !is_blank(text) && !(exists|said: Seq<char>| #[trigger]
                holds(message, said) && !is_blank(said)) ==> r@ == trimmed(text),
        (match *caught {
            Caught::Text(text) => is_blank(text@),
            Caught::Object { message, name, .. } => !(exists|said: Seq<char>| #[trigger]
                holds(message, said) && !is_blank(said)) && !(exists|said: Seq<char>| #[trigger]
                holds(name, said) && !is_blank(said)),
            _ => true,
        }) ==> r@ == "The plugin failed, try again or contact plugin author."@,
{
    if let Caught::Object { message, name, .. } = *caught {
        if let Slot::Value(JsValue::Text(own)) = message {
            assert(holds(message, own@));
        }
        if let Slot::Value(JsValue::Text(own)) = name {
            assert(holds(name, own@));
        }
    }
}

/// What a property holds is read as it is: nothing where reading it threw, and nothing of
/// another kind.
pub proof fn law_property_is_read_as_it_is(
    slot: &Slot,
    threw: bool,
    absent: bool,
    text: Option<String>,
    shown: String,
    any: Option<String>,
    number: Option<Number>,
)
    requires
        call_ensures(Slot::threw, (slot,), threw),
        call_ensures(Slot::absent, (slot,), absent),
        call_ensures(Slot::text, (slot,), text),
        call_ensures(Slot::text_or_empty, (slot,), shown),
        call_ensures(Slot::any_text, (slot,), any),
        call_ensures(Slot::number, (slot,), number),
    ensures
        threw <==> *slot is Threw,
        absent <==> (*slot matches Slot::Value(value) && (value is Undefined || value is Null)),
        shows_if_any(text, *slot),
        shows(shown, *slot),
        any is Some <==> (*slot matches Slot::Value(value) && (value is Text
            || value is BrokenText)),
        any matches Some(own) ==> holds_any(*slot, own@),
        number is Some <==> (*slot matches Slot::Value(value) && value is Number),
        number matches Some(own) ==> *slot == Slot::Value(JsValue::Number(own)),
{
}

/// Which numbers are finite, below zero, not above zero, and one hundred: their bits tell.
/// Here `e` and `f` are the exponent and the fraction of a number.
pub proof fn law_numbers_are_told_apart(
    n: &Number,
    negative: bool,
    e: int,
    f: int,
    finite: bool,
    below: bool,
    not_above: bool,
    hundred: bool,
)
    requires
        call_ensures(Number::is_finite, (n,), finite),
        call_ensures(Number::is_below_zero, (n,), below),
        call_ensures(Number::is_zero_or_below, (n,), not_above),
        call_ensures(Number::is_hundred, (n,), hundred),
        0 <= e < 2048,
        0 <= f < 0x10_0000_0000_0000,
        n.bits == (if negative {
            0x8000_0000_0000_0000int
        } else {
            0
        }) + e * 0x10_0000_0000_0000 + f,
    ensures
        finite <==> e != 2047,
        below <==> negative && e != 2047 && (e != 0 || f != 0),
        not_above <==> e != 2047 && (negative || (e == 0 && f == 0)),
        hundred <==> !negative && e == 1029 && f == 0x9_0000_0000_0000,
{
    let high: int = n.bits as int / 0x10_0000_0000_0000;
    if negative {
        assert(high == 2048 + e);
    } else {
        assert(high == e);
    }
    assert(n.bits as int % 0x10_0000_0000_0000 == f);
}

/// A time lacks its zone where nothing behind its first `T` names one.
pub proof fn law_zone_is_missed(value: &str, date: Seq<char>, time: Seq<char>, r: bool)
    requires
        call_ensures(is_missing_zone, (value,), r),
    ensures
        !value@.contains('T') ==> !r,
        value@ == date + seq!['T'] + time && !date.contains('T') ==> (r <==> !time.contains('+')
            && !time.contains('-') && (time.len() == 0 || time.last() != 'Z')),
{
    if !value@.contains('T') {
        crate::text_laws::law_missing_character_parts_nothing(value@, 'T');
    }
    if value@ == date + seq!['T'] + time && !date.contains('T') {
        crate::text_laws::law_first_occurrence_parts(value@, date, time, 'T');
        assert(time.len() > 0 ==> value@.last() == time.last());
        assert(time.len() == 0 ==> value@.last() == 'T');
    }
}

} // verus!
