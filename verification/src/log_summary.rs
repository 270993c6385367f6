//! What is logged of the first run of the plugins.

use crate::daemon::CachedPluginSnapshot;
use crate::plugin_engine::output::MetricLine;
use crate::text::{chars_of, decimal_text, same_ignoring_case};
use crate::text_order::ordered_places;
use vstd::prelude::*;

verus! {

/// How many characters of a text are logged.
pub const LOG_TEXT_LIMIT: usize = 160;

/// The text of the first badge that is labelled as an error.
pub open spec fn first_error(lines: Seq<crate::plugin_engine::output::LineView>) -> Option<
    Seq<char>,
>
    decreases lines.len(),
{
    if lines.len() == 0 {
        None
    } else {
        match lines[0] {
            crate::plugin_engine::output::LineView::Badge { label, text, color, subtitle } =>
                if crate::text::lowered(label) == crate::text::lowered("error"@) {
                    Some(text)
                } else {
                    first_error(lines.drop_first())
                },
            _ => first_error(lines.drop_first()),
        }
    }
}

/// The error that a snapshot reports, if it does.
pub fn snapshot_error(snapshot: &CachedPluginSnapshot) -> (r: Option<String>)
    ensures
        crate::text::opt_view(r) == first_error(snapshot@.lines),
{
    let ghost all = snapshot@.lines;
    let mut i: usize = 0;
    assert(all.skip(0) =~= all);
    while i < snapshot.lines.len()
        invariant
            i <= snapshot.lines@.len(),
            all == crate::plugin_engine::output::line_views(snapshot.lines@),
            all == snapshot@.lines,
            first_error(all) == first_error(all.skip(i as int)),
        decreases snapshot.lines@.len() - i,
    {
        let ghost rest = all.skip(i as int);
        assert(rest[0] == snapshot.lines@[i as int]@);
        assert(rest.drop_first() =~= all.skip(i + 1));
        match &snapshot.lines[i] {
            MetricLine::Badge { label, text, color, subtitle } => {
                if same_ignoring_case(label.as_str(), "error") {
                    return Some(text.clone());
                }
            },
            _ => {},
        }
        i = i + 1;
    }
    assert(all.skip(all.len() as int).len() == 0);
    None
}

/// A text as it is logged: cut after so many characters, and a dash where it is empty.
pub open spec fn truncated(value: Seq<char>, max_chars: nat) -> Seq<char> {
    if max_chars == 0 {
        Seq::empty()
    } else if value.len() > max_chars {
        value.take(max_chars as int) + "..."@
    } else if value.len() == 0 {
        "-"@
    } else {
        value
    }
}

/// A text as it is logged.
pub fn truncate_for_log(value: &str, max_chars: usize) -> (r: String)
    ensures
        r@ == truncated(value@, max_chars as nat),
{
    if max_chars == 0 {
        return String::new();
    }
    let chars = chars_of(value);
    if chars.len() == 0 {
        return "-".to_string();
    }
    if chars.len() <= max_chars {
        return value.to_string();
    }
    let mut out = String::new();
    let mut i: usize = 0;
    assert(out@ =~= value@.take(0));
    while i < max_chars
        invariant
            i <= max_chars < chars@.len(),
            chars@ == value@,
            out@ == value@.take(i as int),
        decreases max_chars - i,
    {
        out.push(chars[i]);
        assert(value@.take(i + 1) =~= value@.take(i as int).push(value@[i as int]));
        i = i + 1;
    }
    out.append("...");
    out
}

/// A logged text is never empty and never much longer than the limit.
pub proof fn law_logged_text_is_bounded(value: Seq<char>, max_chars: nat)
    ensures
        max_chars > 0 ==> 0 < truncated(value, max_chars).len() <= max_chars + 3,
        max_chars == 0 ==> truncated(value, max_chars).len() == 0,
{
    reveal_strlit("...");
    reveal_strlit("-");
}

/// What is logged of a snapshot.
pub open spec fn summary_row(snapshot: crate::daemon::SnapshotView) -> Seq<char> {
    let error = first_error(snapshot.lines);
    let detail = match error {
        Some(message) => truncated(message, LOG_TEXT_LIMIT as nat),
        None => match snapshot.plan {
            Some(plan) => truncated("plan="@ + plan, LOG_TEXT_LIMIT as nat),
            None => "ready"@,
        },
    };
    "plugin init: plugin="@ + snapshot.provider_id + " status="@ + (if error is Some {
        "ERROR"@
    } else {
        "OK"@
    }) + " lines="@ + crate::text::decimal(snapshot.lines.len()) + " info="@ + detail
}

/// What is logged of snapshots.
pub open spec fn summary_rows(snapshots: Seq<crate::daemon::SnapshotView>) -> Seq<Seq<char>> {
    snapshots.map_values(|s: crate::daemon::SnapshotView| summary_row(s))
}

/// The providers of snapshots.
pub open spec fn providers_of(snapshots: Seq<crate::daemon::SnapshotView>) -> Seq<Seq<char>> {
    snapshots.map_values(|s: crate::daemon::SnapshotView| s.provider_id)
}

/// The texts in some places of a list.
pub open spec fn texts_at(texts: Seq<Seq<char>>, places: Seq<int>) -> Seq<Seq<char>> {
    places.map_values(|p: int| texts[p])
}

fn row_of(snapshot: &CachedPluginSnapshot) -> (r: String)
    ensures
        r@ == summary_row(snapshot@),
{
    let error = snapshot_error(snapshot);
    let mut out = "plugin init: plugin=".to_string();
    out.append(snapshot.provider_id.as_str());
    out.append(" status=");
    let detail = match &error {
        Some(message) => {
            out.append("ERROR");
            truncate_for_log(message.as_str(), LOG_TEXT_LIMIT)
        },
        None => {
            out.append("OK");
            match &snapshot.plan {
                Some(plan) => {
                    let mut text = "plan=".to_string();
                    text.append(plan.as_str());
                    truncate_for_log(text.as_str(), LOG_TEXT_LIMIT)
                },
                None => "ready".to_string(),
            }
        },
    };
    out.append(" lines=");
    let count = decimal_text(snapshot.lines.len() as u128);
    out.append(count.as_str());
    out.append(" info=");
    out.append(detail.as_str());
    out
}

fn append_in_order(lines: &mut Vec<String>, texts: &Vec<String>, order: &Vec<usize>)
    requires
        forall|k: int| 0 <= k < order@.len() ==> #[trigger] order@[k] < texts@.len(),
    ensures
        crate::text::views(final(lines)@) == crate::text::views(old(lines)@) + texts_at(
            crate::text::views(texts@),
            order@.map_values(|p: usize| p as int),
        ),
{
    let ghost start = crate::text::views(lines@);
    let ghost places = order@.map_values(|p: usize| p as int);
    let ghost all = texts_at(crate::text::views(texts@), places);
    let mut k: usize = 0;
    assert(crate::text::views(lines@) =~= start + all.take(0));
    while k < order.len()
        invariant
            k <= order@.len(),
            places == order@.map_values(|p: usize| p as int),
            all == texts_at(crate::text::views(texts@), places),
            forall|j: int| 0 <= j < order@.len() ==> #[trigger] order@[j] < texts@.len(),
            crate::text::views(lines@) == start + all.take(k as int),
        decreases order@.len() - k,
    {
        let ghost before = lines@;
        assert(places[k as int] == order@[k as int] as int);
        lines.push(texts[order[k]].clone());
        assert(crate::text::views(lines@) =~= crate::text::views(before).push(all[k as int]));
        assert(start + all.take(k + 1) =~= (start + all.take(k as int)).push(all[k as int]));
        k = k + 1;
    }
    assert(all.take(all.len() as int) =~= all);
}

/// What is logged after the first run: a heading, and a line for each snapshot in the order of
/// their providers.
pub fn plugin_initialization_summary(snapshots: &Vec<CachedPluginSnapshot>) -> (r: Vec<String>)
    ensures
        ({
            let all = crate::daemon::snapshot_views(snapshots@);
            let heading = "plugin initialization summary: total="@ + crate::text::decimal(
                all.len(),
            ) + " (one line per plugin follows)"@;
            exists|places: Seq<int>| #[trigger]
                crate::text_order::is_order(providers_of(all), places) && crate::text::views(r@)
                    == seq![heading] + texts_at(summary_rows(all), places)
        }),
{
    let ghost all = crate::daemon::snapshot_views(snapshots@);
    let mut keys: Vec<String> = Vec::new();
    let mut rows: Vec<String> = Vec::new();
    let mut i: usize = 0;
    assert(crate::text::views(keys@) =~= providers_of(all).take(0));
    assert(crate::text::views(rows@) =~= summary_rows(all).take(0));
    while i < snapshots.len()
        invariant
            i <= snapshots@.len(),
            all == crate::daemon::snapshot_views(snapshots@),
            crate::text::views(keys@) == providers_of(all).take(i as int),
            crate::text::views(rows@) == summary_rows(all).take(i as int),
        decreases snapshots@.len() - i,
    {
        let ghost old_keys = keys@;
        let ghost old_rows = rows@;
        assert(all[i as int] == snapshots@[i as int]@);
        keys.push(snapshots[i].provider_id.clone());
        rows.push(row_of(&snapshots[i]));
        assert(crate::text::views(keys@) =~= crate::text::views(old_keys).push(
            all[i as int].provider_id,
        ));
        assert(crate::text::views(rows@) =~= crate::text::views(old_rows).push(
            summary_row(all[i as int]),
        ));
        assert(providers_of(all).take(i + 1) =~= providers_of(all).take(i as int).push(
            all[i as int].provider_id,
        ));
        assert(summary_rows(all).take(i + 1) =~= summary_rows(all).take(i as int).push(
            summary_row(all[i as int]),
        ));
        i = i + 1;
    }
    assert(providers_of(all).take(all.len() as int) =~= providers_of(all));
    assert(summary_rows(all).take(all.len() as int) =~= summary_rows(all));
    assert(crate::text::views(rows@).len() == rows@.len());
    let order = ordered_places(&keys);
    let ghost places = order@.map_values(|p: usize| p as int);
    assert(crate::text_order::is_order(providers_of(all), places));
    assert forall|k: int| 0 <= k < order@.len() implies #[trigger] order@[k] < rows@.len() by {
        assert(places[k] == order@[k] as int);
    }
    let mut heading = "plugin initialization summary: total=".to_string();
    let count = decimal_text(snapshots.len() as u128);
    heading.append(count.as_str());
    heading.append(" (one line per plugin follows)");
    let mut lines: Vec<String> = Vec::new();
    let ghost first = heading@;
    lines.push(heading);
    assert(crate::text::views(lines@) =~= seq![first]);
    append_in_order(&mut lines, &rows, &order);
    lines
}

/// What is logged of a plugin that did not run.
pub open spec fn failure_row(plugin_id: Seq<char>, reason: Seq<char>) -> Seq<char> {
    "plugin init: plugin="@ + plugin_id
        + " status=REFRESH_NOT_AVAILABLE info=initial refresh failed: "@ + reason
}

/// What is logged of plugins that did not run.
pub open spec fn failure_rows(plugin_ids: Seq<Seq<char>>, reason: Seq<char>) -> Seq<Seq<char>> {
    plugin_ids.map_values(|id: Seq<char>| failure_row(id, reason))
}

/// What is logged if the first run failed as a whole: a heading, and a line for each plugin in
/// order.
pub fn plugin_initialization_failure_summary(plugin_ids: &Vec<String>, error: &str) -> (r: Vec<
    String,
>)
    ensures
        ({
            let reason = truncated(error@, LOG_TEXT_LIMIT as nat);
            let heading =
                "plugin initialization summary: initial refresh failed before per-plugin results: "@
                + reason;
            let ids = crate::text::views(plugin_ids@);
            exists|places: Seq<int>| #[trigger]
                crate::text_order::is_order(ids, places) && crate::text::views(r@) == seq![heading]
                    + texts_at(failure_rows(ids, reason), places)
        }),
{
    let reason = truncate_for_log(error, LOG_TEXT_LIMIT);
    let ghost ids = crate::text::views(plugin_ids@);
    let ghost all = failure_rows(ids, reason@);
    let mut rows: Vec<String> = Vec::new();
    let mut i: usize = 0;
    assert(crate::text::views(rows@) =~= all.take(0));
    while i < plugin_ids.len()
        invariant
            i <= plugin_ids@.len(),
            ids == crate::text::views(plugin_ids@),
            all == failure_rows(ids, reason@),
            crate::text::views(rows@) == all.take(i as int),
        decreases plugin_ids@.len() - i,
    {
        let ghost before = rows@;
        let mut row = "plugin init: plugin=".to_string();
        row.append(plugin_ids[i].as_str());
        row.append(" status=REFRESH_NOT_AVAILABLE info=initial refresh failed: ");
        row.append(reason.as_str());
        assert(row@ == all[i as int]);
        rows.push(row);
        assert(crate::text::views(rows@) =~= crate::text::views(before).push(all[i as int]));
        assert(all.take(i + 1) =~= all.take(i as int).push(all[i as int]));
        i = i + 1;
    }
    assert(all.take(all.len() as int) =~= all);
    assert(crate::text::views(rows@).len() == rows@.len());
    let order = ordered_places(plugin_ids);
    let ghost places = order@.map_values(|p: usize| p as int);
    assert forall|k: int| 0 <= k < order@.len() implies #[trigger] order@[k] < rows@.len() by {
        assert(places[k] == order@[k] as int);
    }
    let mut heading =
        "plugin initialization summary: initial refresh failed before per-plugin results: ".to_string();
    heading.append(reason.as_str());
    let mut lines: Vec<String> = Vec::new();
    let ghost first = heading@;
    lines.push(heading);
    assert(crate::text::views(lines@) =~= seq![first]);
    append_in_order(&mut lines, &rows, &order);
    lines
}

} // verus!
