//! What systemd is told, and what is logged.

use crate::daemon::CachedPluginSnapshot;
use crate::http_laws::{is_same_word, law_case_does_not_matter};
use crate::instance_control::ServiceMode;
use crate::lexical_path::{written_texts, LexicalPath};
use crate::log_summary::{
    failure_rows, first_error, plugin_initialization_failure_summary, plugin_initialization_summary,
    snapshot_error, summary_row, summary_rows, truncate_for_log,
};
use crate::net::{IpAddress, SocketAddress};
use crate::option_laws::is_written_below;
use crate::plugin_engine::output::{line_views, LineView, MetricLine};
use crate::startup_laws::reads_as;
use crate::systemd::{
    build_systemd_unit, escaped, http_readiness_probe_addr, is_plain_text, plan_unit_install,
    quote_systemd_argument, readiness_step_after, readiness_step_at, readiness_url,
    required_unit_dirs, socket_address_text, systemd_exec_start, systemd_unit_install_message,
    systemd_watchdog_ping_interval, ReadinessStep, UnitInstall, STARTUP_READINESS_TIMEOUT_SECS,
};
use crate::text::{decimal, opt_view, views};
use crate::text_laws::law_trimming_takes_the_ends;
use crate::text_order::{is_order, law_order_is_irreflexive, law_order_is_transitive, text_less};
use vstd::prelude::*;

verus! {

/// True for characters that stand in a unit as they are.
pub open spec fn stands_as_it_is(c: char) -> bool {
    ||| 'a' <= c <= 'z'
    ||| 'A' <= c <= 'Z'
    ||| '0' <= c <= '9'
    ||| c == '/' || c == '.' || c == '_' || c == '-' || c == ':' || c == '=' || c == ','
}

/// An argument of such characters is written as it is; any other stands in quotation marks.
pub proof fn law_strange_arguments_are_quoted(value: &str, r: String)
    requires
        call_ensures(quote_systemd_argument, (value,), r),
    ensures
        (forall|i: int| 0 <= i < value@.len() ==> stands_as_it_is(#[trigger] value@[i])) ==> r@
            == value@,
        (exists|i: int| 0 <= i < value@.len() && !stands_as_it_is(#[trigger] value@[i])) ==> r@
            == seq!['"'] + escaped(value@) + seq!['"'],
{
    if forall|i: int| 0 <= i < value@.len() ==> stands_as_it_is(#[trigger] value@[i]) {
        assert(is_plain_text(value@));
    }
    if exists|i: int| 0 <= i < value@.len() && !stands_as_it_is(#[trigger] value@[i]) {
        let i = choose|i: int| 0 <= i < value@.len() && !stands_as_it_is(#[trigger] value@[i]);
        assert(!crate::systemd::is_plain_char(value@[i]));
        assert(!is_plain_text(value@));
    }
}

/// Between quotation marks a backslash comes before each backslash and each quotation mark,
/// and before nothing else.
pub proof fn law_only_quotes_and_backslashes_are_escaped(s: Seq<char>, c: char)
    ensures
        escaped(Seq::empty()) == Seq::<char>::empty(),
        c == '"' || c == '\\' ==> escaped(s.push(c)) == escaped(s) + seq!['\\', c],
        c != '"' && c != '\\' ==> escaped(s.push(c)) == escaped(s) + seq![c],
{
    assert(s.push(c).drop_last() =~= s);
    assert(escaped(Seq::empty()) =~= Seq::<char>::empty());
    if c == '"' || c == '\\' {
        assert(escaped(s.push(c)) =~= escaped(s) + seq!['\\', c]);
    } else {
        assert(escaped(s.push(c)) =~= escaped(s) + seq![c]);
    }
}

/// A unit runs the program as a daemon in front, started by systemd, that logs what happens.
pub proof fn law_unit_runs_the_daemon(
    executable: &str,
    argument: String,
    command: String,
    text: &str,
    unit: String,
)
    requires
        call_ensures(quote_systemd_argument, (executable,), argument),
        call_ensures(systemd_exec_start, (executable,), command),
        text@ == command@,
        call_ensures(build_systemd_unit, (text,), unit),
    ensures
        command@ == argument@
            + " run-daemon --foreground=true --service-mode=systemd --log-level=info"@,
        unit@
            == "[Unit]\nDescription=OpenUsage CLI daemon\nAfter=network.target\n\n[Service]\nType=notify\nNotifyAccess=main\nWatchdogSec=30s\nTimeoutStartSec=120s\nExecStart="@
            + command@
            + "\nRestart=on-failure\nRestartSec=2s\nSuccessExitStatus=75\nRestartForceExitStatus=75\n\n[Install]\nWantedBy=default.target\n"@,
{
}

/// The user is told what was written and what to do next.
pub proof fn law_user_is_told_what_was_written(path: &LexicalPath, existed: bool, r: String)
    requires
        call_ensures(systemd_unit_install_message, (path, existed), r),
    ensures
        existed ==> r@ == "Systemd user unit updated.\nUpdated files:\n  - "@ + path.written()
            + "\nNext commands to apply the updated unit:\n  - systemctl --user daemon-reload\n  - systemctl --user enable --now openusage-cli.service\n  - systemctl --user restart openusage-cli.service\n  - systemctl --user status openusage-cli.service\nService logs:\n  - journalctl --user -u openusage-cli.service -f\n"@,
        !existed ==> r@ == "Systemd user unit installed.\nCreated files:\n  - "@ + path.written()
            + "\nNext commands:\n  - systemctl --user daemon-reload\n  - systemctl --user enable --now openusage-cli.service\n  - systemctl --user status openusage-cli.service\nService logs:\n  - journalctl --user -u openusage-cli.service -f\n"@,
{
}

/// A unit is written below `.config/systemd/user` of the home, where all the directories on
/// the way are there; otherwise those that are missing are named.
pub proof fn law_unit_needs_its_directories(
    home: &LexicalPath,
    there: &[bool; 3],
    executable: &str,
    dirs: Vec<LexicalPath>,
    command: String,
    text: &str,
    unit: String,
    r: Result<UnitInstall, String>,
)
    requires
        call_ensures(required_unit_dirs, (home,), dirs),
        call_ensures(systemd_exec_start, (executable,), command),
        text@ == command@,
        call_ensures(build_systemd_unit, (text,), unit),
        call_ensures(plan_unit_install, (home, there, executable), r),
        home.written().len() > 0,
    ensures
        dirs@.len() == 3,
        is_written_below(dirs@[0], home.written(), ".config"@),
        is_written_below(dirs@[1], home.written(), ".config/systemd"@),
        is_written_below(dirs@[2], home.written(), ".config/systemd/user"@),
        r is Ok <==> there@[0] && there@[1] && there@[2],
        r matches Ok(planned) ==> planned.contents@ == unit@ && is_written_below(
            planned.path,
            home.written(),
            ".config/systemd/user/openusage-cli.service"@,
        ),
        r matches Err(message) ==> message@
            == "cannot install user systemd unit: required directories do not exist: "@
            + crate::text::joined(missing_of(dirs@, there@), ", "@),
{
    reveal_strlit(".config");
    reveal_strlit(".config/systemd");
    reveal_strlit(".config/systemd/user");
    reveal_strlit("openusage-cli.service");
    reveal_strlit(".config/systemd/user/openusage-cli.service");
    let texts = written_texts(dirs@);
    assert(texts.len() == dirs@.len());
    assert(texts[0] == dirs@[0].written() && texts[1] == dirs@[1].written() && texts[2]
        == dirs@[2].written());
    match r {
        Ok(planned) => {
            let inner = crate::lexical_path::joined_text(home.written(), ".config/systemd/user"@);
            assert(inner.last() == 'r');
            let whole = ".config/systemd/user/openusage-cli.service"@;
            if home.written().last() == '/' {
                assert(planned.path.written() =~= home.written() + whole);
            } else {
                assert(planned.path.written() =~= home.written() + seq!['/'] + whole);
            }
        },
        Err(_) => {
            let d1 = texts.drop_first();
            let t1 = there@.drop_first();
            let d2 = d1.drop_first();
            let t2 = t1.drop_first();
            let none = Seq::<Seq<char>>::empty();
            assert(crate::systemd::missing_dirs(d2.drop_first(), t2.drop_first()) =~= none);
            assert(d2[0] == texts[2] && t2[0] == there@[2]);
            assert(d1[0] == texts[1] && t1[0] == there@[1]);
            assert(crate::systemd::missing_dirs(d2, t2) =~= if there@[2] {
                none
            } else {
                seq![texts[2]]
            });
            let third = crate::systemd::missing_dirs(d2, t2);
            let second = crate::systemd::missing_dirs(d1, t1);
            assert(second == if there@[1] {
                third
            } else {
                seq![texts[1]] + third
            });
            assert(crate::systemd::missing_dirs(texts, there@) == if there@[0] {
                second
            } else {
                seq![texts[0]] + second
            });
            assert(crate::systemd::missing_dirs(texts, there@) =~= missing_of(dirs@, there@));
        },
    }
}

/// The texts of those of three directories that are not there, in their order.
pub open spec fn missing_of(dirs: Seq<LexicalPath>, there: Seq<bool>) -> Seq<Seq<char>> {
    let none = Seq::<Seq<char>>::empty();
    (if there[0] {
        none
    } else {
        seq![dirs[0].written()]
    }) + (if there[1] {
        none
    } else {
        seq![dirs[1].written()]
    }) + (if there[2] {
        none
    } else {
        seq![dirs[2].written()]
    })
}

/// A service is asked at the address and the port that it is bound to; one that is bound to
/// all addresses is asked at the own address of the machine.
pub proof fn law_service_is_asked_where_it_is(bound: &SocketAddress, all: bool, r: SocketAddress)
    requires
        call_ensures(http_readiness_probe_addr, (bound,), r),
        call_ensures(IpAddress::is_unspecified, (&bound.ip,), all),
    ensures
        r.port == bound.port,
        !all ==> r.ip == bound.ip,
        all && bound.ip is V4 ==> (r.ip matches IpAddress::V4 { octets } && octets@[0] == 127
            && octets@[1] == 0 && octets@[2] == 0 && octets@[3] == 1),
        all && bound.ip is V6 ==> (r.ip matches IpAddress::V6 { segments, text } && segments@[7]
            == 1 && text@ == "::1"@ && forall|i: int| 0 <= i < 7 ==> #[trigger] segments@[i] == 0),
{
}

/// An address is written with its port behind a colon; an IPv6 address stands in brackets.
pub proof fn law_address_is_written_with_its_port(addr: &SocketAddress, plain: String, r: String)
    requires
        call_ensures(IpAddress::text, (&addr.ip,), plain),
        call_ensures(socket_address_text, (addr,), r),
    ensures
        addr.ip is V4 ==> r@ == plain@ + ":"@ + decimal(addr.port as nat),
        addr.ip is V6 ==> r@ == "["@ + plain@ + "]:"@ + decimal(addr.port as nat),
{
    reveal_strlit("]:");
    reveal_strlit("]");
    reveal_strlit(":");
    if addr.ip is V6 {
        assert(r@ =~= "["@ + plain@ + "]:"@ + decimal(addr.port as nat));
    }
}

/// The service is asked for its health there.
pub proof fn law_health_is_asked_for(
    bound: &SocketAddress,
    reached: SocketAddress,
    address: String,
    r: String,
)
    requires
        call_ensures(http_readiness_probe_addr, (bound,), reached),
        call_ensures(socket_address_text, (&reached,), address),
        call_ensures(readiness_url, (bound,), r),
    ensures
        r@ == "http://"@ + address@ + "/health"@,
{
    let other = choose|other: SocketAddress| #[trigger]
        crate::systemd::is_probe_addr(*bound, other) && r@ == "http://"@
            + crate::systemd::socket_text(other) + "/health"@;
    assert(crate::systemd::socket_text(other) == crate::systemd::socket_text(reached));
}

/// As long as there is time the service is asked; after that its time is out. It is ready with
/// an answer of success, and else is asked again 50 milliseconds later.
pub proof fn law_readiness_is_awaited(
    url: &str,
    now: u64,
    deadline: u64,
    status: Option<u16>,
    at: ReadinessStep,
    after: ReadinessStep,
)
    requires
        call_ensures(readiness_step_at, (url, now, deadline), at),
        call_ensures(readiness_step_after, (status,), after),
    ensures
        now < deadline ==> at is Ask,
        now >= deadline ==> (at matches ReadinessStep::TimedOut(message) && message@
            == "timeout waiting for health endpoint "@ + url@ + " during daemon startup"@),
        status is None ==> after == ReadinessStep::Sleep(50),
        status matches Some(code) ==> 200 <= code <= 299 ==> after is Ready,
        status matches Some(code) ==> code < 200 || code > 299 ==> after == ReadinessStep::Sleep(
            50,
        ),
{
}

/// The service is given ten seconds to become ready.
pub proof fn law_service_has_ten_seconds(url: &str, now: u64, at: ReadinessStep)
    requires
        call_ensures(
            readiness_step_at,
            (url, now, (STARTUP_READINESS_TIMEOUT_SECS * 1000) as u64),
            at,
        ),
    ensures
        now < 10_000 ==> at is Ask,
        now >= 10_000 ==> at is TimedOut,
{
}

/// Signs of life are given where systemd started the daemon and says after how many
/// microseconds it gives up: after half of that time, but at least one microsecond.
pub proof fn law_signs_of_life_are_given(
    mode: ServiceMode,
    limit: &Option<String>,
    a: Seq<char>,
    t: Seq<char>,
    b: Seq<char>,
    r: Option<u64>,
)
    requires
        call_ensures(systemd_watchdog_ping_interval, (mode, limit), r),
        *limit matches Some(text) ==> reads_as(text@, a, t, b),
    ensures
        mode is Standalone ==> r is None,
        *limit is None ==> r is None,
        mode is Systemd && *limit is Some ==> (crate::text::number_of(t) matches Some(number) ==> {
            &&& number == 0 ==> r is None
            &&& number == 1 ==> r == Some(1u64)
            &&& number >= 2 ==> (r matches Some(interval) && 2 * interval <= number < 2 * interval
                + 2)
        }),
        mode is Systemd && *limit is Some && crate::text::number_of(t) is None ==> r is None,
{
    if *limit is Some {
        law_trimming_takes_the_ends(a, t, b);
    }
}

proof fn lemma_first_error(lines: Seq<LineView>, i: int)
    ensures
        0 <= i < lines.len() && is_error_line(lines[i]) && (forall|k: int|
            0 <= k < i ==> !is_error_line(#[trigger] lines[k])) ==> (
        lines[i] matches LineView::Badge { label, text, color, subtitle } && first_error(lines)
            == Some(text)),
        (forall|k: int| 0 <= k < lines.len() ==> !is_error_line(#[trigger] lines[k]))
            ==> first_error(lines) is None,
    decreases lines.len(),
{
    if lines.len() > 0 {
        let rest = lines.drop_first();
        match lines[0] {
            LineView::Badge { label, text, color, subtitle } => {
                law_case_does_not_matter(label, "error"@);
            },
            _ => {},
        }
        lemma_first_error(rest, i - 1);
        if 0 < i < lines.len() && is_error_line(lines[i]) && (forall|k: int|
            0 <= k < i ==> !is_error_line(#[trigger] lines[k])) {
            assert(!is_error_line(lines[0]));
            assert(rest[i - 1] == lines[i]);
            assert forall|k: int| 0 <= k < i - 1 implies !is_error_line(#[trigger] rest[k]) by {
                assert(!is_error_line(lines[k + 1]));
            }
        }
        if forall|k: int| 0 <= k < lines.len() ==> !is_error_line(#[trigger] lines[k]) {
            assert(!is_error_line(lines[0]));
            assert forall|k: int| 0 <= k < rest.len() implies !is_error_line(
                #[trigger] rest[k],
            ) by {
                assert(!is_error_line(lines[k + 1]));
            }
        }
    }
}

/// True for badges that are labelled as an error, in whatever case.
pub open spec fn is_error_line(line: LineView) -> bool {
    line matches LineView::Badge { label, text, color, subtitle } && is_same_word(
        label,
        "error"@,
    )
}

/// The error of a snapshot is the text of its first badge that is labelled so.
pub proof fn law_first_error_badge_is_the_error(
    snapshot: &CachedPluginSnapshot,
    i: int,
    r: Option<String>,
)
    requires
        call_ensures(snapshot_error, (snapshot,), r),
    ensures
        0 <= i < snapshot.lines@.len() && (forall|k: int|
            0 <= k < i ==> !is_error_line((#[trigger] snapshot.lines@[k])@)) ==> (
        snapshot.lines@[i] matches MetricLine::Badge { label, text, color, subtitle }
            ==> is_same_word(label@, "error"@) ==> (r matches Some(error) && error@ == text@)),
        (forall|k: int|
            0 <= k < snapshot.lines@.len() ==> !is_error_line((#[trigger] snapshot.lines@[k])@))
            ==> r is None,
{
    let lines = line_views(snapshot.lines@);
    assert(lines == snapshot@.lines);
    assert(lines.len() == snapshot.lines@.len());
    lemma_first_error(lines, i);
    if 0 <= i < lines.len() {
        assert(lines[i] == snapshot.lines@[i]@);
    }
    if forall|k: int| 0 <= k < i ==> !is_error_line((#[trigger] snapshot.lines@[k])@) {
        assert forall|k: int| 0 <= k < i && k < lines.len() implies !is_error_line(
            #[trigger] lines[k],
        ) by {
            assert(lines[k] == snapshot.lines@[k]@);
        }
    }
    if forall|k: int|
        0 <= k < snapshot.lines@.len() ==> !is_error_line((#[trigger] snapshot.lines@[k])@) {
        assert forall|k: int| 0 <= k < lines.len() implies !is_error_line(#[trigger] lines[k]) by {
            assert(lines[k] == snapshot.lines@[k]@);
        }
    }
}

/// A text that is too long is cut and dots are put behind it; an empty one is a dash.
pub proof fn law_long_texts_are_cut(value: &str, limit: usize, r: String)
    requires
        call_ensures(truncate_for_log, (value, limit), r),
    ensures
        limit == 0 ==> r@.len() == 0,
        limit > 0 && value@.len() == 0 ==> r@ == "-"@,
        0 < value@.len() <= limit ==> r@ == value@,
        0 < limit < value@.len() ==> r@ == value@.take(limit as int) + "..."@,
{
}

/// True if a text is what is logged of a snapshot: its provider, whether it reports an error,
/// the number of its lines, and the error, or else its plan, or else that it is ready.
pub open spec fn tells_of(
    row: Seq<char>,
    snapshot: CachedPluginSnapshot,
    error: Option<Seq<char>>,
    detail: Seq<char>,
) -> bool {
    row == "plugin init: plugin="@ + snapshot.provider_id@ + " status="@ + (if error is Some {
        "ERROR"@
    } else {
        "OK"@
    }) + " lines="@ + decimal(snapshot.lines@.len()) + " info="@ + detail
}

proof fn lemma_one_way(a: Seq<char>, b: Seq<char>)
    ensures
        !(text_less(a, b) && text_less(b, a)),
        !text_less(a, a),
{
    law_order_is_irreflexive(a);
    if text_less(a, b) && text_less(b, a) {
        law_order_is_transitive(a, b, a);
    }
}

/// After the first run each snapshot is told of in one line behind a heading with their
/// number, in the order of their providers; those of one provider stay as they are.
pub proof fn law_first_run_is_told_line_by_line(
    snapshots: &Vec<CachedPluginSnapshot>,
    r: Vec<String>,
)
    requires
        call_ensures(plugin_initialization_summary, (snapshots,), r),
    ensures
        r@.len() == snapshots@.len() + 1,
        r@[0]@ == "plugin initialization summary: total="@ + decimal(snapshots@.len())
            + " (one line per plugin follows)"@,
        exists|places: Seq<int>|
            #![trigger places.len()]
            {
                &&& places.len() == snapshots@.len()
                &&& forall|k: int|
                    0 <= k < places.len() ==> 0 <= #[trigger] places[k] < snapshots@.len()
                        && r@[k + 1]@ == summary_row(snapshots@[places[k]]@)
                &&& forall|k: int, l: int|
                    0 <= k < l < places.len() ==> !text_less(
                        snapshots@[#[trigger] places[l]].provider_id@,
                        snapshots@[#[trigger] places[k]].provider_id@,
                    ) && places[k] != places[l] && (snapshots@[places[k]].provider_id@
                        == snapshots@[places[l]].provider_id@ ==> places[k] < places[l])
            },
{
    let all = crate::daemon::snapshot_views(snapshots@);
    let keys = crate::log_summary::providers_of(all);
    let texts = views(r@);
    let heading = "plugin initialization summary: total="@ + decimal(all.len())
        + " (one line per plugin follows)"@;
    let places = choose|places: Seq<int>| #[trigger]
        is_order(keys, places) && views(r@) == seq![heading] + crate::log_summary::texts_at(
            summary_rows(all),
            places,
        );
    assert(texts.len() == r@.len());
    assert(all.len() == snapshots@.len());
    assert(keys.len() == all.len());
    assert(texts[0] == r@[0]@);
    assert(places.len() == snapshots@.len());
    assert forall|k: int| 0 <= k < places.len() implies 0 <= #[trigger] places[k]
        < snapshots@.len() && r@[k + 1]@ == summary_row(snapshots@[places[k]]@) by {
        assert(texts[k + 1] == r@[k + 1]@);
        assert(all[places[k]] == snapshots@[places[k]]@);
    }
    assert forall|k: int, l: int| 0 <= k < l < places.len() implies !text_less(
        snapshots@[#[trigger] places[l]].provider_id@,
        snapshots@[#[trigger] places[k]].provider_id@,
    ) && places[k] != places[l] && (snapshots@[places[k]].provider_id@
        == snapshots@[places[l]].provider_id@ ==> places[k] < places[l]) by {
        assert(crate::text_order::place_before(keys, places[k], places[l]));
        assert(all[places[k]] == snapshots@[places[k]]@);
        assert(all[places[l]] == snapshots@[places[l]]@);
        lemma_one_way(keys[places[k]], keys[places[l]]);
    }
}

/// What one of these lines says.
pub proof fn law_line_tells_of_its_snapshot(
    snapshot: &CachedPluginSnapshot,
    error: Option<String>,
    detail_of: &str,
    detail: String,
)
    requires
        call_ensures(snapshot_error, (snapshot,), error),
        call_ensures(truncate_for_log, (detail_of, 160), detail),
        error matches Some(message) ==> detail_of@ == message@,
        error is None ==> (snapshot.plan matches Some(plan) ==> detail_of@ == "plan="@ + plan@),
    ensures
        error is Some || snapshot.plan is Some ==> tells_of(
            summary_row(snapshot@),
            *snapshot,
            opt_view(error),
            detail@,
        ),
        error is None && snapshot.plan is None ==> tells_of(
            summary_row(snapshot@),
            *snapshot,
            None,
            "ready"@,
        ),
{
    assert(snapshot@.lines.len() == snapshot.lines@.len());
}

/// Where the first run failed as a whole, this is told of each plugin in order, with the
/// reason, behind a heading.
pub proof fn law_failed_first_run_is_told(
    ids: &Vec<String>,
    error: &str,
    reason: String,
    r: Vec<String>,
)
    requires
        call_ensures(plugin_initialization_failure_summary, (ids, error), r),
        call_ensures(truncate_for_log, (error, 160), reason),
    ensures
        r@.len() == ids@.len() + 1,
        r@[0]@
            == "plugin initialization summary: initial refresh failed before per-plugin results: "@
            + reason@,
        exists|places: Seq<int>|
            #![trigger places.len()]
            {
                &&& places.len() == ids@.len()
                &&& forall|k: int|
                    0 <= k < places.len() ==> 0 <= #[trigger] places[k] < ids@.len() && r@[k + 1]@
                        == "plugin init: plugin="@ + ids@[places[k]]@
                        + " status=REFRESH_NOT_AVAILABLE info=initial refresh failed: "@ + reason@
                &&& forall|k: int, l: int|
                    0 <= k < l < places.len() ==> !text_less(
                        ids@[#[trigger] places[l]]@,
                        ids@[#[trigger] places[k]]@,
                    ) && places[k] != places[l] && (ids@[places[k]]@ == ids@[places[l]]@
                        ==> places[k] < places[l])
            },
{
    let keys = views(ids@);
    let texts = views(r@);
    let heading =
        "plugin initialization summary: initial refresh failed before per-plugin results: "@
        + reason@;
    let places = choose|places: Seq<int>| #[trigger]
        is_order(keys, places) && views(r@) == seq![heading] + crate::log_summary::texts_at(
            failure_rows(keys, reason@),
            places,
        );
    assert(texts.len() == r@.len());
    assert(keys.len() == ids@.len());
    assert(texts[0] == r@[0]@);
    assert(places.len() == ids@.len());
    assert forall|k: int| 0 <= k < places.len() implies 0 <= #[trigger] places[k] < ids@.len()
        && r@[k + 1]@ == "plugin init: plugin="@ + ids@[places[k]]@
        + " status=REFRESH_NOT_AVAILABLE info=initial refresh failed: "@ + reason@ by {
        assert(texts[k + 1] == r@[k + 1]@);
        assert(keys[places[k]] == ids@[places[k]]@);
    }
    assert forall|k: int, l: int| 0 <= k < l < places.len() implies !text_less(
        ids@[#[trigger] places[l]]@,
        ids@[#[trigger] places[k]]@,
    ) && places[k] != places[l] && (ids@[places[k]]@ == ids@[places[l]]@ ==> places[k] < places[l]) by {
        assert(crate::text_order::place_before(keys, places[k], places[l]));
        assert(keys[places[k]] == ids@[places[k]]@);
        assert(keys[places[l]] == ids@[places[l]]@);
        lemma_one_way(keys[places[k]], keys[places[l]]);
    }
}

} // verus!
