//! Running under a user instance of systemd.

use crate::instance_control::ServiceMode;
use crate::lexical_path::{
    components, join_path, joined_text, path_views, written_texts, LexicalPath,
};
use crate::net::{dotted, IpAddress, SocketAddress};
use crate::text::{
    chars_of, decimal, decimal_text, is_ascii_word, join, joined, number_of, parse_number, trim,
    trimmed, views,
};
use vstd::prelude::*;

verus! {

pub const USER_SYSTEMD_SERVICE_NAME: &'static str = "openusage-cli.service";

/// The status with which the program ends so that systemd starts it again.
pub const SYSTEMD_RESTART_EXIT_CODE: i32 = 75;

pub const STARTUP_READINESS_TIMEOUT_SECS: u64 = 10;

pub const STARTUP_READINESS_POLL_INTERVAL_MS: u64 = 50;

/// True for characters that need no quotes.
pub open spec fn is_plain_char(c: char) -> bool {
    is_ascii_word(c) || c == '/' || c == '.' || c == '_' || c == '-' || c == ':' || c == '=' || c
        == ','
}

/// True for texts that need no quotes.
pub open spec fn is_plain_text(s: Seq<char>) -> bool {
    forall|i: int| 0 <= i < s.len() ==> is_plain_char(#[trigger] s[i])
}

/// A text with a backslash before each backslash and each quotation mark.
pub open spec fn escaped(s: Seq<char>) -> Seq<char>
    decreases s.len(),
{
    if s.len() == 0 {
        Seq::empty()
    } else if s.last() == '\\' || s.last() == '"' {
        escaped(s.drop_last()).push('\\').push(s.last())
    } else {
        escaped(s.drop_last()).push(s.last())
    }
}

/// An argument as it stands in a unit: as it is, or in quotes.
pub open spec fn quoted(s: Seq<char>) -> Seq<char> {
    if is_plain_text(s) {
        s
    } else {
        seq!['"'] + escaped(s) + seq!['"']
    }
}

/// The argument that is written in a unit: without the quotes and the backslashes.
pub open spec fn unescaped(s: Seq<char>) -> Seq<char>
    decreases s.len(),
{
    if s.len() == 0 {
        Seq::empty()
    } else if s[0] == '\\' && s.len() > 1 {
        seq![s[1]] + unescaped(s.skip(2))
    } else {
        seq![s[0]] + unescaped(s.drop_first())
    }
}

/// The argument that is written in a unit.
pub open spec fn unquoted(s: Seq<char>) -> Seq<char> {
    if s.len() >= 2 && s[0] == '"' && s.last() == '"' {
        unescaped(s.subrange(1, s.len() - 1))
    } else {
        s
    }
}

proof fn lemma_unescaped_push(s: Seq<char>, t: Seq<char>)
    ensures
        unescaped(escaped(s) + t) == s + unescaped(t),
    decreases s.len(),
{
    if s.len() == 0 {
        assert(escaped(s) + t =~= t);
        assert(s + unescaped(t) =~= unescaped(t));
    } else {
        let init = s.drop_last();
        let last = s.last();
        let tail = if last == '\\' || last == '"' {
            seq!['\\', last] + t
        } else {
            seq![last] + t
        };
        assert(escaped(s) + t =~= escaped(init) + tail);
        lemma_unescaped_push(init, tail);
        if last == '\\' || last == '"' {
            assert(tail.skip(2) =~= t);
        } else {
            assert(tail.drop_first() =~= t);
        }
        assert(unescaped(tail) =~= seq![last] + unescaped(t));
        assert(init + (seq![last] + unescaped(t)) =~= s + unescaped(t));
    }
}

/// Reading back a quoted argument gives the argument.
pub proof fn law_quoting_reads_back(s: Seq<char>)
    ensures
        unquoted(quoted(s)) == s,
{
    if is_plain_text(s) {
        if s.len() >= 2 && s[0] == '"' {
            assert(is_plain_char(s[0]));
        }
    } else {
        let all = quoted(s);
        let inner = all.subrange(1, all.len() - 1);
        assert(inner =~= escaped(s) + Seq::<char>::empty());
        lemma_unescaped_push(s, Seq::empty());
        assert(unescaped(Seq::<char>::empty()) =~= Seq::<char>::empty());
        assert(s + Seq::<char>::empty() =~= s);
        assert(all[0] == '"' && all.last() == '"');
    }
}

/// An argument as it stands in a unit.
pub fn quote_systemd_argument(value: &str) -> (r: String)
    ensures
        r@ == quoted(value@),
{
    let chars = chars_of(value);
    let mut plain = true;
    let mut i: usize = 0;
    while i < chars.len()
        invariant
            i <= chars@.len(),
            plain <==> forall|j: int| 0 <= j < i ==> is_plain_char(#[trigger] chars@[j]),
        decreases chars@.len() - i,
    {
        let c = chars[i];
        let word = ('a' <= c && c <= 'z') || ('A' <= c && c <= 'Z') || ('0' <= c && c <= '9');
        let fine = word || c == '/' || c == '.' || c == '_' || c == '-' || c == ':' || c == '='
            || c == ',';
        assert(fine == is_plain_char(chars@[i as int]));
        if !fine {
            plain = false;
        }
        i = i + 1;
    }
    if plain {
        return value.to_string();
    }
    let mut out = String::new();
    out.push('"');
    let mut j: usize = 0;
    assert(chars@.take(0) =~= Seq::<char>::empty());
    assert(out@ =~= seq!['"'] + escaped(chars@.take(0)));
    while j < chars.len()
        invariant
            j <= chars@.len(),
            out@ == seq!['"'] + escaped(chars@.take(j as int)),
        decreases chars@.len() - j,
    {
        let ghost next = chars@.take(j + 1);
        assert(next.drop_last() =~= chars@.take(j as int));
        assert(next.last() == chars@[j as int]);
        let c = chars[j];
        if c == '\\' || c == '"' {
            out.push('\\');
        }
        out.push(c);
        assert(out@ =~= seq!['"'] + escaped(next));
        j = j + 1;
    }
    assert(chars@.take(chars@.len() as int) =~= chars@);
    out.push('"');
    assert(out@ =~= seq!['"'] + escaped(value@) + seq!['"']);
    out
}

/// The command that the unit runs.
pub open spec fn exec_start_text(executable: Seq<char>) -> Seq<char> {
    quoted(executable) + " run-daemon --foreground=true --service-mode=systemd --log-level=info"@
}

/// The command that the unit runs.
pub fn systemd_exec_start(executable: &str) -> (r: String)
    ensures
        r@ == exec_start_text(executable@),
{
    let mut out = quote_systemd_argument(executable);
    out.append(" run-daemon --foreground=true --service-mode=systemd --log-level=info");
    out
}

/// The unit that runs a command.
pub open spec fn unit_text(exec_start: Seq<char>) -> Seq<char> {
    "[Unit]\nDescription=OpenUsage CLI daemon\nAfter=network.target\n\n[Service]\nType=notify\nNotifyAccess=main\nWatchdogSec=30s\nTimeoutStartSec=120s\nExecStart="@
        + exec_start
        + "\nRestart=on-failure\nRestartSec=2s\nSuccessExitStatus=75\nRestartForceExitStatus=75\n\n[Install]\nWantedBy=default.target\n"@
}

/// The unit that runs a command.
pub fn build_systemd_unit(exec_start: &str) -> (r: String)
    ensures
        r@ == unit_text(exec_start@),
{
    let mut out =
        "[Unit]\nDescription=OpenUsage CLI daemon\nAfter=network.target\n\n[Service]\nType=notify\nNotifyAccess=main\nWatchdogSec=30s\nTimeoutStartSec=120s\nExecStart=".to_string();
    out.append(exec_start);
    out.append(
        "\nRestart=on-failure\nRestartSec=2s\nSuccessExitStatus=75\nRestartForceExitStatus=75\n\n[Install]\nWantedBy=default.target\n",
    );
    out
}

/// What a user is told after the unit was written.
pub open spec fn install_text(unit_file: Seq<char>, existed: bool) -> Seq<char> {
    if existed {
        "Systemd user unit updated.\nUpdated files:\n  - "@ + unit_file
            + "\nNext commands to apply the updated unit:\n  - systemctl --user daemon-reload\n  - systemctl --user enable --now openusage-cli.service\n  - systemctl --user restart openusage-cli.service\n  - systemctl --user status openusage-cli.service\nService logs:\n  - journalctl --user -u openusage-cli.service -f\n"@
    } else {
        "Systemd user unit installed.\nCreated files:\n  - "@ + unit_file
            + "\nNext commands:\n  - systemctl --user daemon-reload\n  - systemctl --user enable --now openusage-cli.service\n  - systemctl --user status openusage-cli.service\nService logs:\n  - journalctl --user -u openusage-cli.service -f\n"@
    }
}

/// What a user is told after the unit was written.
pub fn systemd_unit_install_message(unit_path: &LexicalPath, unit_existed: bool) -> (r: String)
    ensures
        r@ == install_text(unit_path.written(), unit_existed),
{
    let unit_file = unit_path.to_text();
    if unit_existed {
        let mut out = "Systemd user unit updated.\nUpdated files:\n  - ".to_string();
        out.append(unit_file.as_str());
        out.append(
            "\nNext commands to apply the updated unit:\n  - systemctl --user daemon-reload\n  - systemctl --user enable --now openusage-cli.service\n  - systemctl --user restart openusage-cli.service\n  - systemctl --user status openusage-cli.service\nService logs:\n  - journalctl --user -u openusage-cli.service -f\n",
        );
        out
    } else {
        let mut out = "Systemd user unit installed.\nCreated files:\n  - ".to_string();
        out.append(unit_file.as_str());
        out.append(
            "\nNext commands:\n  - systemctl --user daemon-reload\n  - systemctl --user enable --now openusage-cli.service\n  - systemctl --user status openusage-cli.service\nService logs:\n  - journalctl --user -u openusage-cli.service -f\n",
        );
        out
    }
}

/// The directories that have to exist for a unit to be installed.
pub open spec fn unit_dirs(home: Seq<Seq<char>>) -> Seq<Seq<Seq<char>>> {
    seq![
        join_path(home, components(".config"@)),
        join_path(home, components(".config/systemd"@)),
        join_path(home, components(".config/systemd/user"@)),
    ]
}

/// How these directories are written.
pub open spec fn unit_dir_texts(home: Seq<char>) -> Seq<Seq<char>> {
    seq![
        joined_text(home, ".config"@),
        joined_text(home, ".config/systemd"@),
        joined_text(home, ".config/systemd/user"@),
    ]
}

/// The texts of the directories that are missing.
pub open spec fn missing_dirs(dirs: Seq<Seq<char>>, there: Seq<bool>) -> Seq<Seq<char>>
    decreases dirs.len(),
{
    if dirs.len() == 0 || there.len() == 0 {
        Seq::empty()
    } else {
        let rest = missing_dirs(dirs.drop_first(), there.drop_first());
        if there[0] {
            rest
        } else {
            seq![dirs[0]] + rest
        }
    }
}

/// A unit to be written.
#[derive(Debug)]
pub struct UnitInstall {
    pub path: LexicalPath,
    pub contents: String,
}

/// The directories that have to exist for a unit to be installed.
pub fn required_unit_dirs(home: &LexicalPath) -> (r: Vec<LexicalPath>)
    ensures
        path_views(r@) == unit_dirs(home@),
        written_texts(r@) == unit_dir_texts(home.written()),
{
    let mut dirs: Vec<LexicalPath> = Vec::new();
    dirs.push(home.join_text(".config"));
    dirs.push(home.join_text(".config/systemd"));
    dirs.push(home.join_text(".config/systemd/user"));
    assert(path_views(dirs@) =~= unit_dirs(home@));
    assert(written_texts(dirs@) =~= unit_dir_texts(home.written()));
    dirs
}

/// The unit to be written for a program, or the complaint about the directories that are
/// missing; `there` says of each required directory whether it is there.
pub fn plan_unit_install(home: &LexicalPath, there: &[bool; 3], executable: &str) -> (r: Result<
    UnitInstall,
    String,
>)
    ensures
        r is Ok <==> there@[0] && there@[1] && there@[2],
        r matches Ok(unit) ==> unit.path@ == join_path(
            join_path(home@, components(".config/systemd/user"@)),
            components(USER_SYSTEMD_SERVICE_NAME@),
        ) && unit.path.written() == joined_text(
            joined_text(home.written(), ".config/systemd/user"@),
            USER_SYSTEMD_SERVICE_NAME@,
        ) && unit.contents@ == unit_text(exec_start_text(executable@)),
        r matches Err(message) ==> message@
            == "cannot install user systemd unit: required directories do not exist: "@ + joined(
            missing_dirs(unit_dir_texts(home.written()), there@),
            ", "@,
        ),
{
    let dirs = required_unit_dirs(home);
    let ghost all = written_texts(dirs@);
    assert(all.len() == 3);
    let mut missing: Vec<String> = Vec::new();
    if !there[0] {
        missing.push(dirs[0].to_text());
    }
    if !there[1] {
        missing.push(dirs[1].to_text());
    }
    if !there[2] {
        missing.push(dirs[2].to_text());
    }
    proof {
        assert(all[0] == dirs@[0].written() && all[1] == dirs@[1].written() && all[2]
            == dirs@[2].written());
        let d1 = all.drop_first();
        let t1 = there@.drop_first();
        let d2 = d1.drop_first();
        let t2 = t1.drop_first();
        let none = Seq::<Seq<char>>::empty();
        assert(missing_dirs(d2.drop_first(), t2.drop_first()) =~= none);
        assert(d2[0] == all[2] && t2[0] == there@[2]);
        assert(d1[0] == all[1] && t1[0] == there@[1]);
        let third = missing_dirs(d2, t2);
        let second = missing_dirs(d1, t1);
        assert(third =~= if there@[2] {
            none
        } else {
            seq![all[2]]
        });
        assert(second == if there@[1] {
            third
        } else {
            seq![all[1]] + third
        });
        assert(views(missing@) =~= missing_dirs(all, there@));
        assert(views(missing@).len() == missing@.len());
    }
    if missing.len() > 0 {
        let mut message =
            "cannot install user systemd unit: required directories do not exist: ".to_string();
        let list = join(&missing, ", ");
        message.append(list.as_str());
        return Err(message);
    }
    let path = home.join_text(".config/systemd/user").join_text(USER_SYSTEMD_SERVICE_NAME);
    let exec_start = systemd_exec_start(executable);
    Ok(UnitInstall { path, contents: build_systemd_unit(exec_start.as_str()) })
}

/// True if a service bound to an address can be reached at another from the same machine: one
/// bound to all addresses is reached through the loopback address of the same kind.
pub open spec fn is_probe_addr(bound: SocketAddress, reached: SocketAddress) -> bool {
    &&& reached.port == bound.port
    &&& if bound.ip.spec_is_unspecified() {
        match (bound.ip, reached.ip) {
            (IpAddress::V4 { octets: _ }, IpAddress::V4 { octets }) => octets@ == seq![
                127u8,
                0,
                0,
                1,
            ],
            (
                IpAddress::V6 { segments: _, text: _ },
                IpAddress::V6 { segments, text },
            ) => segments@ == seq![0u16, 0, 0, 0, 0, 0, 0, 1] && text@ == "::1"@,
            _ => false,
        }
    } else {
        reached.ip == bound.ip
    }
}

/// The address at which a service bound to an address can be reached from the same machine:
/// one bound to all addresses is reached through the loopback address of the same kind.
pub fn http_readiness_probe_addr(bound_addr: &SocketAddress) -> (r: SocketAddress)
    ensures
        is_probe_addr(*bound_addr, r),
{
    let unspecified = bound_addr.ip.is_unspecified();
    let ip = match &bound_addr.ip {
        IpAddress::V4 { octets } => {
            if unspecified {
                let local: [u8; 4] = [127, 0, 0, 1];
                assert(local@ =~= seq![127u8, 0, 0, 1]);
                IpAddress::V4 { octets: local }
            } else {
                IpAddress::V4 { octets: *octets }
            }
        },
        IpAddress::V6 { segments, text } => {
            if unspecified {
                let local: [u16; 8] = [0, 0, 0, 0, 0, 0, 0, 1];
                assert(local@ =~= seq![0u16, 0, 0, 0, 0, 0, 0, 1]);
                IpAddress::V6 { segments: local, text: "::1".to_string() }
            } else {
                IpAddress::V6 { segments: *segments, text: text.clone() }
            }
        },
    };
    SocketAddress { ip, port: bound_addr.port }
}

/// An address and a port as text; an IPv6 address stands in brackets.
pub open spec fn socket_text(addr: SocketAddress) -> Seq<char> {
    (match addr.ip {
        IpAddress::V4 { octets } => dotted(octets@),
        IpAddress::V6 { segments, text } => "["@ + text@ + "]"@,
    }) + ":"@ + decimal(addr.port as nat)
}

/// An address and a port as text.
pub fn socket_address_text(addr: &SocketAddress) -> (r: String)
    ensures
        r@ == socket_text(*addr),
{
    let plain = addr.ip.text();
    let mut out = String::new();
    match &addr.ip {
        IpAddress::V4 { octets } => {
            out.append(plain.as_str());
            assert(out@ =~= dotted(octets@));
        },
        IpAddress::V6 { segments, text } => {
            out.append("[");
            out.append(plain.as_str());
            out.append("]");
            assert(out@ =~= "["@ + text@ + "]"@);
        },
    }
    out.append(":");
    let number = decimal_text(addr.port as u128);
    out.append(number.as_str());
    out
}

/// The address that answers as soon as the service at an address is ready.
pub fn readiness_url(bound_addr: &SocketAddress) -> (r: String)
    ensures
        exists|reached: SocketAddress| #[trigger]
            is_probe_addr(*bound_addr, reached) && r@ == "http://"@ + socket_text(reached)
                + "/health"@,
{
    let reached = http_readiness_probe_addr(bound_addr);
    let mut out = "http://".to_string();
    let text = socket_address_text(&reached);
    out.append(text.as_str());
    out.append("/health");
    out
}

/// What to do next while waiting for the own service to answer.
#[derive(Debug, PartialEq, Eq)]
pub enum ReadinessStep {
    /// Ask whether it answers.
    Ask,
    /// Wait for so many milliseconds.
    Sleep(u64),
    /// It answers.
    Ready,
    /// It did not answer in time.
    TimedOut(String),
}

/// What to do at a point in time: ask as long as there is time left.
pub fn readiness_step_at(url: &str, now: u64, deadline: u64) -> (r: ReadinessStep)
    ensures
        now < deadline ==> r == ReadinessStep::Ask,
        now >= deadline ==> (r matches ReadinessStep::TimedOut(message) && message@
            == "timeout waiting for health endpoint "@ + url@ + " during daemon startup"@),
{
    if now >= deadline {
        let mut message = "timeout waiting for health endpoint ".to_string();
        message.append(url);
        message.append(" during daemon startup");
        ReadinessStep::TimedOut(message)
    } else {
        ReadinessStep::Ask
    }
}

/// What to do after asking; `status` is that of the answer, if there was one.
pub fn readiness_step_after(status: Option<u16>) -> (r: ReadinessStep)
    ensures
        r == if status matches Some(code) && crate::instance_control::is_success(code) {
            ReadinessStep::Ready
        } else {
            ReadinessStep::Sleep(STARTUP_READINESS_POLL_INTERVAL_MS)
        },
{
    match status {
        Some(code) => if 200 <= code && code < 300 {
            ReadinessStep::Ready
        } else {
            ReadinessStep::Sleep(STARTUP_READINESS_POLL_INTERVAL_MS)
        },
        None => ReadinessStep::Sleep(STARTUP_READINESS_POLL_INTERVAL_MS),
    }
}

/// The time between two signs of life, given the time after which systemd gives up.
pub open spec fn ping_interval(watchdog_usec: Option<u64>) -> Option<u64> {
    match watchdog_usec {
        Some(limit) => if limit == 0 {
            None
        } else if limit / 2 >= 1 {
            Some((limit / 2) as u64)
        } else {
            Some(1)
        },
        None => None,
    }
}

/// The time between two signs of life, in microseconds; `watchdog_usec` is the variable in
/// which systemd says after which time it gives up.
pub fn systemd_watchdog_ping_interval(
    service_mode: ServiceMode,
    watchdog_usec: &Option<String>,
) -> (r: Option<u64>)
    ensures
        r == if service_mode == ServiceMode::Systemd {
            match *watchdog_usec {
                Some(raw) => ping_interval(number_of(trimmed(raw@))),
                None => None,
            }
        } else {
            None
        },
{
    if service_mode != ServiceMode::Systemd {
        return None;
    }
    let raw = match watchdog_usec {
        Some(raw) => raw,
        None => {
            return None;
        },
    };
    let bare = trim(raw.as_str());
    match parse_number(bare.as_str()) {
        Some(limit) => {
            if limit == 0 {
                None
            } else if limit / 2 >= 1 {
                Some(limit / 2)
            } else {
                Some(1)
            }
        },
        None => None,
    }
}

/// Signs of life always come before systemd gives up, and never without a pause.
pub proof fn law_ping_comes_in_time(watchdog_usec: Option<u64>)
    ensures
        ping_interval(watchdog_usec) matches Some(interval) ==> (interval >= 1 && watchdog_usec
            is Some && interval <= watchdog_usec->0 && (watchdog_usec->0 >= 2 ==> 2 * interval
            <= watchdog_usec->0)),
{
}

} // verus!
