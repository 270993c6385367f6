//! What the HTTP interface answers, and how addresses are written.

use crate::daemon::{CachedPluginSnapshot, DaemonState};
use crate::http_api::{
    begin_single_usage, control_words, is_control_origin_allowed, is_loopback_host, listed_ids,
    origin_host, origin_is_allowed, parse_plugin_ids, request_log_level, single_usage,
    usage_request, validate_control_request, ControlWords, GateReply, LifecycleCommand,
    LifecycleGate, OriginHeader, Refusal, RequestLogLevel, SingleUsage, UsageRequest,
};
use crate::net::{connect_host_for_bind_ip, format_http_base_url, IpAddress};
use crate::outside::uri_host_text;
use crate::text::{
    decimal, is_blank, is_white_space, lower_char, lowered, opt_view, split_on, trimmed, views,
};
use crate::text_laws::{all_white, law_trimming_takes_the_ends};
use vstd::prelude::*;

verus! {

/// True if a character is another, or the small letter of one is.
pub open spec fn is_same_letter(a: char, b: char) -> bool {
    ||| a == b
    ||| 'A' <= a <= 'Z' && b as int == a as int + 32
    ||| 'A' <= b <= 'Z' && a as int == b as int + 32
}

/// True if two texts are the same but for the case of ASCII letters.
pub open spec fn is_same_word(a: Seq<char>, b: Seq<char>) -> bool {
    a.len() == b.len() && forall|i: int| 0 <= i < a.len() ==> is_same_letter(#[trigger] a[i], b[i])
}

/// Texts are compared without regard to case letter by letter.
pub proof fn law_case_does_not_matter(a: Seq<char>, b: Seq<char>)
    ensures
        lowered(a) == lowered(b) <==> is_same_word(a, b),
{
    if lowered(a) == lowered(b) {
        assert(lowered(a).len() == a.len() && lowered(b).len() == b.len());
        assert forall|i: int| 0 <= i < a.len() implies is_same_letter(#[trigger] a[i], b[i]) by {
            assert(lowered(a)[i] == lower_char(a[i]));
            assert(lowered(b)[i] == lower_char(b[i]));
        }
    }
    if is_same_word(a, b) {
        assert forall|i: int| 0 <= i < a.len() implies lower_char(#[trigger] a[i]) == lower_char(
            b[i],
        ) by {
            assert(is_same_letter(a[i], b[i]));
        }
        assert(lowered(a) =~= lowered(b));
    }
}

/// A host reaches itself by `127.x.x.x` and by the IPv6 address that is all zeros but for a
/// one at its end, and by no other address.
pub proof fn law_own_addresses_are_known(ip: &IpAddress, r: bool)
    requires
        call_ensures(IpAddress::is_loopback, (ip,), r),
    ensures
        *ip matches IpAddress::V4 { octets } ==> (r <==> octets@[0] == 127),
        *ip matches IpAddress::V6 { segments, text } ==> (r <==> segments@[7] == 1 && forall|i: int|
            0 <= i < 7 ==> #[trigger] segments@[i] == 0),
{
    match *ip {
        IpAddress::V6 { segments, text } => {
            if segments@[7] == 1 && forall|i: int| 0 <= i < 7 ==> #[trigger] segments@[i] == 0 {
                assert(segments@ =~= seq![0u16, 0, 0, 0, 0, 0, 0, 1]);
            }
        },
        _ => {},
    }
}

/// The address of all zeros stands for all addresses of a host, and no other does.
pub proof fn law_zeros_stand_for_all(ip: &IpAddress, r: bool)
    requires
        call_ensures(IpAddress::is_unspecified, (ip,), r),
    ensures
        *ip matches IpAddress::V4 { octets } ==> (r <==> forall|i: int|
            0 <= i < 4 ==> #[trigger] octets@[i] == 0),
        *ip matches IpAddress::V6 { segments, text } ==> (r <==> forall|i: int|
            0 <= i < 8 ==> #[trigger] segments@[i] == 0),
{
    match *ip {
        IpAddress::V4 { octets } => {
            if forall|i: int| 0 <= i < 4 ==> #[trigger] octets@[i] == 0 {
                assert(octets@ =~= seq![0u8, 0, 0, 0]);
            }
        },
        IpAddress::V6 { segments, text } => {
            if forall|i: int| 0 <= i < 8 ==> #[trigger] segments@[i] == 0 {
                assert(segments@ =~= seq![0u16, 0, 0, 0, 0, 0, 0, 0]);
            }
        },
    }
}

/// An IPv4 address is written as its four numbers with dots between them.
pub proof fn law_address_is_written_with_dots(ip: &IpAddress, r: String)
    requires
        call_ensures(IpAddress::text, (ip,), r),
    ensures
        *ip matches IpAddress::V4 { octets } ==> r@ == decimal(octets@[0] as nat) + "."@ + decimal(
            octets@[1] as nat,
        ) + "."@ + decimal(octets@[2] as nat) + "."@ + decimal(octets@[3] as nat),
        *ip matches IpAddress::V6 { segments, text } ==> r@ == text@,
{
}

/// A service is reached at the address that it is bound to. One that is bound to all
/// addresses is reached at the own address of the host.
pub proof fn law_service_is_reached_at_its_address(
    ip: &IpAddress,
    all: bool,
    text: String,
    r: String,
)
    requires
        call_ensures(IpAddress::is_unspecified, (ip,), all),
        call_ensures(IpAddress::text, (ip,), text),
        call_ensures(connect_host_for_bind_ip, (ip,), r),
    ensures
        !all ==> r@ == text@,
        all && *ip is V4 ==> r@ == "127.0.0.1"@,
        all && *ip is V6 ==> r@ == "::1"@,
{
}

/// A URL is the scheme, the host and the port; a host with a colon stands in brackets.
pub proof fn law_url_is_put_together(host: &str, port: u16, r: String)
    requires
        call_ensures(format_http_base_url, (host, port), r),
    ensures
        host@.contains(':') ==> r@ == "http://["@ + host@ + "]:"@ + decimal(port as nat),
        !host@.contains(':') ==> r@ == "http://"@ + host@ + ":"@ + decimal(port as nat),
{
    reveal_strlit("http://[");
    reveal_strlit("http://");
    reveal_strlit("[");
    reveal_strlit("]");
    reveal_strlit(":");
    reveal_strlit("]:");
    if host@.contains(':') {
        assert(r@ =~= "http://["@ + host@ + "]:"@ + decimal(port as nat));
    }
}

/// A host is the own machine where it is `localhost`, in whatever case, or one of its own
/// addresses.
pub proof fn law_own_hosts_are_known(host: &str, ip: &Option<IpAddress>, own: bool, r: bool)
    requires
        call_ensures(is_loopback_host, (host, ip), r),
        *ip matches Some(address) ==> call_ensures(IpAddress::is_loopback, (&address,), own),
    ensures
        r <==> is_same_word(host@, "localhost"@) || (*ip is Some && own),
{
    law_case_does_not_matter(host@, "localhost"@);
}

/// A control request is allowed where it names no origin, and where the host of its origin is
/// the own machine. An origin that cannot be read, that is `null`, or that names no host is
/// not allowed.
pub proof fn law_only_own_pages_may_control(
    origin: &OriginHeader,
    ip: &Option<IpAddress>,
    own: bool,
    r: bool,
)
    requires
        call_ensures(is_control_origin_allowed, (origin, ip), r),
        *ip matches Some(address) ==> call_ensures(IpAddress::is_loopback, (&address,), own),
    ensures
        *origin is Absent ==> r,
        *origin is Unreadable ==> !r,
        *origin matches OriginHeader::Text(text) ==> is_same_word(text@, "null"@) ==> !r,
        *origin matches OriginHeader::Text(text) ==> uri_host_text(text@) is None ==> !r,
        *origin matches OriginHeader::Text(text) ==> !is_same_word(text@, "null"@) ==> (
        uri_host_text(text@) matches Some(host) ==> (r <==> is_same_word(host, "localhost"@) || (
        *ip is Some && own))),
{
    match *origin {
        OriginHeader::Text(text) => {
            law_case_does_not_matter(text@, "null"@);
            match uri_host_text(text@) {
                Some(host) => {
                    law_case_does_not_matter(host, "localhost"@);
                },
                None => {},
            }
        },
        _ => {},
    }
}

/// The same holds where the host of the origin is known already.
pub proof fn law_known_host_decides(
    origin: &OriginHeader,
    host: &Option<String>,
    ip: &Option<IpAddress>,
    own: bool,
    r: bool,
)
    requires
        call_ensures(origin_is_allowed, (origin, host, ip), r),
        *ip matches Some(address) ==> call_ensures(IpAddress::is_loopback, (&address,), own),
    ensures
        *origin is Absent ==> r,
        *origin is Unreadable ==> !r,
        *origin matches OriginHeader::Text(text) ==> (r <==> !is_same_word(text@, "null"@) && (
        *host matches Some(name) && (is_same_word(name@, "localhost"@) || (*ip is Some && own)))),
{
    match *origin {
        OriginHeader::Text(text) => {
            law_case_does_not_matter(text@, "null"@);
            match *host {
                Some(name) => {
                    law_case_does_not_matter(name@, "localhost"@);
                },
                None => {},
            }
        },
        _ => {},
    }
}

/// The host of an origin is that of its text; an origin without a text has none.
pub proof fn law_host_comes_from_the_origin(origin: &OriginHeader, r: Option<String>)
    requires
        call_ensures(origin_host, (origin,), r),
    ensures
        *origin matches OriginHeader::Text(text) ==> opt_view(r) == uri_host_text(text@),
        *origin !is Text ==> r is None,
{
}

/// A control request is refused with status 403 where it comes from another machine, and
/// where its origin is not allowed. The machine is complained about first.
pub proof fn law_control_needs_the_own_machine(
    remote: &IpAddress,
    origin: &OriginHeader,
    ip: &Option<IpAddress>,
    remote_error: &str,
    origin_error: &str,
    from_here: bool,
    allowed: bool,
    r: Option<Refusal>,
)
    requires
        call_ensures(IpAddress::is_loopback, (remote,), from_here),
        call_ensures(is_control_origin_allowed, (origin, ip), allowed),
        call_ensures(
            validate_control_request,
            (remote, origin, ip, remote_error, origin_error),
            r,
        ),
    ensures
        r is None <==> from_here && allowed,
        r matches Some(refusal) ==> refusal.status == 403,
        !from_here ==> (r matches Some(refusal) && refusal.error@ == remote_error@),
        from_here && !allowed ==> (r matches Some(refusal) && refusal.error@ == origin_error@),
{
}

/// Each command has its own words.
pub proof fn law_commands_have_their_words(command: LifecycleCommand, r: ControlWords)
    requires
        call_ensures(control_words, (command,), r),
    ensures
        command is Shutdown ==> r.action@ == "shutdown"@ && r.status@ == "shutting_down"@
            && r.forbidden_remote@ == "shutdown_forbidden_remote"@ && r.forbidden_origin@
            == "shutdown_forbidden_origin"@ && r.already_triggered@
            == "shutdown_already_triggered"@,
        command is Restart ==> r.action@ == "restart"@ && r.status@ == "restarting"@
            && r.forbidden_remote@ == "restart_forbidden_remote"@ && r.forbidden_origin@
            == "restart_forbidden_origin"@ && r.already_triggered@ == "restart_already_triggered"@,
{
}

/// Of two commands the first is carried out, with status 200, and the second is turned down,
/// with status 503, whatever they are, where commands are taken at all.
pub proof fn law_only_the_first_command_goes_through(
    available: bool,
    gate: LifecycleGate,
    first: &mut LifecycleGate,
    command: LifecycleCommand,
    status: &str,
    already: &str,
    reply: GateReply,
    second: &mut LifecycleGate,
    other: LifecycleCommand,
    other_reply: GateReply,
)
    requires
        call_ensures(LifecycleGate::new, (available,), gate),
        *old(first) == gate,
        call_ensures(LifecycleGate::trigger, (first, command, status, already), reply),
        *old(second) == *final(first),
        call_ensures(LifecycleGate::trigger, (second, other, status, already), other_reply),
    ensures
        available ==> reply.carried_out == Some(command) && reply.status == 200 && reply.word@
            == status@,
        !available ==> reply.carried_out is None && reply.status == 503 && reply.word@ == already@,
        other_reply.carried_out is None && other_reply.status == 503 && other_reply.word@
            == already@,
{
}

/// A question about a plugin that is not there is answered with status 404. Of one that is
/// there, that plugin alone is asked again, and only where that is wanted.
pub proof fn law_unknown_provider_is_not_found(
    state: &DaemonState,
    provider: &String,
    text: &str,
    known: bool,
    refresh: Option<bool>,
    r: Result<Option<Vec<String>>, Refusal>,
)
    requires
        text@ == provider@,
        call_ensures(DaemonState::has_plugin, (state, text), known),
        call_ensures(begin_single_usage, (state, provider, refresh), r),
    ensures
        !known ==> (r matches Err(refusal) && refusal.status == 404 && refusal.error@
            == "provider_not_found"@),
        known && refresh == Some(true) ==> (r matches Ok(Some(ids)) && ids@.len() == 1 && ids@[0]@
            == provider@),
        known && refresh != Some(true) ==> r == Ok::<Option<Vec<String>>, Refusal>(None),
{
    match r {
        Ok(Some(ids)) => {
            assert(views(ids@).len() == ids@.len());
            assert(ids@.len() > 0 ==> views(ids@)[0] == ids@[0]@);
        },
        _ => {},
    }
}

/// The answer to a question about one provider is its snapshot with status 200, or status 204
/// where it has none.
pub proof fn law_single_answer_is_the_snapshot(
    state: &DaemonState,
    provider: &String,
    known: Option<CachedPluginSnapshot>,
    r: SingleUsage,
)
    requires
        call_ensures(DaemonState::cached_one, (state, provider), known),
        call_ensures(single_usage, (state, provider), r),
    ensures
        known is None ==> r.status == 204 && r.snapshot is None,
        known matches Some(snapshot) ==> r.status == 200 && (r.snapshot matches Some(shown)
            && shown@ == snapshot@),
{
}

/// Answers with a status of 500 and above are logged as errors, those with 400 and above as
/// warnings, and all others as mere information.
pub proof fn law_bad_answers_are_logged_loudly(status: u16, r: RequestLogLevel)
    requires
        call_ensures(request_log_level, (status,), r),
    ensures
        500 <= status <= 599 ==> r is Error,
        400 <= status <= 499 ==> r is Warn,
        status < 400 || status > 599 ==> r is Info,
{
}

proof fn lemma_listed_adds(pieces: Seq<Seq<char>>, piece: Seq<char>)
    ensures
        listed_ids(pieces.push(piece)) == if is_blank(piece) {
            listed_ids(pieces)
        } else {
            listed_ids(pieces).push(trimmed(piece))
        },
{
    assert(pieces.push(piece).drop_last() =~= pieces);
}

/// A list without a comma names what it holds, without the white space around it.
pub proof fn law_one_name_is_read(
    raw: &Option<String>,
    a: Seq<char>,
    t: Seq<char>,
    b: Seq<char>,
    r: Option<Vec<String>>,
)
    requires
        call_ensures(parse_plugin_ids, (raw,), r),
        all_white(a),
        all_white(b),
        t.len() > 0 ==> !is_white_space(t[0]) && !is_white_space(t.last()),
        !(a + t + b).contains(','),
        *raw matches Some(text) && text@ == a + t + b,
    ensures
        t.len() == 0 ==> r is None,
        t.len() > 0 ==> (r matches Some(ids) && ids@.len() == 1 && ids@[0]@ == t),
{
    let text = a + t + b;
    law_trimming_takes_the_ends(a, t, b);
    lemma_no_separator(text, ',');
    let none = Seq::<Seq<char>>::empty();
    assert(split_on(text, ',') =~= none.push(text));
    lemma_listed_adds(none, text);
    match r {
        Some(ids) => {
            assert(views(ids@).len() == ids@.len());
            assert(ids@.len() > 0 ==> views(ids@)[0] == ids@[0]@);
        },
        None => {},
    }
}

pub(crate) proof fn lemma_no_separator(s: Seq<char>, sep: char)
    requires
        !s.contains(sep),
    ensures
        split_on(s, sep) == seq![s],
    decreases s.len(),
{
    if s.len() == 0 {
        assert(s =~= Seq::<char>::empty());
        assert(split_on(s, sep) =~= seq![s]);
    } else {
        let init = s.drop_last();
        assert(!init.contains(sep)) by {
            if init.contains(sep) {
                let i = choose|i: int| 0 <= i < init.len() && init[i] == sep;
                assert(s[i] == sep);
            }
        }
        lemma_no_separator(init, sep);
        assert(s.contains(s.last()));
        assert(s.last() != sep);
        assert(init.push(s.last()) =~= s);
        let before = seq![init];
        assert(before.last() == init);
        assert(before.drop_last() =~= Seq::<Seq<char>>::empty());
        assert(split_on(s, sep) =~= seq![s]);
    }
}

/// What stands behind a comma adds one more name at the end, unless it is blank; a text that
/// was not given names nothing.
pub proof fn law_further_name_is_added(
    raw: &Option<String>,
    shorter: &Option<String>,
    a: Seq<char>,
    t: Seq<char>,
    b: Seq<char>,
    r: Option<Vec<String>>,
    before: Option<Vec<String>>,
)
    requires
        call_ensures(parse_plugin_ids, (raw,), r),
        call_ensures(parse_plugin_ids, (shorter,), before),
        all_white(a),
        all_white(b),
        t.len() > 0 ==> !is_white_space(t[0]) && !is_white_space(t.last()),
        !(a + t + b).contains(','),
        *shorter is Some,
        *raw matches Some(text) && text@ == shorter.unwrap()@ + seq![','] + (a + t + b),
    ensures
        t.len() == 0 ==> (r is Some <==> before is Some),
        t.len() == 0 ==> (r matches Some(ids) ==> views(ids@) == views(before.unwrap()@)),
        t.len() > 0 ==> (r matches Some(ids) && views(ids@) == (match before {
            Some(known) => views(known@),
            None => Seq::empty(),
        }).push(t)),
{
    let head = shorter.unwrap()@;
    let piece = a + t + b;
    law_trimming_takes_the_ends(a, t, b);
    lemma_behind_separator(head, piece, ',');
    lemma_listed_adds(split_on(head, ','), piece);
    let known = listed_ids(split_on(head, ','));
    match before {
        Some(ids) => {
            assert(views(ids@) == known);
        },
        None => {
            assert(known =~= Seq::<Seq<char>>::empty());
        },
    }
}

pub(crate) proof fn lemma_behind_separator(head: Seq<char>, piece: Seq<char>, sep: char)
    requires
        !piece.contains(sep),
    ensures
        split_on(head + seq![sep] + piece, sep) == split_on(head, sep).push(piece),
    decreases piece.len(),
{
    let whole = head + seq![sep] + piece;
    if piece.len() == 0 {
        assert(whole.drop_last() =~= head);
        assert(whole.last() == sep);
        assert(piece =~= Seq::<char>::empty());
    } else {
        let init = piece.drop_last();
        assert(!init.contains(sep)) by {
            if init.contains(sep) {
                let i = choose|i: int| 0 <= i < init.len() && init[i] == sep;
                assert(piece[i] == sep);
            }
        }
        lemma_behind_separator(head, init, sep);
        assert(whole.drop_last() =~= head + seq![sep] + init);
        assert(piece.contains(piece.last()));
        assert(whole.last() == piece.last());
        let before = split_on(head, sep).push(init);
        assert(before.last() == init);
        assert(init.push(piece.last()) =~= piece);
        assert(before.drop_last() =~= split_on(head, sep));
    }
}

/// A request for usage asks for what is known, unless it says that the plugins are to be asked
/// again, and for the plugins that it names.
pub proof fn law_request_is_read(
    refresh: Option<bool>,
    names: &Option<String>,
    ids: Option<Vec<String>>,
    r: UsageRequest,
)
    requires
        call_ensures(usage_request, (refresh, names), r),
        call_ensures(parse_plugin_ids, (names,), ids),
    ensures
        refresh == Some(true) ==> r.refresh,
        refresh == Some(false) || refresh is None ==> !r.refresh,
        r.plugin_ids is Some <==> ids is Some,
        r.plugin_ids matches Some(wanted) ==> views(wanted@) == views(ids.unwrap()@),
        *names is None ==> ids is None && r.plugin_ids is None,
{
}

} // verus!
