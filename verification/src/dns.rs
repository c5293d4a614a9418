//! How names are resolved: by the system, or past it where the node's own packets are marked.
use vstd::prelude::*;

use crate::addr::{IpAddress, SocketAddress};
use crate::endpoint_url::{mapped_listener_port, AgreedPorts, EndpointUrl, HostParts, UrlHost, UrlParts};
use crate::text::chars_of;

verus! {

/// How the node's own lookups are made.
#[derive(Clone, Copy, Debug, PartialEq, Eq, Structural)]
pub struct ControlPlaneDns {
    /// The mark of the sockets; 0 for none.
    pub socket_mark: u32,
    /// Whether the system's resolver, whose sockets cannot be marked, may be used.
    pub allow_system_resolver: bool,
}

impl ControlPlaneDns {
    /// Without a mark, by the system.
    pub fn new() -> (r: Self)
        ensures
            r == (ControlPlaneDns { socket_mark: 0, allow_system_resolver: true }),
    {
        ControlPlaneDns { socket_mark: 0, allow_system_resolver: true }
    }
}

/// The lookups with a mark, or without one.
pub open spec fn lookups_with(mark: Option<u32>) -> ControlPlaneDns {
    ControlPlaneDns {
        socket_mark: match mark {
            Some(mark) => mark,
            None => 0,
        },
        allow_system_resolver: mark is None,
    }
}

/// Sets or takes away the mark of the node's own sockets. With a mark, even with 0, the system's
/// resolver is not used any more.
pub fn set_control_plane_socket_mark(dns: &mut ControlPlaneDns, mark: Option<u32>)
    ensures
        *final(dns) == lookups_with(mark),
{
    dns.socket_mark = match mark {
        Some(mark) => mark,
        None => 0,
    };
    dns.allow_system_resolver = mark.is_none();
}

/// The mark to put on a new socket, if any.
pub fn apply_control_plane_mark(dns: &ControlPlaneDns) -> (r: Option<u32>)
    ensures
        r == (if dns.socket_mark != 0 {
            Some(dns.socket_mark)
        } else {
            None
        }),
{
    if dns.socket_mark != 0 {
        Some(dns.socket_mark)
    } else {
        None
    }
}

/// The character is a decimal digit.
pub open spec fn is_digit(c: char) -> bool {
    '0' <= c <= '9'
}

/// The number that digits stand for.
pub open spec fn decimal(digits: Seq<char>) -> int
    decreases digits.len(),
{
    if digits.len() == 0 {
        0
    } else {
        decimal(digits.drop_last()) * 10 + (digits.last() as int - '0' as int)
    }
}

/// The digits of a number: a plus sign may stand before them.
pub open spec fn digits_of(text: Seq<char>) -> Seq<char> {
    if text.len() >= 2 && text[0] == '+' {
        text.skip(1)
    } else {
        text
    }
}

/// The port that a text stands for.
pub open spec fn port_of_text(text: Seq<char>) -> Option<u16> {
    let digits = digits_of(text);
    if digits.len() > 0 && (forall|i: int| 0 <= i < digits.len() ==> is_digit(#[trigger] digits[i]))
        && decimal(digits) <= u16::MAX {
        Some(decimal(digits) as u16)
    } else {
        None
    }
}

proof fn lemma_decimal_grows(digits: Seq<char>, n: int)
    requires
        0 <= n <= digits.len(),
        forall|i: int| 0 <= i < digits.len() ==> is_digit(#[trigger] digits[i]),
    ensures
        0 <= decimal(digits.take(n)) <= decimal(digits),
    decreases digits.len(),
{
    if digits.len() == 0 {
        assert(digits.take(n) =~= digits);
    } else {
        let front = digits.drop_last();
        assert forall|i: int| 0 <= i < front.len() implies is_digit(#[trigger] front[i]) by {
            assert(digits[i] == front[i]);
        }
        assert(is_digit(digits[digits.len() - 1]));
        if n < digits.len() {
            lemma_decimal_grows(front, n);
            assert(digits.take(n) =~= front.take(n));
        } else {
            lemma_decimal_grows(front, front.len() as int);
            assert(front.take(front.len() as int) =~= front);
            assert(digits.take(n) =~= digits);
        }
    }
}

fn parse_port(text: &Vec<char>, from: usize) -> (r: Option<u16>)
    requires
        from <= text@.len(),
    ensures
        r == port_of_text(text@.skip(from as int)),
{
    let ghost whole = text@.skip(from as int);
    let len: usize = text.len();
    let start: usize = if len - from >= 2 && text[from] == '+' {
        from + 1
    } else {
        from
    };
    let ghost digits = digits_of(whole);
    assert(digits =~= text@.skip(start as int));
    if start == len {
        return None;
    }
    let mut value: u32 = 0;
    let mut i: usize = start;
    assert(digits.take(0) =~= Seq::<char>::empty());
    while i < len
        invariant
            start <= i <= len,
            len == text@.len(),
            digits == text@.skip(start as int),
            digits == digits_of(whole),
            whole == text@.skip(from as int),
            value == decimal(digits.take(i - start)),
            value <= u16::MAX,
            forall|k: int| 0 <= k < i - start ==> is_digit(#[trigger] digits[k]),
        decreases len - i,
    {
        let c: char = text[i];
        assert(digits[i - start] == c);
        if c < '0' || c > '9' {
            assert(!is_digit(digits[i - start]));
            return None;
        }
        assert(digits.take(i - start + 1).drop_last() =~= digits.take(i - start));
        value = value * 10 + (c as u32 - '0' as u32);
        if value > 65535 {
            proof {
                if forall|k: int| 0 <= k < digits.len() ==> is_digit(#[trigger] digits[k]) {
                    lemma_decimal_grows(digits, i - start + 1);
                }
            }
            return None;
        }
        i += 1;
    }
    assert(digits.take(len - start) =~= digits);
    Some(value as u16)
}

/// A bracket as it stands around IPv6 addresses.
pub open spec fn is_bracket(c: char) -> bool {
    c == '[' || c == ']'
}

/// The text without the brackets at its start.
pub open spec fn after_brackets(text: Seq<char>) -> Seq<char>
    decreases text.len(),
{
    if text.len() > 0 && is_bracket(text[0]) {
        after_brackets(text.skip(1))
    } else {
        text
    }
}

/// The text without the brackets at its start and its end.
pub open spec fn without_brackets(text: Seq<char>) -> Seq<char>
    decreases text.len(),
{
    if text.len() > 0 && is_bracket(text.last()) {
        without_brackets(text.drop_last())
    } else {
        after_brackets(text)
    }
}

/// The place of the last colon.
pub open spec fn last_colon(text: Seq<char>) -> Option<int>
    decreases text.len(),
{
    if text.len() == 0 {
        None
    } else if text.last() == ':' {
        Some(text.len() - 1)
    } else {
        last_colon(text.drop_last())
    }
}

/// How a host is looked up.
#[derive(Debug)]
pub enum HostLookup<'a> {
    /// By the system, the host and its port as they stand.
    System,
    /// By the node's own resolver.
    Resolver { host: &'a str, port: u16 },
}

/// The host has no port, or one that is no number.
#[derive(Clone, Copy, Debug, PartialEq, Eq, Structural)]
pub enum HostLookupError {
    NoPort,
    InvalidPort,
}

/// Decides how a host with a port is looked up. Where sockets are marked, the system is not asked.
pub fn plan_control_plane_lookup<'a>(dns: &ControlPlaneDns, host: &'a str) -> (r: Result<
    HostLookup<'a>,
    HostLookupError,
>)
    ensures
        dns.socket_mark == 0 ==> r is Ok && r->Ok_0 is System,
        dns.socket_mark != 0 ==> match last_colon(host@) {
            None => r is Err && r->Err_0 == HostLookupError::NoPort,
            Some(at) => match port_of_text(host@.skip(at + 1)) {
                None => r is Err && r->Err_0 == HostLookupError::InvalidPort,
                Some(port) => r is Ok && r->Ok_0 is Resolver && r->Ok_0->host@ == without_brackets(
                    host@.take(at),
                ) && r->Ok_0->port == port,
            },
        },
{
    if dns.socket_mark == 0 {
        return Ok(HostLookup::System);
    }
    let chars = chars_of(host);
    let len: usize = chars.len();
    let mut end: usize = len;
    assert(host@.take(len as int) =~= host@);
    while end > 0 && chars[end - 1] != ':'
        invariant
            chars@ == host@,
            len == host@.len(),
            end <= len,
            last_colon(host@) == last_colon(host@.take(end as int)),
        decreases end,
    {
        assert(host@.take(end as int).drop_last() =~= host@.take(end as int - 1));
        end -= 1;
    }
    if end == 0 {
        assert(host@.take(0) =~= Seq::<char>::empty());
        return Err(HostLookupError::NoPort);
    }
    let at: usize = end - 1;
    let ghost name = host@.take(at as int);
    let port = match parse_port(&chars, end) {
        None => {
            return Err(HostLookupError::InvalidPort);
        },
        Some(port) => port,
    };
    let mut last: usize = at;
    assert(host@.take(at as int).take(at as int) =~= name);
    while last > 0 && (chars[last - 1] == '[' || chars[last - 1] == ']')
        invariant
            chars@ == host@,
            at < host@.len(),
            last <= at,
            without_brackets(name) == without_brackets(host@.take(last as int)),
        decreases last,
    {
        assert(host@.take(last as int).drop_last() =~= host@.take(last as int - 1));
        last -= 1;
    }
    let ghost core = host@.take(last as int);
    let mut first: usize = 0;
    assert(core.skip(0) =~= core);
    while first < last && (chars[first] == '[' || chars[first] == ']')
        invariant
            chars@ == host@,
            last <= host@.len(),
            first <= last,
            core == host@.take(last as int),
            after_brackets(core) == after_brackets(core.skip(first as int)),
        decreases last - first,
    {
        assert(core.skip(first as int)[0] == chars@[first as int]);
        assert(core.skip(first as int).skip(1) =~= core.skip(first as int + 1));
        first += 1;
    }
    let name_text = host.substring_char(first, last);
    proof {
        assert(name_text@ =~= core.skip(first as int));
        if first < last {
            assert(core.skip(first as int)[0] == chars@[first as int]);
        }
        if last > 0 {
            assert(core.last() == chars@[last as int - 1]);
        }
    }
    Ok(HostLookup::Resolver { host: name_text, port })
}

/// How the addresses of a URL are found.
#[derive(Debug)]
pub enum AddrPlan {
    /// The URL holds its address.
    Direct(SocketAddress),
    /// The name is looked up: by the system first, if that is allowed, and then by the node's own
    /// resolver.
    Lookup { host: String, port: u16, system_first: bool },
}

/// The URL has no host, or no port and its scheme stands for none.
#[derive(Clone, Copy, Debug, PartialEq, Eq, Structural)]
pub struct InvalidUrlForAddrs;

/// The port at which the addresses of a URL are wanted: its own, 0 included, before any default.
pub open spec fn wanted_port(url: UrlParts, default_port: Option<u16>) -> Option<u16> {
    match url.port {
        Some(port) => Some(port),
        None => default_port,
    }
}

/// Decides how the addresses of a URL are found.
pub fn plan_socket_addrs(url: &EndpointUrl, default_port: Option<u16>, dns: &ControlPlaneDns) -> (r:
    Result<AddrPlan, InvalidUrlForAddrs>)
    ensures
        r is Err <==> url@.host is Missing || wanted_port(url@, default_port) is None,
        r is Ok ==> match url@.host {
            HostParts::Missing => false,
            HostParts::Ipv4(ip) => r->Ok_0 == AddrPlan::Direct(
                SocketAddress::of(IpAddress::V4(ip), wanted_port(url@, default_port)->0),
            ),
            HostParts::Ipv6(ip) => r->Ok_0 == AddrPlan::Direct(
                SocketAddress::of(IpAddress::V6(ip), wanted_port(url@, default_port)->0),
            ),
            HostParts::Domain(name) => r->Ok_0 is Lookup && r->Ok_0->host@ == name
                && r->Ok_0->port == wanted_port(url@, default_port)->0 && r->Ok_0->system_first
                == dns.allow_system_resolver,
        },
{
    let port = match url.port {
        Some(port) => Some(port),
        None => default_port,
    };
    match &url.host {
        UrlHost::Missing => Err(InvalidUrlForAddrs),
        UrlHost::Ipv4(ip) => match port {
            None => Err(InvalidUrlForAddrs),
            Some(port) => Ok(AddrPlan::Direct(SocketAddress::new(IpAddress::V4(*ip), port))),
        },
        UrlHost::Ipv6(ip) => match port {
            None => Err(InvalidUrlForAddrs),
            Some(port) => Ok(AddrPlan::Direct(SocketAddress::new(IpAddress::V6(*ip), port))),
        },
        UrlHost::Domain(name) => match port {
            None => Err(InvalidUrlForAddrs),
            Some(port) => Ok(
                AddrPlan::Lookup {
                    host: name.clone(),
                    port,
                    system_first: dns.allow_system_resolver,
                },
            ),
        },
    }
}

/// Decides how the addresses of a listener are found: at its own port or at the one that its scheme
/// stands for.
pub fn plan_mapped_listener_addrs(
    listener: &EndpointUrl,
    agreed: &AgreedPorts,
    dns: &ControlPlaneDns,
) -> (r: Result<AddrPlan, InvalidUrlForAddrs>)
    ensures
        r is Err <==> listener@.host is Missing || listener@.effective_port(*agreed) is None,
        r is Ok ==> match listener@.host {
            HostParts::Missing => false,
            HostParts::Ipv4(ip) => r->Ok_0 == AddrPlan::Direct(
                SocketAddress::of(IpAddress::V4(ip), listener@.effective_port(*agreed)->0),
            ),
            HostParts::Ipv6(ip) => r->Ok_0 == AddrPlan::Direct(
                SocketAddress::of(IpAddress::V6(ip), listener@.effective_port(*agreed)->0),
            ),
            HostParts::Domain(name) => r->Ok_0 is Lookup && r->Ok_0->host@ == name
                && r->Ok_0->port == listener@.effective_port(*agreed)->0 && r->Ok_0->system_first
                == dns.allow_system_resolver,
        },
{
    plan_socket_addrs(listener, mapped_listener_port(listener, agreed), dns)
}

/// The endpoints of some addresses.
pub open spec fn endpoints_of(ips: Seq<IpAddress>, port: u16) -> Seq<SocketAddress> {
    ips.map_values(|ip: IpAddress| SocketAddress::of(ip, port))
}

/// Puts the port to the addresses that a name was resolved to.
pub fn socket_addrs_at(ips: &Vec<IpAddress>, port: u16) -> (r: Vec<SocketAddress>)
    ensures
        r@ == endpoints_of(ips@, port),
{
    let mut out: Vec<SocketAddress> = Vec::new();
    let mut i: usize = 0;
    while i < ips.len()
        invariant
            i <= ips@.len(),
            out@ == endpoints_of(ips@, port).take(i as int),
        decreases ips@.len() - i,
    {
        out.push(SocketAddress::new(ips[i], port));
        i += 1;
        assert(out@ =~= endpoints_of(ips@, port).take(i as int));
    }
    assert(out@ =~= endpoints_of(ips@, port));
    out
}

/// Marked sockets and the system's resolver never go together: the system is asked only while no
/// mark is set.
pub proof fn law_marked_lookups_bypass_the_system(mark: Option<u32>)
    ensures
        lookups_with(mark).socket_mark != 0 ==> !lookups_with(mark).allow_system_resolver,
        lookups_with(mark).allow_system_resolver <==> mark is None,
        lookups_with(None).socket_mark == 0,
{
}

proof fn lemma_decimal_of_number(n: int)
    requires
        0 <= n,
    ensures
        decimal(crate::text::number_text(n)) == n,
        forall|i: int|
            0 <= i < crate::text::number_text(n).len() ==> is_digit(
                #[trigger] crate::text::number_text(n)[i],
            ),
        crate::text::number_text(n).len() > 0,
    decreases n,
{
    let text = crate::text::number_text(n);
    if n < 10 {
        assert(text.drop_last().len() == 0);
        assert(decimal(text.drop_last()) == 0);
    } else {
        lemma_decimal_of_number(n / 10);
        let front = crate::text::number_text(n / 10);
        assert(text.drop_last() =~= front);
        assert forall|i: int| 0 <= i < text.len() implies is_digit(#[trigger] text[i]) by {
            if i < front.len() {
                assert(text[i] == front[i]);
            }
        }
    }
}

/// The digits of a number are the port of that number, with a plus sign before them or without; a number
/// that is too large is no port.
pub proof fn law_ports_are_read_as_they_are_written(n: int)
    requires
        0 <= n,
    ensures
        ({
            let digits = crate::text::number_text(n);
            &&& n <= 65535 ==> port_of_text(digits) == Some(n as u16)
            &&& n <= 65535 ==> port_of_text(seq!['+'] + digits) == Some(n as u16)
            &&& n > 65535 ==> port_of_text(digits) is None
        }),
{
    let digits = crate::text::number_text(n);
    lemma_decimal_of_number(n);
    assert(is_digit(digits[0]));
    assert(digits_of(digits) == digits);
    let signed = seq!['+'] + digits;
    assert(signed.skip(1) =~= digits);
}

/// A text with any other character is no port, nor is an empty one.
pub proof fn law_other_texts_are_no_ports(text: Seq<char>, i: int)
    ensures
        0 < i < text.len() && !('0' <= text[i] <= '9') ==> port_of_text(text) is None,
        text.len() > 0 && !('0' <= text[0] <= '9') && text[0] != '+' ==> port_of_text(text) is None,
        text.len() == 0 ==> port_of_text(text) is None,
        text == seq!['+'] ==> port_of_text(text) is None,
{
    let digits = digits_of(text);
    if 0 < i < text.len() && !('0' <= text[i] <= '9') {
        if text.len() >= 2 && text[0] == '+' {
            assert(digits[i - 1] == text[i]);
            assert(!is_digit(digits[i - 1]));
        } else {
            assert(!is_digit(digits[i]));
        }
    }
    if text.len() > 0 && !('0' <= text[0] <= '9') && text[0] != '+' {
        assert(!is_digit(digits[0]));
    }
    if text == seq!['+'] {
        assert(digits[0] == '+');
        assert(!is_digit(digits[0]));
    }
}

proof fn lemma_after_brackets(text: Seq<char>)
    ensures
        after_brackets(text).len() <= text.len(),
        text.skip(text.len() - after_brackets(text).len()) == after_brackets(text),
        after_brackets(text).len() > 0 ==> !is_bracket(after_brackets(text)[0]),
        forall|i: int| 0 <= i < text.len() - after_brackets(text).len() ==> is_bracket(#[trigger] text[i]),
    decreases text.len(),
{
    if text.len() > 0 && is_bracket(text[0]) {
        let rest = text.skip(1);
        lemma_after_brackets(rest);
        let cut = rest.len() - after_brackets(rest).len();
        assert(text.skip(cut + 1) =~= rest.skip(cut));
        assert forall|i: int| 0 <= i < cut + 1 implies is_bracket(#[trigger] text[i]) by {
            if i > 0 {
                assert(rest[i - 1] == text[i]);
            }
        }
    } else {
        assert(text.skip(0) =~= text);
    }
}

/// Only brackets are taken away, from both ends, and all of them.
pub proof fn law_brackets_are_taken_away(text: Seq<char>) -> (front: int)
    ensures
        0 <= front,
        front + without_brackets(text).len() <= text.len(),
        text.subrange(front, front + without_brackets(text).len()) == without_brackets(text),
        forall|i: int| 0 <= i < front ==> is_bracket(#[trigger] text[i]),
        forall|i: int|
            front + without_brackets(text).len() <= i < text.len() ==> is_bracket(#[trigger] text[i]),
        without_brackets(text).len() > 0 ==> !is_bracket(without_brackets(text)[0]) && !is_bracket(
            without_brackets(text).last(),
        ),
    decreases text.len(),
{
    if text.len() > 0 && is_bracket(text.last()) {
        let rest = text.drop_last();
        let front = law_brackets_are_taken_away(rest);
        let kept = without_brackets(rest);
        assert(text.subrange(front, front + kept.len()) =~= rest.subrange(front, front + kept.len()));
        assert forall|i: int| 0 <= i < front implies is_bracket(#[trigger] text[i]) by {
            assert(rest[i] == text[i]);
        }
        assert forall|i: int| front + kept.len() <= i < text.len() implies is_bracket(
            #[trigger] text[i],
        ) by {
            if i < rest.len() {
                assert(rest[i] == text[i]);
            }
        }
        front
    } else {
        lemma_after_brackets(text);
        let kept = after_brackets(text);
        let front = text.len() - kept.len();
        assert(text.subrange(front, text.len() as int) =~= text.skip(front));
        if kept.len() > 0 {
            assert(kept.last() == text.skip(front)[kept.len() - 1]);
            assert(kept.last() == text.last());
        }
        front
    }
}

/// The last colon is a colon, and none comes after it; a text without one has none.
pub proof fn law_last_colon_is_the_last(text: Seq<char>)
    ensures
        match last_colon(text) {
            Some(i) => 0 <= i < text.len() && text[i] == ':' && forall|j: int|
                i < j < text.len() ==> (#[trigger] text[j]) != ':',
            None => forall|j: int| 0 <= j < text.len() ==> (#[trigger] text[j]) != ':',
        },
    decreases text.len(),
{
    if text.len() > 0 && text.last() != ':' {
        let front = text.drop_last();
        law_last_colon_is_the_last(front);
        assert forall|j: int| 0 <= j < front.len() implies front[j] == #[trigger] text[j] by {}
    }
}

/// The port of a URL counts before any default; without either there is none.
pub proof fn law_own_port_counts_first(url: UrlParts, default_port: Option<u16>)
    ensures
        url.port is Some ==> wanted_port(url, default_port) == url.port,
        url.port is None ==> wanted_port(url, default_port) == default_port,
{
}

/// The endpoints of some addresses are those addresses, in their order, at the port.
pub proof fn law_endpoints_keep_their_order(ips: Seq<IpAddress>, port: u16, i: int)
    requires
        0 <= i < ips.len(),
    ensures
        endpoints_of(ips, port).len() == ips.len(),
        endpoints_of(ips, port)[i].spec_ip() == ips[i],
        endpoints_of(ips, port)[i].spec_port() == port,
{
}

/// Lookups with a mark never use the system's resolver, whose sockets have none; lookups without one may.
pub proof fn law_marks_rule_the_system_out(mark: Option<u32>)
    ensures
        mark is Some ==> lookups_with(mark).socket_mark == mark->0,
        mark is Some ==> !lookups_with(mark).allow_system_resolver,
        mark is None ==> lookups_with(mark).socket_mark == 0 && lookups_with(mark).allow_system_resolver,
{
}

/// A socket is marked just where a mark is set.
pub proof fn law_marks_are_set(dns: &ControlPlaneDns, r: Option<u32>)
    requires
        call_ensures(apply_control_plane_mark, (dns,), r),
    ensures
        r is None <==> dns.socket_mark == 0,
        r is Some ==> r->0 == dns.socket_mark,
{
}

/// A host that is an address is connected to directly and a name is looked up; there must be a host and a
/// port.
pub proof fn law_names_are_looked_up(
    url: &EndpointUrl,
    default_port: Option<u16>,
    dns: &ControlPlaneDns,
    r: Result<AddrPlan, InvalidUrlForAddrs>,
)
    requires
        call_ensures(plan_socket_addrs, (url, default_port, dns), r),
    ensures
        url@.host is Missing ==> r is Err,
        r is Ok && r->Ok_0 is Lookup <==> r is Ok && url@.host is Domain,
        r is Ok && url@.host is Domain ==> r->Ok_0->host@ == url@.host->Domain_0 && r->Ok_0->system_first
            == dns.allow_system_resolver,
        r is Ok && url@.host is Ipv4 ==> r->Ok_0 is Direct && r->Ok_0->Direct_0.spec_ip() == IpAddress::V4(
            url@.host->Ipv4_0,
        ),
        r is Ok && url@.host is Ipv6 ==> r->Ok_0 is Direct && r->Ok_0->Direct_0.spec_ip() == IpAddress::V6(
            url@.host->Ipv6_0,
        ),
        r is Ok && url@.port is Some && r->Ok_0 is Direct ==> r->Ok_0->Direct_0.spec_port() == url@.port->0,
        r is Ok && url@.port is Some && r->Ok_0 is Lookup ==> r->Ok_0->port == url@.port->0,
{
}

} // verus!
