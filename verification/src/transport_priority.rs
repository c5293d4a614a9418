//! The order in which transports are preferred: a default order and rules that move transports
//! to the front, for all peers, for peers in the same or in another network, or for one peer.
use vstd::prelude::*;

use crate::addr::IpAddress;
use crate::build_features::{FEATURE_FAKETCP, FEATURE_QUIC, FEATURE_WEBSOCKET, FEATURE_WIREGUARD};
use crate::ip_range::{ip_from_text, parse_ip_address};
use crate::keyed_table::{lemma_map_of, map_of, unique_keys};
use crate::text::{chars_of, lowered, lowers_to, parts, same_text, split, trim, trimmed};

verus! {

/// A transport that a rule can name.
#[derive(Clone, Copy, Debug, PartialEq, Eq, Structural)]
pub enum TransportProtocol {
    Tcp,
    Udp,
    Wg,
    Quic,
    Ws,
    Wss,
    FakeTcp,
}

impl TransportProtocol {
    pub open spec fn name(self) -> Seq<char> {
        match self {
            TransportProtocol::Tcp => "tcp"@,
            TransportProtocol::Udp => "udp"@,
            TransportProtocol::Wg => "wg"@,
            TransportProtocol::Quic => "quic"@,
            TransportProtocol::Ws => "ws"@,
            TransportProtocol::Wss => "wss"@,
            TransportProtocol::FakeTcp => "faketcp"@,
        }
    }

    pub fn as_str(self) -> (r: &'static str)
        ensures
            r@ == self.name(),
    {
        match self {
            TransportProtocol::Tcp => "tcp",
            TransportProtocol::Udp => "udp",
            TransportProtocol::Wg => "wg",
            TransportProtocol::Quic => "quic",
            TransportProtocol::Ws => "ws",
            TransportProtocol::Wss => "wss",
            TransportProtocol::FakeTcp => "faketcp",
        }
    }
}

/// The transports from the most to the least preferred where no rule says otherwise.
pub open spec fn builtin_order() -> Seq<TransportProtocol> {
    seq![
        TransportProtocol::Tcp,
        TransportProtocol::Udp,
        TransportProtocol::Wg,
        TransportProtocol::Quic,
        TransportProtocol::Ws,
        TransportProtocol::Wss,
        TransportProtocol::FakeTcp,
    ]
}

/// The names of the transports from the most to the least preferred where no rule says otherwise.
pub const BUILTIN_TRANSPORT_ORDER: [&'static str; 7] = [
    "tcp",
    "udp",
    "wg",
    "quic",
    "ws",
    "wss",
    "faketcp",
];

/// The transports from the most to the least preferred where no rule says otherwise.
pub fn builtin_transports() -> (r: Vec<TransportProtocol>)
    ensures
        r@ == builtin_order(),
{
    let mut order: Vec<TransportProtocol> = Vec::new();
    order.push(TransportProtocol::Tcp);
    order.push(TransportProtocol::Udp);
    order.push(TransportProtocol::Wg);
    order.push(TransportProtocol::Quic);
    order.push(TransportProtocol::Ws);
    order.push(TransportProtocol::Wss);
    order.push(TransportProtocol::FakeTcp);
    assert(order@ =~= builtin_order());
    order
}

/// Where a path to a peer leads.
#[derive(Clone, Copy, Debug, PartialEq, Eq, Structural)]
pub enum TransportPathClass {
    Lan,
    Wan,
}

/// How much a way to reach a peer is preferred: by its path first, then by its transport.
#[derive(Clone, Copy, Debug, PartialEq, Eq, Structural)]
pub struct PreferenceKey {
    pub path: TransportPathClass,
    pub rank: usize,
}

/// The place of a name in an order.
pub open spec fn place_in(order: Seq<Seq<char>>, name: Seq<char>) -> Option<int>
    decreases order.len(),
{
    if order.len() == 0 {
        None
    } else if place_in(order.drop_last(), name) is Some {
        place_in(order.drop_last(), name)
    } else if order.last() == name {
        Some(order.len() - 1)
    } else {
        None
    }
}

/// The texts of a list.
pub open spec fn names_of(order: Seq<String>) -> Seq<Seq<char>> {
    order.map_values(|name: String| name@)
}

/// The place of a transport in an order; one that is not in it comes behind all others.
pub open spec fn rank_in(order: Seq<Seq<char>>, name: Seq<char>) -> int {
    match place_in(order, name) {
        Some(place) => place,
        None => usize::MAX as int,
    }
}

impl PreferenceKey {
    pub open spec fn of(path: TransportPathClass, order: Seq<Seq<char>>, name: Seq<char>) -> Self {
        PreferenceKey { path, rank: rank_in(order, name) as usize }
    }

    /// This way is preferred to the other.
    pub open spec fn before(self, other: Self) -> bool {
        if self.path == other.path {
            self.rank < other.rank
        } else {
            self.path is Lan
        }
    }

    /// The other way is not preferred to this one.
    pub open spec fn not_after(self, other: Self) -> bool {
        !other.before(self)
    }

    pub fn new(path: TransportPathClass, order: &Vec<String>, name: &str) -> (r: Self)
        ensures
            r == PreferenceKey::of(path, names_of(order@), name@),
    {
        let ghost names = names_of(order@);
        let mut i: usize = 0;
        assert(names.take(0) =~= Seq::<Seq<char>>::empty());
        while i < order.len()
            invariant
                i <= order@.len(),
                names == names_of(order@),
                place_in(names.take(i as int), name@) is None,
            decreases order@.len() - i,
        {
            assert(names.take(i as int + 1).drop_last() =~= names.take(i as int));
            if same_text(order[i].as_str(), name) {
                proof {
                    lemma_place_stays(names, i as int + 1, name@);
                    assert(place_in(names.take(i as int + 1), name@) == Some(i as int));
                }
                return PreferenceKey { path, rank: i };
            }
            i += 1;
        }
        assert(names.take(names.len() as int) =~= names);
        PreferenceKey { path, rank: usize::MAX }
    }

    pub fn is_before(self, other: Self) -> (r: bool)
        ensures
            r == self.before(other),
    {
        if self.path == other.path {
            self.rank < other.rank
        } else {
            match self.path {
                TransportPathClass::Lan => true,
                TransportPathClass::Wan => false,
            }
        }
    }
}

proof fn lemma_place_stays(order: Seq<Seq<char>>, n: int, name: Seq<char>)
    requires
        0 <= n <= order.len(),
        place_in(order.take(n), name) is Some,
    ensures
        place_in(order, name) == place_in(order.take(n), name),
    decreases order.len() - n,
{
    if n < order.len() {
        assert(order.take(n + 1).drop_last() =~= order.take(n));
        lemma_place_stays(order, n + 1, name);
    } else {
        assert(order.take(n) =~= order);
    }
}

/// A local path is preferred to any other, whatever the transports; on the same path a transport
/// that comes earlier in the order is preferred to one that comes later; and no way is preferred to
/// itself.
pub proof fn law_path_is_compared_before_transport(a: PreferenceKey, b: PreferenceKey, c: PreferenceKey)
    ensures
        a.path is Lan && b.path is Wan ==> a.before(b),
        a.path == b.path ==> a.before(b) == (a.rank < b.rank),
        !a.before(a),
        a.before(b) && b.before(c) ==> a.before(c),
        a.before(b) || b.before(a) || a == b,
{
}

/// The peers that a rule is for.
#[derive(Clone, Copy, Debug, PartialEq, Eq, Hash, Structural)]
pub enum TransportPriorityScope {
    Global,
    Wan,
    Lan,
    VirtualIp(IpAddress),
}

/// Why a list of rules is refused.
#[derive(Clone, Copy, Debug, PartialEq, Eq, Structural)]
pub enum TransportPriorityError {
    /// A rule is blank.
    EmptyRule,
    /// A rule that starts with a bracket has no `]:`.
    NoBracketSeparator,
    /// A rule has no colon.
    NoSeparator,
    /// A scope has a bracket on one side only.
    InvalidBracketedScope,
    /// The text in brackets is no address.
    InvalidVirtualIp,
    /// An IPv4 address stands in brackets.
    BracketedIpv4,
    /// A scope is neither a word that is known nor an address.
    UnknownScope,
    /// An IPv6 address stands without brackets.
    UnbracketedIpv6,
    /// Two rules have the same scope.
    DuplicateScope,
    /// A rule names no transport.
    EmptyProtocolList,
    /// An item of a rule is blank.
    EmptyProtocol,
    /// An item names no transport.
    UnknownProtocol,
    /// A rule names a transport twice.
    DuplicateProtocol(TransportProtocol),
}

/// The transport with the given name.
pub open spec fn transport_named(word: Seq<char>) -> Option<TransportProtocol> {
    if word == "tcp"@ {
        Some(TransportProtocol::Tcp)
    } else if word == "udp"@ {
        Some(TransportProtocol::Udp)
    } else if word == "wg"@ {
        Some(TransportProtocol::Wg)
    } else if word == "quic"@ {
        Some(TransportProtocol::Quic)
    } else if word == "ws"@ {
        Some(TransportProtocol::Ws)
    } else if word == "wss"@ {
        Some(TransportProtocol::Wss)
    } else if word == "faketcp"@ {
        Some(TransportProtocol::FakeTcp)
    } else {
        None
    }
}

/// The transports that the items name, or what is wrong with the first bad item.
pub open spec fn transports_of_items(items: Seq<Seq<char>>) -> Result<
    Seq<TransportProtocol>,
    TransportPriorityError,
>
    decreases items.len(),
{
    if items.len() == 0 {
        Ok(Seq::empty())
    } else {
        match transports_of_items(items.drop_last()) {
            Err(error) => Err(error),
            Ok(before) => {
                let item = trimmed(items.last());
                if item.len() == 0 {
                    Err(TransportPriorityError::EmptyProtocol)
                } else {
                    match transport_named(lowered(item)) {
                        None => Err(TransportPriorityError::UnknownProtocol),
                        Some(protocol) => if before.contains(protocol) {
                            Err(TransportPriorityError::DuplicateProtocol(protocol))
                        } else {
                            Ok(before.push(protocol))
                        },
                    }
                }
            },
        }
    }
}

/// The transports that the right side of a rule names.
pub open spec fn transports_of_list(list: Seq<char>) -> Result<
    Seq<TransportProtocol>,
    TransportPriorityError,
> {
    if trimmed(list).len() == 0 {
        Err(TransportPriorityError::EmptyProtocolList)
    } else {
        transports_of_items(parts(trimmed(list), ','))
    }
}

/// The scope that the left side of a rule names.
pub open spec fn scope_of_text(value: Seq<char>) -> Result<
    TransportPriorityScope,
    TransportPriorityError,
> {
    if lowered(value) == "global"@ {
        Ok(TransportPriorityScope::Global)
    } else if lowered(value) == "wan"@ {
        Ok(TransportPriorityScope::Wan)
    } else if lowered(value) == "lan"@ {
        Ok(TransportPriorityScope::Lan)
    } else if value.len() > 0 && (value[0] == '[' || value.last() == ']') {
        if value[0] == '[' && value.last() == ']' {
            match ip_from_text(value.subrange(1, value.len() - 1)) {
                None => Err(TransportPriorityError::InvalidVirtualIp),
                Some(IpAddress::V4(_)) => Err(TransportPriorityError::BracketedIpv4),
                Some(ip) => Ok(TransportPriorityScope::VirtualIp(ip)),
            }
        } else {
            Err(TransportPriorityError::InvalidBracketedScope)
        }
    } else {
        match ip_from_text(value) {
            None => Err(TransportPriorityError::UnknownScope),
            Some(IpAddress::V6(_)) => Err(TransportPriorityError::UnbracketedIpv6),
            Some(ip) => Ok(TransportPriorityScope::VirtualIp(ip)),
        }
    }
}

/// The first place at or after `from` where `]:` stands.
pub open spec fn find_bracket(s: Seq<char>, from: int) -> Option<int>
    decreases s.len() - from,
{
    if from < 0 || from + 1 >= s.len() {
        None
    } else if s[from] == ']' && s[from + 1] == ':' {
        Some(from)
    } else {
        find_bracket(s, from + 1)
    }
}

/// The first place at or after `from` where a colon stands.
pub open spec fn find_colon(s: Seq<char>, from: int) -> Option<int>
    decreases s.len() - from,
{
    if from < 0 || from >= s.len() {
        None
    } else if s[from] == ':' {
        Some(from)
    } else {
        find_colon(s, from + 1)
    }
}

/// The two sides of a rule.
pub open spec fn sides_of_rule(rule: Seq<char>) -> Result<
    (Seq<char>, Seq<char>),
    TransportPriorityError,
> {
    if rule.len() > 0 && rule[0] == '[' {
        match find_bracket(rule, 0) {
            None => Err(TransportPriorityError::NoBracketSeparator),
            Some(i) => Ok((rule.subrange(0, i + 1), rule.subrange(i + 2, rule.len() as int))),
        }
    } else {
        match find_colon(rule, 0) {
            None => Err(TransportPriorityError::NoSeparator),
            Some(i) => Ok((rule.subrange(0, i), rule.subrange(i + 1, rule.len() as int))),
        }
    }
}

/// A rule with its place in the list.
pub type PriorityRule = (TransportPriorityScope, Seq<TransportProtocol>);

/// A rule has the scope.
pub open spec fn has_scope(rules: Seq<PriorityRule>, scope: TransportPriorityScope) -> bool {
    exists|i: int| 0 <= i < rules.len() && (#[trigger] rules[i]).0 == scope
}

/// The rule that a text stands for, read after the rules `before`.
pub open spec fn rule_of_text(before: Seq<PriorityRule>, text: Seq<char>) -> Result<
    PriorityRule,
    TransportPriorityError,
> {
    let rule = trimmed(text);
    if rule.len() == 0 {
        Err(TransportPriorityError::EmptyRule)
    } else {
        match sides_of_rule(rule) {
            Err(error) => Err(error),
            Ok((left, right)) => match scope_of_text(trimmed(left)) {
                Err(error) => Err(error),
                Ok(scope) => if has_scope(before, scope) {
                    Err(TransportPriorityError::DuplicateScope)
                } else {
                    match transports_of_list(right) {
                        Err(error) => Err(error),
                        Ok(protocols) => Ok((scope, protocols)),
                    }
                },
            },
        }
    }
}

/// The rules that the texts stand for, or what is wrong with the first bad one.
pub open spec fn rules_of_texts(texts: Seq<Seq<char>>) -> Result<
    Seq<PriorityRule>,
    TransportPriorityError,
>
    decreases texts.len(),
{
    if texts.len() == 0 {
        Ok(Seq::empty())
    } else {
        match rules_of_texts(texts.drop_last()) {
            Err(error) => Err(error),
            Ok(before) => match rule_of_text(before, texts.last()) {
                Err(error) => Err(error),
                Ok(rule) => Ok(before.push(rule)),
            },
        }
    }
}

/// What a configured priority means: `scope:proto,...;scope:proto,...`, or nothing.
pub open spec fn rules_of_text(value: Seq<char>) -> Result<
    Seq<PriorityRule>,
    TransportPriorityError,
> {
    if trimmed(value).len() == 0 {
        Ok(Seq::empty())
    } else {
        rules_of_texts(parts(trimmed(value), ';'))
    }
}

/// The order with the transports of a rule moved to the front.
pub open spec fn promoted(rule: Seq<TransportProtocol>, order: Seq<TransportProtocol>) -> Seq<
    TransportProtocol,
> {
    rule + order.filter(|p: TransportProtocol| !rule.contains(p))
}

/// The order after the rule of `scope`, if there is one.
pub open spec fn promoted_by(
    rules: Seq<PriorityRule>,
    scope: TransportPriorityScope,
    order: Seq<TransportProtocol>,
) -> Seq<TransportProtocol> {
    if map_of(rules).contains_key(scope) {
        promoted(map_of(rules)[scope], order)
    } else {
        order
    }
}

/// The order that the rules give for a peer.
pub open spec fn order_by_rules(
    rules: Seq<PriorityRule>,
    is_lan: bool,
    virtual_ip: Option<IpAddress>,
) -> Seq<TransportProtocol> {
    let general = promoted_by(rules, TransportPriorityScope::Global, builtin_order());
    let nearby = promoted_by(
        rules,
        if is_lan {
            TransportPriorityScope::Lan
        } else {
            TransportPriorityScope::Wan
        },
        general,
    );
    match virtual_ip {
        None => nearby,
        Some(ip) => promoted_by(rules, TransportPriorityScope::VirtualIp(ip), nearby),
    }
}

/// A rule as it is stored.
#[derive(Debug)]
struct StoredRule {
    scope: TransportPriorityScope,
    protocols: Vec<TransportProtocol>,
}

/// The configured rules.
#[derive(Debug)]
pub struct TransportPriority {
    rules: Vec<StoredRule>,
}

impl View for TransportPriority {
    type V = Seq<PriorityRule>;

    closed spec fn view(&self) -> Seq<PriorityRule> {
        stored(self.rules@)
    }
}

spec fn stored(rules: Seq<StoredRule>) -> Seq<PriorityRule> {
    rules.map_values(|rule: StoredRule| (rule.scope, rule.protocols@))
}

proof fn lemma_first_rule_error_stays(texts: Seq<Seq<char>>, n: int)
    requires
        0 <= n <= texts.len(),
        rules_of_texts(texts.take(n)) is Err,
    ensures
        rules_of_texts(texts) == rules_of_texts(texts.take(n)),
    decreases texts.len() - n,
{
    if n < texts.len() {
        assert(texts.take(n + 1).drop_last() =~= texts.take(n));
        lemma_first_rule_error_stays(texts, n + 1);
    } else {
        assert(texts.take(n) =~= texts);
    }
}

proof fn lemma_first_item_error_stays(items: Seq<Seq<char>>, n: int)
    requires
        0 <= n <= items.len(),
        transports_of_items(items.take(n)) is Err,
    ensures
        transports_of_items(items) == transports_of_items(items.take(n)),
    decreases items.len() - n,
{
    if n < items.len() {
        assert(items.take(n + 1).drop_last() =~= items.take(n));
        lemma_first_item_error_stays(items, n + 1);
    } else {
        assert(items.take(n) =~= items);
    }
}

fn transport_by_name(item: &str) -> (r: Option<TransportProtocol>)
    ensures
        r == transport_named(lowered(item@)),
{
    if lowers_to(item, "tcp") {
        Some(TransportProtocol::Tcp)
    } else if lowers_to(item, "udp") {
        Some(TransportProtocol::Udp)
    } else if lowers_to(item, "wg") {
        Some(TransportProtocol::Wg)
    } else if lowers_to(item, "quic") {
        Some(TransportProtocol::Quic)
    } else if lowers_to(item, "ws") {
        Some(TransportProtocol::Ws)
    } else if lowers_to(item, "wss") {
        Some(TransportProtocol::Wss)
    } else if lowers_to(item, "faketcp") {
        Some(TransportProtocol::FakeTcp)
    } else {
        None
    }
}

fn holds(protocols: &Vec<TransportProtocol>, protocol: TransportProtocol) -> (r: bool)
    ensures
        r == protocols@.contains(protocol),
{
    let mut i: usize = 0;
    while i < protocols.len()
        invariant
            i <= protocols@.len(),
            forall|j: int| 0 <= j < i ==> protocols@[j] != protocol,
        decreases protocols@.len() - i,
    {
        if protocols[i] == protocol {
            return true;
        }
        i += 1;
    }
    false
}

fn parse_protocols(list: &str) -> (r: Result<Vec<TransportProtocol>, TransportPriorityError>)
    ensures
        match r {
            Ok(protocols) => transports_of_list(list@) == Ok::<
                Seq<TransportProtocol>,
                TransportPriorityError,
            >(protocols@),
            Err(error) => transports_of_list(list@) == Err::<
                Seq<TransportProtocol>,
                TransportPriorityError,
            >(error),
        },
{
    let body = trim(list);
    if body.is_empty() {
        return Err(TransportPriorityError::EmptyProtocolList);
    }
    let items = split(body, ',');
    let ghost texts = parts(body@, ',');
    let mut protocols: Vec<TransportProtocol> = Vec::new();
    let mut i: usize = 0;
    assert(texts.take(0) =~= Seq::<Seq<char>>::empty());
    while i < items.len()
        invariant
            i <= items@.len(),
            items@.len() == texts.len(),
            forall|k: int| 0 <= k < items@.len() ==> (#[trigger] items@[k])@ == texts[k],
            transports_of_items(texts.take(i as int)) == Ok::<
                Seq<TransportProtocol>,
                TransportPriorityError,
            >(protocols@),
            transports_of_list(list@) == transports_of_items(texts),
        decreases items@.len() - i,
    {
        proof {
            assert(texts.take(i as int + 1).drop_last() =~= texts.take(i as int));
            assert(texts.take(i as int + 1).last() == items@[i as int]@);
        }
        let item = trim(items[i]);
        if item.is_empty() {
            proof {
                lemma_first_item_error_stays(texts, i as int + 1);
            }
            return Err(TransportPriorityError::EmptyProtocol);
        }
        match transport_by_name(item) {
            None => {
                proof {
                    lemma_first_item_error_stays(texts, i as int + 1);
                }
                return Err(TransportPriorityError::UnknownProtocol);
            },
            Some(protocol) => {
                if holds(&protocols, protocol) {
                    proof {
                        lemma_first_item_error_stays(texts, i as int + 1);
                    }
                    return Err(TransportPriorityError::DuplicateProtocol(protocol));
                }
                protocols.push(protocol);
            },
        }
        i += 1;
    }
    assert(texts.take(texts.len() as int) =~= texts);
    Ok(protocols)
}

/// Reads the scope of a rule.
pub fn parse_scope(value: &str) -> (r: Result<TransportPriorityScope, TransportPriorityError>)
    ensures
        r == scope_of_text(value@),
{
    if lowers_to(value, "global") {
        return Ok(TransportPriorityScope::Global);
    }
    if lowers_to(value, "wan") {
        return Ok(TransportPriorityScope::Wan);
    }
    if lowers_to(value, "lan") {
        return Ok(TransportPriorityScope::Lan);
    }
    let len: usize = value.unicode_len();
    if len > 0 {
        let opens = value.get_char(0) == '[';
        let closes = value.get_char(len - 1) == ']';
        if opens || closes {
            if !(opens && closes) {
                return Err(TransportPriorityError::InvalidBracketedScope);
            }
            return match parse_ip_address(value.substring_char(1, len - 1)) {
                None => Err(TransportPriorityError::InvalidVirtualIp),
                Some(IpAddress::V4(_)) => Err(TransportPriorityError::BracketedIpv4),
                Some(ip) => Ok(TransportPriorityScope::VirtualIp(ip)),
            };
        }
    }
    match parse_ip_address(value) {
        None => Err(TransportPriorityError::UnknownScope),
        Some(IpAddress::V6(_)) => Err(TransportPriorityError::UnbracketedIpv6),
        Some(ip) => Ok(TransportPriorityScope::VirtualIp(ip)),
    }
}

fn split_rule<'a>(rule: &'a str) -> (r: Result<(&'a str, &'a str), TransportPriorityError>)
    ensures
        match r {
            Ok((left, right)) => sides_of_rule(rule@) == Ok::<
                (Seq<char>, Seq<char>),
                TransportPriorityError,
            >((left@, right@)),
            Err(error) => sides_of_rule(rule@) == Err::<
                (Seq<char>, Seq<char>),
                TransportPriorityError,
            >(error),
        },
{
    let chars = chars_of(rule);
    let len: usize = chars.len();
    let mut i: usize = 0;
    if len > 0 && chars[0] == '[' {
        while i < len - 1
            invariant
                i <= len,
                len == chars@.len(),
                chars@ == rule@,
                len > 0,
                rule@[0] == '[',
                find_bracket(rule@, 0) == find_bracket(rule@, i as int),
            decreases len - i,
        {
            if chars[i] == ']' && chars[i + 1] == ':' {
                return Ok((rule.substring_char(0, i + 1), rule.substring_char(i + 2, len)));
            }
            i += 1;
        }
        return Err(TransportPriorityError::NoBracketSeparator);
    }
    while i < len
        invariant
            i <= len,
            len == chars@.len(),
            chars@ == rule@,
            len > 0 ==> rule@[0] != '[',
            find_colon(rule@, 0) == find_colon(rule@, i as int),
        decreases len - i,
    {
        if chars[i] == ':' {
            return Ok((rule.substring_char(0, i), rule.substring_char(i + 1, len)));
        }
        i += 1;
    }
    Err(TransportPriorityError::NoSeparator)
}

impl TransportPriority {
    /// No two rules have the same scope.
    pub open spec fn wf(&self) -> bool {
        unique_keys(self@) && rules_without_repetition(self@)
    }

    fn position(rules: &Vec<StoredRule>, scope: TransportPriorityScope) -> (r: Option<usize>)
        ensures
            match r {
                Some(i) => i < rules@.len() && rules@[i as int].scope == scope && has_scope(
                    stored(rules@),
                    scope,
                ),
                None => !has_scope(stored(rules@), scope),
            },
    {
        let mut i: usize = 0;
        while i < rules.len()
            invariant
                i <= rules@.len(),
                forall|j: int| 0 <= j < i ==> (#[trigger] stored(rules@)[j]).0 != scope,
            decreases rules@.len() - i,
        {
            if rules[i].scope == scope {
                assert(stored(rules@)[i as int].0 == scope);
                return Some(i);
            }
            i += 1;
        }
        None
    }

    fn parse_rule(rules: &Vec<StoredRule>, text: &str) -> (r: Result<
        StoredRule,
        TransportPriorityError,
    >)
        ensures
            match r {
                Ok(rule) => rule_of_text(stored(rules@), text@) == Ok::<
                    PriorityRule,
                    TransportPriorityError,
                >((rule.scope, rule.protocols@)),
                Err(error) => rule_of_text(stored(rules@), text@) == Err::<
                    PriorityRule,
                    TransportPriorityError,
                >(error),
            },
    {
        let rule = trim(text);
        if rule.is_empty() {
            return Err(TransportPriorityError::EmptyRule);
        }
        let (left, right) = match split_rule(rule) {
            Ok(sides) => sides,
            Err(error) => {
                return Err(error);
            },
        };
        let scope = match parse_scope(trim(left)) {
            Ok(scope) => scope,
            Err(error) => {
                return Err(error);
            },
        };
        if let Some(_) = Self::position(rules, scope) {
            return Err(TransportPriorityError::DuplicateScope);
        }
        match parse_protocols(right) {
            Ok(protocols) => Ok(StoredRule { scope, protocols }),
            Err(error) => Err(error),
        }
    }

    /// Reads rules; blank text is no rule.
    pub fn parse(value: &str) -> (r: Result<Self, TransportPriorityError>)
        ensures
            match r {
                Ok(priority) => rules_of_text(value@) == Ok::<
                    Seq<PriorityRule>,
                    TransportPriorityError,
                >(priority@) && priority.wf(),
                Err(error) => rules_of_text(value@) == Err::<
                    Seq<PriorityRule>,
                    TransportPriorityError,
                >(error),
            },
    {
        let body = trim(value);
        let mut rules: Vec<StoredRule> = Vec::new();
        assert(stored(rules@) =~= Seq::<PriorityRule>::empty());
        if body.is_empty() {
            return Ok(TransportPriority { rules });
        }
        let raw_rules = split(body, ';');
        let ghost texts = parts(body@, ';');
        let mut i: usize = 0;
        assert(texts.take(0) =~= Seq::<Seq<char>>::empty());
        while i < raw_rules.len()
            invariant
                i <= raw_rules@.len(),
                raw_rules@.len() == texts.len(),
                forall|k: int| 0 <= k < raw_rules@.len() ==> (#[trigger] raw_rules@[k])@ == texts[k],
                rules_of_texts(texts.take(i as int)) == Ok::<
                    Seq<PriorityRule>,
                    TransportPriorityError,
                >(stored(rules@)),
                unique_keys(stored(rules@)),
                rules_of_text(value@) == rules_of_texts(texts),
            decreases raw_rules@.len() - i,
        {
            proof {
                assert(texts.take(i as int + 1).drop_last() =~= texts.take(i as int));
                assert(texts.take(i as int + 1).last() == raw_rules@[i as int]@);
            }
            match Self::parse_rule(&rules, raw_rules[i]) {
                Err(error) => {
                    proof {
                        lemma_first_rule_error_stays(texts, i as int + 1);
                    }
                    return Err(error);
                },
                Ok(rule) => {
                    let ghost before = stored(rules@);
                    let ghost added = (rule.scope, rule.protocols@);
                    rules.push(rule);
                    proof {
                        assert(stored(rules@) =~= before.push(added));
                        assert forall|a: int, b: int| 0 <= a < b < stored(rules@).len() implies (
                        #[trigger] stored(rules@)[a]).0 != (#[trigger] stored(rules@)[b]).0 by {
                            assert(stored(rules@)[a] == before[a]);
                            if b < before.len() {
                                assert(stored(rules@)[b] == before[b]);
                            }
                        }
                    }
                },
            }
            i += 1;
        }
        proof {
            assert(texts.take(texts.len() as int) =~= texts);
            lemma_rules_of_texts(texts);
        }
        Ok(TransportPriority { rules })
    }

    pub fn is_empty(&self) -> (r: bool)
        ensures
            r == (self@.len() == 0),
    {
        self.rules.is_empty()
    }

    pub fn has_virtual_ip_rule(&self, ip: IpAddress) -> (r: bool)
        ensures
            r == has_scope(self@, TransportPriorityScope::VirtualIp(ip)),
    {
        match Self::position(&self.rules, TransportPriorityScope::VirtualIp(ip)) {
            Some(_) => true,
            None => false,
        }
    }

    /// The transports that the rules name, rule by rule.
    pub fn configured_protocols(&self) -> (r: Vec<TransportProtocol>)
        ensures
            r@ == self@.map_values(|rule: PriorityRule| rule.1).flatten(),
    {
        let mut out: Vec<TransportProtocol> = Vec::new();
        let ghost lists = self@.map_values(|rule: PriorityRule| rule.1);
        let mut i: usize = 0;
        assert(lists.take(0) =~= Seq::<Seq<TransportProtocol>>::empty());
        proof {
            lists.take(0).lemma_flatten_and_flatten_alt_are_equivalent();
        }
        while i < self.rules.len()
            invariant
                i <= self.rules@.len(),
                lists == self@.map_values(|rule: PriorityRule| rule.1),
                lists.len() == self.rules@.len(),
                out@ == lists.take(i as int).flatten_alt(),
            decreases self.rules@.len() - i,
        {
            let ghost before = out@;
            let mut j: usize = 0;
            while j < self.rules[i as usize].protocols.len()
                invariant
                    i < self.rules@.len(),
                    j <= self.rules@[i as int].protocols@.len(),
                    out@ == before + self.rules@[i as int].protocols@.take(j as int),
                decreases self.rules@[i as int].protocols@.len() - j,
            {
                out.push(self.rules[i].protocols[j]);
                j += 1;
                assert(self.rules@[i as int].protocols@.take(j as int)
                    =~= self.rules@[i as int].protocols@.take(j as int - 1).push(
                    self.rules@[i as int].protocols@[j as int - 1],
                ));
            }
            proof {
                let list = self.rules@[i as int].protocols@;
                assert(list.take(j as int) =~= list);
                assert(lists.take(i as int + 1).drop_last() =~= lists.take(i as int));
                assert(lists.take(i as int + 1).last() == list);
            }
            i += 1;
        }
        proof {
            assert(lists.take(lists.len() as int) =~= lists);
            lists.lemma_flatten_and_flatten_alt_are_equivalent();
        }
        out
    }

    /// The transports for a peer, from the most to the least preferred.
    pub fn protocol_order(&self, is_lan: bool, virtual_ip: Option<IpAddress>) -> (r: Vec<
        TransportProtocol,
    >)
        requires
            self.wf(),
        ensures
            r@ == order_by_rules(self@, is_lan, virtual_ip),
    {
        let order = self.promote(TransportPriorityScope::Global, builtin_transports());
        let nearby = if is_lan {
            TransportPriorityScope::Lan
        } else {
            TransportPriorityScope::Wan
        };
        let order = self.promote(nearby, order);
        match virtual_ip {
            None => order,
            Some(ip) => self.promote(TransportPriorityScope::VirtualIp(ip), order),
        }
    }

    /// The names of the transports for a peer, from the most to the least preferred.
    pub fn order_for(&self, is_lan: bool, virtual_ip: Option<IpAddress>) -> (r: Vec<String>)
        requires
            self.wf(),
        ensures
            r@.len() == order_by_rules(self@, is_lan, virtual_ip).len(),
            forall|i: int|
                0 <= i < r@.len() ==> (#[trigger] r@[i])@ == order_by_rules(
                    self@,
                    is_lan,
                    virtual_ip,
                )[i].name(),
    {
        let order = self.protocol_order(is_lan, virtual_ip);
        let mut out: Vec<String> = Vec::new();
        let mut i: usize = 0;
        while i < order.len()
            invariant
                i <= order@.len(),
                out@.len() == i,
                forall|j: int| 0 <= j < i ==> (#[trigger] out@[j])@ == order@[j].name(),
            decreases order@.len() - i,
        {
            out.push(order[i].as_str().to_owned());
            i += 1;
        }
        out
    }

    fn promote(&self, scope: TransportPriorityScope, inherited: Vec<TransportProtocol>) -> (r: Vec<
        TransportProtocol,
    >)
        requires
            self.wf(),
        ensures
            r@ == promoted_by(self@, scope, inherited@),
    {
        proof {
            lemma_map_of(self@);
        }
        let place = match Self::position(&self.rules, scope) {
            None => {
                return inherited;
            },
            Some(place) => place,
        };
        let ghost rule = self.rules@[place as int].protocols@;
        proof {
            assert(self@[place as int].0 == scope);
            assert(map_of(self@)[scope] == rule);
        }
        let mut out: Vec<TransportProtocol> = Vec::new();
        let mut i: usize = 0;
        while i < self.rules[place].protocols.len()
            invariant
                place < self.rules@.len(),
                rule == self.rules@[place as int].protocols@,
                i <= rule.len(),
                out@ == rule.take(i as int),
            decreases rule.len() - i,
        {
            out.push(self.rules[place].protocols[i]);
            i += 1;
            assert(rule.take(i as int) =~= rule.take(i as int - 1).push(rule[i as int - 1]));
        }
        assert(rule.take(i as int) =~= rule);
        let ghost pred = |p: TransportProtocol| !rule.contains(p);
        let mut k: usize = 0;
        proof {
            reveal(Seq::filter);
            assert(inherited@.take(0).filter(pred) =~= Seq::<TransportProtocol>::empty());
        }
        while k < inherited.len()
            invariant
                place < self.rules@.len(),
                rule == self.rules@[place as int].protocols@,
                pred == |p: TransportProtocol| !rule.contains(p),
                k <= inherited@.len(),
                out@ == rule + inherited@.take(k as int).filter(pred),
            decreases inherited@.len() - k,
        {
            proof {
                reveal(Seq::filter);
                let next = inherited@.take(k as int + 1);
                assert(next.drop_last() =~= inherited@.take(k as int));
                assert(next.last() == inherited@[k as int]);
            }
            if !holds(&self.rules[place].protocols, inherited[k]) {
                out.push(inherited[k]);
            }
            k += 1;
        }
        assert(inherited@.take(k as int) =~= inherited@);
        out
    }
}

/// Tells whether this build holds the transport with the given name.
pub fn protocol_is_compiled(protocol: &str) -> (r: bool)
    ensures
        r == (protocol@ == "tcp"@ || protocol@ == "udp"@ || (protocol@ == "wg"@
            && FEATURE_WIREGUARD) || (protocol@ == "quic"@ && FEATURE_QUIC) || ((protocol@ == "ws"@
            || protocol@ == "wss"@) && FEATURE_WEBSOCKET) || (protocol@ == "faketcp"@
            && FEATURE_FAKETCP)),
{
    same_text(protocol, "tcp") || same_text(protocol, "udp") || (same_text(protocol, "wg")
        && FEATURE_WIREGUARD) || (same_text(protocol, "quic") && FEATURE_QUIC) || ((same_text(
        protocol,
        "ws",
    ) || same_text(protocol, "wss")) && FEATURE_WEBSOCKET) || (same_text(protocol, "faketcp")
        && FEATURE_FAKETCP)
}

/// Moving transports to the front loses none and repeats none.
proof fn lemma_promoted_keeps_members(
    rule: Seq<TransportProtocol>,
    order: Seq<TransportProtocol>,
)
    requires
        rule.no_duplicates(),
        order.no_duplicates(),
    ensures
        promoted(rule, order).no_duplicates(),
        forall|p: TransportProtocol| #[trigger]
            promoted(rule, order).contains(p) <==> rule.contains(p) || order.contains(p),
{
    let pred = |p: TransportProtocol| !rule.contains(p);
    let rest = order.filter(pred);
    lemma_filter_no_duplicates(order, pred);
    let all = promoted(rule, order);
    assert forall|p: TransportProtocol| #[trigger] all.contains(p) <==> rule.contains(p)
        || order.contains(p) by {
        crate::stealth_registry::lemma_filter_holds(order, pred, p);
        if rule.contains(p) {
            let i = choose|i: int| 0 <= i < rule.len() && rule[i] == p;
            assert(all[i] == p);
        }
        if rest.contains(p) {
            let i = choose|i: int| 0 <= i < rest.len() && rest[i] == p;
            assert(all[rule.len() + i] == p);
        }
        if all.contains(p) {
            let i = choose|i: int| 0 <= i < all.len() && all[i] == p;
            if i >= rule.len() {
                assert(rest[i - rule.len()] == p);
            } else {
                assert(rule[i] == p);
            }
        }
    }
    assert forall|i: int, j: int| 0 <= i < all.len() && 0 <= j < all.len() && i != j implies all[i]
        != all[j] by {
        if i < rule.len() && j >= rule.len() {
            crate::stealth_registry::lemma_filter_holds(order, pred, rest[j - rule.len()]);
            assert(rest.contains(rest[j - rule.len()]));
            assert(rule.contains(rule[i]));
        }
        if j < rule.len() && i >= rule.len() {
            crate::stealth_registry::lemma_filter_holds(order, pred, rest[i - rule.len()]);
            assert(rest.contains(rest[i - rule.len()]));
            assert(rule.contains(rule[j]));
        }
    }
}

proof fn lemma_filter_no_duplicates(s: Seq<TransportProtocol>, pred: spec_fn(TransportProtocol) -> bool)
    requires
        s.no_duplicates(),
    ensures
        s.filter(pred).no_duplicates(),
    decreases s.len(),
{
    reveal(Seq::filter);
    if s.len() > 0 {
        let front = s.drop_last();
        lemma_filter_no_duplicates(front, pred);
        crate::stealth_registry::lemma_filter_holds(front, pred, s.last());
        assert(!front.contains(s.last()));
    }
}

/// Every rule names each of its transports once.
pub open spec fn rules_without_repetition(rules: Seq<PriorityRule>) -> bool {
    forall|i: int| 0 <= i < rules.len() ==> (#[trigger] rules[i]).1.no_duplicates()
}

proof fn lemma_transports_of_items(items: Seq<Seq<char>>)
    requires
        transports_of_items(items) is Ok,
    ensures
        transports_of_items(items)->Ok_0.no_duplicates(),
        transports_of_items(items)->Ok_0.len() == items.len(),
    decreases items.len(),
{
    if items.len() > 0 {
        lemma_transports_of_items(items.drop_last());
    }
}

proof fn lemma_rules_of_texts(texts: Seq<Seq<char>>)
    requires
        rules_of_texts(texts) is Ok,
    ensures
        rules_without_repetition(rules_of_texts(texts)->Ok_0),
        unique_keys(rules_of_texts(texts)->Ok_0),
    decreases texts.len(),
{
    if texts.len() > 0 {
        lemma_rules_of_texts(texts.drop_last());
        let before = rules_of_texts(texts.drop_last())->Ok_0;
        let rules = rules_of_texts(texts)->Ok_0;
        let rule = trimmed(texts.last());
        let right = sides_of_rule(rule)->Ok_0.1;
        lemma_transports_of_items(parts(trimmed(right), ','));
        assert forall|i: int| 0 <= i < rules.len() implies (#[trigger] rules[i]).1.no_duplicates() by {
            if i < before.len() {
                assert(rules[i] == before[i]);
            }
        }
        assert forall|a: int, b: int| 0 <= a < b < rules.len() implies (#[trigger] rules[a]).0 != (
        #[trigger] rules[b]).0 by {
            assert(rules[a] == before[a]);
            if b < before.len() {
                assert(rules[b] == before[b]);
            }
        }
    }
}

/// Rules only reorder: whatever was configured, the order for a peer holds each transport exactly
/// once.
pub proof fn law_rules_only_reorder(
    value: Seq<char>,
    is_lan: bool,
    virtual_ip: Option<IpAddress>,
    protocol: TransportProtocol,
)
    requires
        rules_of_text(value) is Ok,
    ensures
        order_by_rules(rules_of_text(value)->Ok_0, is_lan, virtual_ip).no_duplicates(),
        order_by_rules(rules_of_text(value)->Ok_0, is_lan, virtual_ip).contains(protocol),
{
    let rules = rules_of_text(value)->Ok_0;
    if trimmed(value).len() > 0 {
        lemma_rules_of_texts(parts(trimmed(value), ';'));
    }
    lemma_map_of(rules);
    let base = builtin_order();
    assert(base.no_duplicates());
    assert(base.contains(protocol)) by {
        assert(base[0] == TransportProtocol::Tcp && base[1] == TransportProtocol::Udp && base[2]
            == TransportProtocol::Wg && base[3] == TransportProtocol::Quic && base[4]
            == TransportProtocol::Ws && base[5] == TransportProtocol::Wss && base[6]
            == TransportProtocol::FakeTcp);
    }
    lemma_promoted_by(rules, TransportPriorityScope::Global, base, protocol);
    let general = promoted_by(rules, TransportPriorityScope::Global, base);
    let nearby_scope = if is_lan {
        TransportPriorityScope::Lan
    } else {
        TransportPriorityScope::Wan
    };
    lemma_promoted_by(rules, nearby_scope, general, protocol);
    let nearby = promoted_by(rules, nearby_scope, general);
    if let Some(ip) = virtual_ip {
        lemma_promoted_by(rules, TransportPriorityScope::VirtualIp(ip), nearby, protocol);
    }
}

/// The order for a peer names no transport twice, so that it is short.
pub proof fn lemma_order_is_short(
    rules: Seq<PriorityRule>,
    is_lan: bool,
    virtual_ip: Option<IpAddress>,
)
    requires
        unique_keys(rules),
        rules_without_repetition(rules),
    ensures
        order_by_rules(rules, is_lan, virtual_ip).len() <= 7,
{
    let base = builtin_order();
    let order = order_by_rules(rules, is_lan, virtual_ip);
    let any = TransportProtocol::Tcp;
    assert(base.no_duplicates());
    assert(base[0] == any);
    lemma_promoted_by(rules, TransportPriorityScope::Global, base, any);
    let general = promoted_by(rules, TransportPriorityScope::Global, base);
    let nearby_scope = if is_lan {
        TransportPriorityScope::Lan
    } else {
        TransportPriorityScope::Wan
    };
    lemma_promoted_by(rules, nearby_scope, general, any);
    let nearby = promoted_by(rules, nearby_scope, general);
    if let Some(ip) = virtual_ip {
        lemma_promoted_by(rules, TransportPriorityScope::VirtualIp(ip), nearby, any);
    }
    assert(order.no_duplicates());
    order.unique_seq_to_set();
    base.unique_seq_to_set();
    assert forall|p: TransportProtocol| #[trigger] order.to_set().contains(p) implies base.to_set().contains(
        p,
    ) by {
        assert(base[0] == TransportProtocol::Tcp && base[1] == TransportProtocol::Udp && base[2]
            == TransportProtocol::Wg && base[3] == TransportProtocol::Quic && base[4]
            == TransportProtocol::Ws && base[5] == TransportProtocol::Wss && base[6]
            == TransportProtocol::FakeTcp);
        assert(base.contains(p));
    }
    vstd::set_lib::lemma_len_subset(order.to_set(), base.to_set());
}

proof fn lemma_promoted_by(
    rules: Seq<PriorityRule>,
    scope: TransportPriorityScope,
    order: Seq<TransportProtocol>,
    protocol: TransportProtocol,
)
    requires
        unique_keys(rules),
        rules_without_repetition(rules),
        order.no_duplicates(),
        order.contains(protocol),
    ensures
        promoted_by(rules, scope, order).no_duplicates(),
        promoted_by(rules, scope, order).contains(protocol),
{
    lemma_map_of(rules);
    if map_of(rules).contains_key(scope) {
        let i = choose|i: int| 0 <= i < rules.len() && (#[trigger] rules[i]).0 == scope;
        assert(map_of(rules)[scope] == rules[i].1);
        lemma_promoted_keeps_members(rules[i].1, order);
    }
}

/// The rule for one peer comes before the rule for its network, and that one before the rule for
/// all peers: the transports of the most specific rule lead the order.
pub proof fn law_most_specific_rule_leads(
    rules: Seq<PriorityRule>,
    is_lan: bool,
    ip: IpAddress,
)
    requires
        map_of(rules).contains_key(TransportPriorityScope::VirtualIp(ip)),
    ensures
        ({
            let rule = map_of(rules)[TransportPriorityScope::VirtualIp(ip)];
            order_by_rules(rules, is_lan, Some(ip)).take(rule.len() as int) == rule
        }),
{
    let rule = map_of(rules)[TransportPriorityScope::VirtualIp(ip)];
    assert(order_by_rules(rules, is_lan, Some(ip)).take(rule.len() as int) =~= rule);
}

proof fn lemma_names_differ(a: TransportProtocol, b: TransportProtocol)
    ensures
        a.name() == b.name() ==> a == b,
{
    reveal_strlit("tcp");
    reveal_strlit("udp");
    reveal_strlit("wg");
    reveal_strlit("quic");
    reveal_strlit("ws");
    reveal_strlit("wss");
    reveal_strlit("faketcp");
    assert("tcp"@[0] == 't' && "udp"@[0] == 'u' && "wss"@[0] == 'w');
    assert("wg"@[1] == 'g' && "ws"@[1] == 's');
    assert("tcp"@.len() == 3 && "udp"@.len() == 3 && "wg"@.len() == 2 && "quic"@.len() == 4
        && "ws"@.len() == 2 && "wss"@.len() == 3 && "faketcp"@.len() == 7);
}

/// A word names a transport if and only if it is the name of that transport; no two transports have
/// the same name.
pub proof fn law_words_name_their_transports(word: Seq<char>, protocol: TransportProtocol)
    ensures
        transport_named(word) == Some(protocol) <==> protocol.name() == word,
{
    if protocol.name() == word {
        assert(transport_named(word) is Some);
        lemma_names_differ(transport_named(word)->0, protocol);
        assert(transport_named(word)->0.name() == word);
    }
}

/// What is preferred where no rule says otherwise: of two transports, the one whose name comes
/// earlier in tcp, udp, wg, quic, ws, wss, faketcp.
pub proof fn law_builtin_names()
    ensures
        builtin_order().map_values(|p: TransportProtocol| p.name()) == seq![
            "tcp"@,
            "udp"@,
            "wg"@,
            "quic"@,
            "ws"@,
            "wss"@,
            "faketcp"@,
        ],
{
    assert(builtin_order().map_values(|p: TransportProtocol| p.name()) =~= seq![
        "tcp"@,
        "udp"@,
        "wg"@,
        "quic"@,
        "ws"@,
        "wss"@,
        "faketcp"@,
    ]);
}

/// The transports of a rule are those whose names are written, in their order: the name of each is
/// the item, without the white space around it and in lower case. A rule is refused if and only if
/// some item is no name or two items are the same name.
pub proof fn law_rules_name_what_is_written(items: Seq<Seq<char>>)
    ensures
        transports_of_items(items) is Ok ==> {
            let names = transports_of_items(items)->Ok_0;
            &&& names.len() == items.len()
            &&& forall|i: int| 0 <= i < items.len() ==> (#[trigger] names[i]).name() == lowered(trimmed(items[i]))
        },
        transports_of_items(items) is Ok <==> {
            &&& forall|i: int| 0 <= i < items.len() ==> named_by_some(lowered(trimmed(#[trigger] items[i])))
            &&& forall|i: int, j: int| 0 <= i < j < items.len() ==> lowered(trimmed(#[trigger] items[i]))
                != lowered(trimmed(#[trigger] items[j]))
        },
    decreases items.len(),
{
    reveal_strlit("tcp");
    reveal_strlit("udp");
    reveal_strlit("wg");
    reveal_strlit("quic");
    reveal_strlit("ws");
    reveal_strlit("wss");
    reveal_strlit("faketcp");
    if items.len() > 0 {
        let front = items.drop_last();
        law_rules_name_what_is_written(front);
        let item = trimmed(items.last());
        let word = lowered(item);
        assert(items[items.len() - 1] == items.last());
        assert forall|i: int| 0 <= i < front.len() implies front[i] == #[trigger] items[i] by {}
        if item.len() == 0 {
            assert(word.len() == 0);
            assert(!named_by_some(word)) by {
                if named_by_some(word) {
                    let p = choose|p: TransportProtocol| (#[trigger] p.name()) == word;
                    assert(p.name().len() > 0);
                }
            }
        } else if transport_named(word) is None {
            assert(!named_by_some(word)) by {
                if named_by_some(word) {
                    let p = choose|p: TransportProtocol| (#[trigger] p.name()) == word;
                    law_words_name_their_transports(word, p);
                }
            }
        } else {
            let protocol = transport_named(word)->0;
            law_words_name_their_transports(word, protocol);
            assert(named_by_some(word));
            if transports_of_items(front) is Ok {
                let before = transports_of_items(front)->Ok_0;
                if before.contains(protocol) {
                    let i = choose|i: int| 0 <= i < before.len() && before[i] == protocol;
                    assert(before[i].name() == lowered(trimmed(front[i])));
                    assert(lowered(trimmed(items[i])) == lowered(trimmed(items[items.len() - 1])));
                } else {
                    assert forall|i: int, j: int| 0 <= i < j < items.len() implies lowered(
                        trimmed(#[trigger] items[i]),
                    ) != lowered(trimmed(#[trigger] items[j])) by {
                        if j < front.len() {
                            assert(lowered(trimmed(front[i])) != lowered(trimmed(front[j])));
                        } else {
                            lemma_names_differ(before[i], protocol);
                            assert(before.contains(before[i]));
                        }
                    }
                    assert forall|i: int| 0 <= i < items.len() implies named_by_some(
                        lowered(trimmed(#[trigger] items[i])),
                    ) by {
                        if i < front.len() {
                            assert(named_by_some(lowered(trimmed(front[i]))));
                        }
                    }
                }
            }
        }
        if transports_of_items(front) is Err {
            if forall|i: int| 0 <= i < items.len() ==> named_by_some(lowered(trimmed(#[trigger] items[i]))) {
                assert forall|i: int| 0 <= i < front.len() implies named_by_some(
                    lowered(trimmed(#[trigger] front[i])),
                ) by {
                    assert(named_by_some(lowered(trimmed(items[i]))));
                }
                let (i, j) = choose|i: int, j: int| 0 <= i < j < front.len() && lowered(
                    trimmed(#[trigger] front[i]),
                ) == lowered(trimmed(#[trigger] front[j]));
                assert(lowered(trimmed(items[i])) == lowered(trimmed(items[j])));
            }
        }
    }
}

/// The word is the name of some transport.
pub open spec fn named_by_some(word: Seq<char>) -> bool {
    exists|p: TransportProtocol| (#[trigger] p.name()) == word
}

/// A rule is for all peers, for those of other networks or for those of the own one just as its
/// scope, in any case of letters, is `global`, `wan` or `lan`.
pub proof fn law_scope_words(value: Seq<char>)
    ensures
        scope_of_text(value) == Ok::<_, TransportPriorityError>(TransportPriorityScope::Global)
            <==> lowered(value) == seq!['g', 'l', 'o', 'b', 'a', 'l'],
        scope_of_text(value) == Ok::<_, TransportPriorityError>(TransportPriorityScope::Wan)
            <==> lowered(value) == seq!['w', 'a', 'n'],
        scope_of_text(value) == Ok::<_, TransportPriorityError>(TransportPriorityScope::Lan)
            <==> lowered(value) == seq!['l', 'a', 'n'],
{
    reveal_strlit("global");
    reveal_strlit("wan");
    reveal_strlit("lan");
    assert("global"@ =~= seq!['g', 'l', 'o', 'b', 'a', 'l']);
    assert("wan"@ =~= seq!['w', 'a', 'n']);
    assert("lan"@ =~= seq!['l', 'a', 'n']);
    assert(seq!['w', 'a', 'n'][0] != seq!['l', 'a', 'n'][0]);
}

/// A rule for one peer holds the address that is written: an IPv6 address stands in brackets, an
/// IPv4 address stands without them.
pub proof fn law_scope_addresses(value: Seq<char>, ip: IpAddress)
    requires
        scope_of_text(value) == Ok::<_, TransportPriorityError>(TransportPriorityScope::VirtualIp(ip)),
    ensures
        ip is V4 ==> ip_from_text(value) == Some(ip),
        ip is V6 ==> value.len() >= 1 && value[0] == '[' && value.last() == ']' && ip_from_text(
            value.subrange(1, value.len() - 1),
        ) == Some(ip),
{
}

proof fn lemma_find_bracket(s: Seq<char>, from: int)
    requires
        0 <= from,
    ensures
        match find_bracket(s, from) {
            Some(i) => from <= i && i + 1 < s.len() && s[i] == ']' && s[i + 1] == ':' && forall|j: int|
             from <= j < i ==> !((#[trigger] s[j]) == ']' && s[j + 1] == ':'),
            None => forall|j: int|
                from <= j && j + 1 < s.len() ==> !((#[trigger] s[j]) == ']' && s[j + 1] == ':'),
        },
    decreases s.len() - from,
{
    if from + 1 < s.len() && !(s[from] == ']' && s[from + 1] == ':') {
        lemma_find_bracket(s, from + 1);
    }
}

proof fn lemma_find_colon(s: Seq<char>, from: int)
    requires
        0 <= from,
    ensures
        match find_colon(s, from) {
            Some(i) => from <= i < s.len() && s[i] == ':' && forall|j: int|
                from <= j < i ==> (#[trigger] s[j]) != ':',
            None => forall|j: int| from <= j < s.len() ==> (#[trigger] s[j]) != ':',
        },
    decreases s.len() - from,
{
    if from < s.len() && s[from] != ':' {
        lemma_find_colon(s, from + 1);
    }
}

/// The two sides of a rule with a colon between them are the rule. Unless the rule starts with a
/// bracket the left side holds no colon, and a rule that holds one has two sides; in brackets the left
/// side ends with the first bracket that a colon follows.
pub proof fn law_sides_make_the_rule(rule: Seq<char>)
    ensures
        sides_of_rule(rule) is Ok ==> {
            let (left, right) = sides_of_rule(rule)->Ok_0;
            &&& rule == left + seq![':'] + right
            &&& !(rule[0] == '[') ==> !left.contains(':')
            &&& rule[0] == '[' ==> left.last() == ']' && forall|j: int|
                0 <= j && j + 1 < left.len() ==> !((#[trigger] left[j]) == ']' && left[j + 1] == ':')
        },
        !(rule.len() > 0 && rule[0] == '[') ==> (sides_of_rule(rule) is Ok <==> rule.contains(':')),
        rule.len() > 0 && rule[0] == '[' ==> (sides_of_rule(rule) is Ok <==> exists|j: int|
            0 <= j && j + 1 < rule.len() && (#[trigger] rule[j]) == ']' && rule[j + 1] == ':'),
{
    lemma_find_bracket(rule, 0);
    lemma_find_colon(rule, 0);
    if sides_of_rule(rule) is Ok {
        let (left, right) = sides_of_rule(rule)->Ok_0;
        assert(rule =~= left + seq![':'] + right);
    }
}

/// The rank of a transport is the first place of its name in the order; one that is not in the order
/// comes behind all that are.
pub proof fn law_rank_is_the_first_place(order: Seq<Seq<char>>, name: Seq<char>)
    ensures
        order.contains(name) ==> {
            let rank = rank_in(order, name);
            &&& 0 <= rank < order.len() && order[rank] == name
            &&& forall|i: int| 0 <= i < rank ==> (#[trigger] order[i]) != name
        },
        !order.contains(name) ==> rank_in(order, name) == usize::MAX,
    decreases order.len(),
{
    if order.len() > 0 {
        let front = order.drop_last();
        law_rank_is_the_first_place(front, name);
        assert forall|i: int| 0 <= i < front.len() implies front[i] == #[trigger] order[i] by {}
        lemma_place_means(front, name);
        if front.contains(name) {
            let i = choose|i: int| 0 <= i < front.len() && front[i] == name;
            assert(order[i] == name);
        } else {
            assert forall|i: int| 0 <= i < front.len() implies (#[trigger] order[i]) != name by {
                assert(front[i] != name);
            }
            if order.contains(name) {
                let i = choose|i: int| 0 <= i < order.len() && order[i] == name;
                assert(i == order.len() - 1);
            } else {
                assert(order[order.len() - 1] != name);
            }
        }
    }
}

proof fn lemma_place_means(order: Seq<Seq<char>>, name: Seq<char>)
    ensures
        place_in(order, name) is Some <==> order.contains(name),
    decreases order.len(),
{
    if order.len() > 0 {
        let front = order.drop_last();
        lemma_place_means(front, name);
        assert forall|i: int| 0 <= i < front.len() implies front[i] == #[trigger] order[i] by {}
        if front.contains(name) {
            let i = choose|i: int| 0 <= i < front.len() && front[i] == name;
            assert(order[i] == name);
        } else if order.last() == name {
            assert(order[order.len() - 1] == name);
        } else if order.contains(name) {
            let i = choose|i: int| 0 <= i < order.len() && order[i] == name;
            assert(front[i] == name);
        }
    }
}

/// On the same path, a way whose transport comes earlier in the order is preferred, and a way whose
/// transport is in the order is preferred to one whose transport is not.
pub proof fn law_order_decides_on_a_path(
    path: TransportPathClass,
    order: Seq<Seq<char>>,
    first: Seq<char>,
    second: Seq<char>,
)
    requires
        order.len() < usize::MAX,
        order.contains(first),
        forall|i: int|
            0 <= i < order.len() && (#[trigger] order[i]) == second ==> exists|j: int|
                0 <= j < i && order[j] == first,
    ensures
        first != second ==> PreferenceKey::of(path, order, first).before(
            PreferenceKey::of(path, order, second),
        ),
{
    law_rank_is_the_first_place(order, first);
    law_rank_is_the_first_place(order, second);
    if first != second && order.contains(second) {
        let rank = rank_in(order, second);
        let j = choose|j: int| 0 <= j < rank && order[j] == first;
        assert(order[j] == first);
    }
}

/// Where no rule is for the peer itself, the rule for its own network leads the order of a peer in the
/// own network, and the rule for other networks that of any other peer; where there is no such rule
/// either, the rule for all peers leads; and where there is none, the order is the usual one.
pub proof fn law_rules_lead_in_turn(
    rules: Seq<PriorityRule>,
    is_lan: bool,
    virtual_ip: Option<IpAddress>,
)
    requires
        virtual_ip is Some ==> !map_of(rules).contains_key(
            TransportPriorityScope::VirtualIp(virtual_ip->0),
        ),
    ensures
        ({
            let scopes = map_of(rules);
            let order = order_by_rules(rules, is_lan, virtual_ip);
            let near = if is_lan {
                TransportPriorityScope::Lan
            } else {
                TransportPriorityScope::Wan
            };
            let all = TransportPriorityScope::Global;
            &&& scopes.contains_key(near) ==> scopes[near].is_prefix_of(order)
            &&& !scopes.contains_key(near) && scopes.contains_key(all)
                ==> scopes[all].is_prefix_of(order)
            &&& !scopes.contains_key(near) && !scopes.contains_key(all) ==> order
                == builtin_order()
        }),
{
}

/// A rule for one peer leaves the transports that it does not name in the order in which they are for
/// other peers on the same path.
pub proof fn law_peer_rule_is_laid_over_the_others(
    rules: Seq<PriorityRule>,
    is_lan: bool,
    ip: IpAddress,
)
    requires
        map_of(rules).contains_key(TransportPriorityScope::VirtualIp(ip)),
    ensures
        ({
            let named = map_of(rules)[TransportPriorityScope::VirtualIp(ip)];
            order_by_rules(rules, is_lan, Some(ip)).skip(named.len() as int) == order_by_rules(
                rules,
                is_lan,
                None,
            ).filter(|p: TransportProtocol| !named.contains(p))
        }),
{
    let named = map_of(rules)[TransportPriorityScope::VirtualIp(ip)];
    let rest = order_by_rules(rules, is_lan, None).filter(
        |p: TransportProtocol| !named.contains(p),
    );
    assert(order_by_rules(rules, is_lan, Some(ip)).skip(named.len() as int) =~= rest);
}

/// A rule for a network leaves the transports that it does not name in the order in which they would
/// be without it: `others` is a list that has no rule for that network and the same rule for all peers.
pub proof fn law_network_rule_is_laid_over_the_others(
    rules: Seq<PriorityRule>,
    others: Seq<PriorityRule>,
    is_lan: bool,
    scope: TransportPriorityScope,
)
    requires
        scope == (if is_lan {
            TransportPriorityScope::Lan
        } else {
            TransportPriorityScope::Wan
        }),
        map_of(rules).contains_key(scope),
        !map_of(others).contains_key(scope),
        map_of(rules).contains_key(TransportPriorityScope::Global) == map_of(others).contains_key(
            TransportPriorityScope::Global,
        ),
        map_of(rules).contains_key(TransportPriorityScope::Global) ==> map_of(
            rules,
        )[TransportPriorityScope::Global] == map_of(others)[TransportPriorityScope::Global],
    ensures
        ({
            let named = map_of(rules)[scope];
            order_by_rules(rules, is_lan, None).skip(named.len() as int) == order_by_rules(
                others,
                is_lan,
                None,
            ).filter(|p: TransportProtocol| !named.contains(p))
        }),
{
    let named = map_of(rules)[scope];
    let rest = order_by_rules(others, is_lan, None).filter(
        |p: TransportProtocol| !named.contains(p),
    );
    assert(order_by_rules(rules, is_lan, None).skip(named.len() as int) =~= rest);
}

/// A rule for all peers leaves the transports that it does not name in their usual order.
pub proof fn law_general_rule_is_laid_over_the_usual_order(rules: Seq<PriorityRule>, is_lan: bool)
    requires
        map_of(rules).contains_key(TransportPriorityScope::Global),
        !map_of(rules).contains_key(TransportPriorityScope::Lan),
        !map_of(rules).contains_key(TransportPriorityScope::Wan),
    ensures
        ({
            let named = map_of(rules)[TransportPriorityScope::Global];
            order_by_rules(rules, is_lan, None).skip(named.len() as int) == builtin_order().filter(
                |p: TransportProtocol| !named.contains(p),
            )
        }),
{
    let named = map_of(rules)[TransportPriorityScope::Global];
    let rest = builtin_order().filter(|p: TransportProtocol| !named.contains(p));
    assert(order_by_rules(rules, is_lan, None).skip(named.len() as int) =~= rest);
}

} // verus!
