//! From the text a user types to the list of IPv4 addresses to scan:
//! single addresses, `a.b.c.d-e` and `a.b.c.d-a.b.c.e` ranges, CIDR blocks,
//! and the completion of short inputs into a full range.
use vstd::prelude::*;
use vstd::arithmetic::div_mod::lemma_fundamental_div_mod_converse;
use vstd::arithmetic::power2::{lemma2_to64, lemma_pow2_adds, lemma_pow2_pos, pow2};
use vstd::bits::lemma_u32_shr_is_div;
use crate::ipv4::{
    Ipv4, octets_value, ipv4_of_value, ipv4_text, lemma_decimal_facts, parse_ipv4, parse_ipv4_text, parse_u8,
    parse_u8_text, unsigned_digits, u32_to_ipv4, ipv4_sort_key, lemma_value_of_ipv4_of_value,
};
use crate::language::{
    Language, EXPAND_RANGE_INVALID_ORDER_ERROR_TEXTS, EXPAND_RANGE_TOO_LARGE_ERROR_TEXTS,
    PARSE_TARGETS_CIDR_EMPTY_ERROR_TEXTS, PARSE_TARGETS_INVALID_END_IP_ERROR_TEXTS,
    PARSE_TARGETS_INVALID_LAST_OCTET_ERROR_TEXTS, PARSE_TARGETS_INVALID_START_IP_ERROR_TEXTS,
    PARSE_TARGETS_IPV4_ONLY_ERROR_TEXTS, PARSE_TARGETS_REQUIRED_ERROR_TEXTS,
    PARSE_TARGETS_SUPPORTED_FORMATS_ERROR_TEXTS,
};
use crate::text::{
    all_digits, digit_value, digits_value, is_ascii_digit, chars_of, contains_char, decimal, find_char, index_of,
    is_white_space, lemma_index_of, lemma_index_of_contains, lemma_split_on_concat,
    lemma_split_on_single,
    lemma_trim_idempotent, lemma_trim_of_tight, push_decimal, slice_chars, split_chars,
    split_on, string_from_chars, trim, trim_chars, views,
};

verus! {

/// The largest number of addresses one range may cover.
pub const MAX_RANGE_TARGETS: u64 = 65536;

/// Why a scan range was refused.
#[derive(Clone, Copy, Debug, PartialEq, Eq, Structural)]
pub enum TargetError {
    Required,
    Ipv4Only,
    CidrEmpty,
    InvalidStartIp,
    InvalidEndIp,
    InvalidLastOctet,
    SupportedFormats,
    InvalidOrder,
    TooLarge,
}

/// The addresses numbered `lo..=hi`, in ascending order (none when `lo > hi`).
pub open spec fn address_span(lo: nat, hi: nat) -> Seq<Ipv4> {
    if lo <= hi {
        Seq::new((hi - lo + 1) as nat, |i: int| ipv4_of_value((lo + i) as nat))
    } else {
        Seq::empty()
    }
}

/// The network mask of a prefix length.
pub open spec fn netmask(prefix_len: u8) -> u32 {
    if prefix_len == 0 {
        0
    } else {
        0xffff_ffffu32 << ((32 - prefix_len) as u32)
    }
}

/// The host mask of a prefix length.
pub open spec fn hostmask(prefix_len: u8) -> u32 {
    if prefix_len >= 32 {
        0
    } else {
        0xffff_ffffu32 >> (prefix_len as u32)
    }
}

/// First and last host number of a network, as ipnet's `Ipv4Net::hosts` documents them:
/// network and broadcast addresses are left out unless the prefix is 31 or 32.
pub open spec fn host_bounds(addr: u32, prefix_len: u8) -> (u32, u32) {
    let network = addr & netmask(prefix_len);
    let broadcast = addr | hostmask(prefix_len);
    if prefix_len < 31 {
        (
            if network == 0xffff_ffffu32 {
                network
            } else {
                (network + 1) as u32
            },
            if broadcast == 0 {
                broadcast
            } else {
                (broadcast - 1) as u32
            },
        )
    } else {
        (network, broadcast)
    }
}

/// The hosts of the network `addr/prefix_len`.
pub open spec fn net_hosts(addr: u32, prefix_len: u8) -> Seq<Ipv4> {
    address_span(host_bounds(addr, prefix_len).0 as nat, host_bounds(addr, prefix_len).1 as nat)
}

/// What ipnet's `IpNet::from_str` makes of a text: `None` when it is no network,
/// `Some(None)` for an IPv6 network, `Some(Some((address, prefix length)))` for an IPv4 one.
pub uninterp spec fn ip_net_parse(text: Seq<char>) -> Option<Option<(u32, u8)>>;

/// Reads `text` with ipnet's `IpNet::from_str` (`text.parse::<IpNet>()`).
/// Its result is named by `ip_net_parse`; two facts of ipnet's parser are stated beside
/// it: an IPv4 prefix length is at most 32 (the parser reads it below 33 before it builds
/// an `Ipv4Net`), and a text without `/` is no network (both network forms read an
/// address, a `/` and a length).
#[verifier::external_body]
fn parse_ip_net(text: &str) -> (r: Option<Option<(u32, u8)>>)
    ensures
        r == ip_net_parse(text@),
        r matches Some(Some((_, p))) ==> p <= 32,
        !text@.contains('/') ==> r is None,
{
    match text.parse::<ipnet::IpNet>() {
        Err(_) => None,
        Ok(ipnet::IpNet::V6(_)) => Some(None),
        Ok(ipnet::IpNet::V4(net)) => Some(Some((u32::from(net.addr()), net.prefix_len()))),
    }
}

/// The addresses numbered `lo..=hi`.
pub fn address_range(lo: u32, hi: u32) -> (r: Vec<Ipv4>)
    ensures
        r@ == address_span(lo as nat, hi as nat),
{
    let mut r: Vec<Ipv4> = Vec::new();
    if lo > hi {
        assert(r@ =~= address_span(lo as nat, hi as nat));
        return r;
    }
    let mut v: u32 = lo;
    loop
        invariant
            lo <= v <= hi,
            r@ =~= address_span(lo as nat, hi as nat).take(v - lo),
        decreases hi - v,
    {
        r.push(u32_to_ipv4(v));
        assert(r@ =~= address_span(lo as nat, hi as nat).take(v - lo + 1));
        if v == hi {
            assert(address_span(lo as nat, hi as nat).take(v - lo + 1) =~= address_span(
                lo as nat,
                hi as nat,
            ));
            return r;
        }
        v = v + 1;
    }
}

/// The hosts of `addr/prefix_len`, as ipnet's `Ipv4Net::hosts` yields them.
pub fn ipv4_net_hosts(addr: u32, prefix_len: u8) -> (r: Vec<Ipv4>)
    requires
        prefix_len <= 32,
    ensures
        r@ == net_hosts(addr, prefix_len),
{
    let netmask: u32 = if prefix_len == 0 {
        0
    } else {
        0xffff_ffffu32 << ((32 - prefix_len) as u32)
    };
    let hostmask: u32 = if prefix_len >= 32 {
        0
    } else {
        0xffff_ffffu32 >> (prefix_len as u32)
    };
    let network = addr & netmask;
    let broadcast = addr | hostmask;
    let (lo, hi) = if prefix_len < 31 {
        (
            if network == 0xffff_ffffu32 {
                network
            } else {
                network + 1
            },
            if broadcast == 0 {
                broadcast
            } else {
                broadcast - 1
            },
        )
    } else {
        (network, broadcast)
    };
    address_range(lo, hi)
}

/// What `expand_range` gives for two addresses.
pub open spec fn expand_range_spec(start: Ipv4, end: Ipv4) -> Result<Seq<Ipv4>, TargetError> {
    if start.value() > end.value() {
        Err(TargetError::InvalidOrder)
    } else if end.value() - start.value() + 1 > 65536 {
        Err(TargetError::TooLarge)
    } else {
        Ok(address_span(start.value(), end.value()))
    }
}

/// The end of a range, read from the text after the dash: a full address when the
/// text holds a dot, else the last octet of the start address.
pub open spec fn range_end_spec(start: Ipv4, end_text: Seq<char>) -> Result<Ipv4, TargetError> {
    if end_text.contains('.') {
        match parse_ipv4_text(trim(end_text)) {
            Some(ip) => Ok(ip),
            None => Err(TargetError::InvalidEndIp),
        }
    } else {
        match parse_u8_text(trim(end_text)) {
            Some(o) => Ok(Ipv4 { a: start.a, b: start.b, c: start.c, d: o }),
            None => Err(TargetError::InvalidLastOctet),
        }
    }
}

/// The targets of a trimmed text, given what ipnet made of it (`net`).
pub open spec fn targets_spec(text: Seq<char>, net: Option<Option<(u32, u8)>>) -> Result<
    Seq<Ipv4>,
    TargetError,
> {
    if text.len() == 0 {
        Err(TargetError::Required)
    } else {
        match net {
            Some(None) => Err(TargetError::Ipv4Only),
            Some(Some((addr, p))) => if net_hosts(addr, p).len() == 0 {
                Err(TargetError::CidrEmpty)
            } else {
                Ok(net_hosts(addr, p))
            },
            None => match index_of(text, '-') {
                Some(i) => match parse_ipv4_text(trim(text.take(i))) {
                    None => Err(TargetError::InvalidStartIp),
                    Some(start) => match range_end_spec(start, text.skip(i + 1)) {
                        Err(e) => Err(e),
                        Ok(end) => expand_range_spec(start, end),
                    },
                },
                None => match parse_ipv4_text(text) {
                    Some(ip) => Ok(seq![ip]),
                    None => Err(TargetError::SupportedFormats),
                },
            },
        }
    }
}

/// The message of a refusal, in a language.
pub open spec fn target_error_message(language: Language, e: TargetError) -> Seq<char> {
    let i = language.slot_spec();
    match e {
        TargetError::Required => PARSE_TARGETS_REQUIRED_ERROR_TEXTS@[i]@,
        TargetError::Ipv4Only => PARSE_TARGETS_IPV4_ONLY_ERROR_TEXTS@[i]@,
        TargetError::CidrEmpty => PARSE_TARGETS_CIDR_EMPTY_ERROR_TEXTS@[i]@,
        TargetError::InvalidStartIp => PARSE_TARGETS_INVALID_START_IP_ERROR_TEXTS@[i]@,
        TargetError::InvalidEndIp => PARSE_TARGETS_INVALID_END_IP_ERROR_TEXTS@[i]@,
        TargetError::InvalidLastOctet => PARSE_TARGETS_INVALID_LAST_OCTET_ERROR_TEXTS@[i]@,
        TargetError::SupportedFormats => PARSE_TARGETS_SUPPORTED_FORMATS_ERROR_TEXTS@[i]@,
        TargetError::InvalidOrder => EXPAND_RANGE_INVALID_ORDER_ERROR_TEXTS@[i]@,
        TargetError::TooLarge => EXPAND_RANGE_TOO_LARGE_ERROR_TEXTS@[i]@,
    }
}

/// The message of a refusal, in a language.
pub fn target_error_text(language: Language, e: TargetError) -> (r: String)
    ensures
        r@ == target_error_message(language, e),
{
    match e {
        TargetError::Required => language.parse_targets_required_error(),
        TargetError::Ipv4Only => language.parse_targets_ipv4_only_error(),
        TargetError::CidrEmpty => language.parse_targets_cidr_empty_error(),
        TargetError::InvalidStartIp => language.parse_targets_invalid_start_ip_error(),
        TargetError::InvalidEndIp => language.parse_targets_invalid_end_ip_error(),
        TargetError::InvalidLastOctet => language.parse_targets_invalid_last_octet_error(),
        TargetError::SupportedFormats => language.parse_targets_supported_formats_error(),
        TargetError::InvalidOrder => language.expand_range_invalid_order_error(),
        TargetError::TooLarge => language.expand_range_too_large_error(),
    }
}

/// The addresses from `start` to `end`, or why there are none.
pub fn expand_range_checked(start: Ipv4, end: Ipv4) -> (r: Result<Vec<Ipv4>, TargetError>)
    ensures
        match r {
            Ok(v) => expand_range_spec(start, end) == Ok::<Seq<Ipv4>, TargetError>(v@),
            Err(e) => expand_range_spec(start, end) == Err::<Seq<Ipv4>, TargetError>(e),
        },
{
    let start_num = ipv4_sort_key(start);
    let end_num = ipv4_sort_key(end);
    if start_num > end_num {
        return Err(TargetError::InvalidOrder);
    }
    let total: u64 = (end_num - start_num) as u64 + 1;
    if total > MAX_RANGE_TARGETS {
        return Err(TargetError::TooLarge);
    }
    Ok(address_range(start_num, end_num))
}

/// The addresses from `start` to `end` in ascending order; refused when `start` comes
/// after `end` or when the range covers more than 65,536 addresses.
pub fn expand_range(start: Ipv4, end: Ipv4, language: Language) -> (r: Result<Vec<Ipv4>, String>)
    ensures
        match r {
            Ok(v) => expand_range_spec(start, end) == Ok::<Seq<Ipv4>, TargetError>(v@),
            Err(msg) => exists|e: TargetError|
                expand_range_spec(start, end) == Err::<Seq<Ipv4>, TargetError>(e) && msg@
                    == target_error_message(language, e),
        },
{
    match expand_range_checked(start, end) {
        Ok(v) => Ok(v),
        Err(e) => Err(target_error_text(language, e)),
    }
}

/// The targets of a trimmed text, given what ipnet made of it (`net`).
pub fn classify_targets(text: &Vec<char>, net: Option<Option<(u32, u8)>>) -> (r: Result<
    Vec<Ipv4>,
    TargetError,
>)
    requires
        net matches Some(Some((_, p))) ==> p <= 32,
    ensures
        match r {
            Ok(v) => targets_spec(text@, net) == Ok::<Seq<Ipv4>, TargetError>(v@),
            Err(e) => targets_spec(text@, net) == Err::<Seq<Ipv4>, TargetError>(e),
        },
{
    if text.len() == 0 {
        return Err(TargetError::Required);
    }
    match net {
        Some(None) => Err(TargetError::Ipv4Only),
        Some(Some((addr, p))) => {
            let hosts = ipv4_net_hosts(addr, p);
            if hosts.len() == 0 {
                Err(TargetError::CidrEmpty)
            } else {
                Ok(hosts)
            }
        },
        None => match find_char(text, '-') {
            Some(i) => {
                let start_text = trim_chars(&slice_chars(text, 0, i));
                let end_text = slice_chars(text, i + 1, text.len());
                assert(text@.take(i as int) =~= text@.subrange(0, i as int));
                assert(text@.skip(i + 1) =~= end_text@);
                let start = match parse_ipv4(&start_text) {
                    Some(s) => s,
                    None => {
                        return Err(TargetError::InvalidStartIp);
                    },
                };
                let end = if contains_char(&end_text, '.') {
                    match parse_ipv4(&trim_chars(&end_text)) {
                        Some(e) => e,
                        None => {
                            return Err(TargetError::InvalidEndIp);
                        },
                    }
                } else {
                    match parse_u8(&trim_chars(&end_text)) {
                        Some(o) => Ipv4 { a: start.a, b: start.b, c: start.c, d: o },
                        None => {
                            return Err(TargetError::InvalidLastOctet);
                        },
                    }
                };
                expand_range_checked(start, end)
            },
            None => match parse_ipv4(text) {
                Some(ip) => {
                    let mut v: Vec<Ipv4> = Vec::new();
                    v.push(ip);
                    assert(v@ =~= seq![ip]);
                    Ok(v)
                },
                None => Err(TargetError::SupportedFormats),
            },
        },
    }
}

/// The targets a text names, or why it names none. The text is trimmed first; a
/// non-empty text is offered to ipnet's network parser before the range forms are tried.
pub fn parse_targets_checked(input: &str) -> (r: Result<Vec<Ipv4>, TargetError>)
    ensures
        match r {
            Ok(v) => targets_spec(trim(input@), ip_net_parse(trim(input@))) == Ok::<
                Seq<Ipv4>,
                TargetError,
            >(v@),
            Err(e) => targets_spec(trim(input@), ip_net_parse(trim(input@))) == Err::<
                Seq<Ipv4>,
                TargetError,
            >(e),
        },
        trim(input@).len() == 0 ==> r == Err::<Vec<Ipv4>, TargetError>(TargetError::Required),
        trim(input@).len() > 0 && !trim(input@).contains('/') ==> ip_net_parse(trim(input@)) is None,
{
    let trimmed = crate::text::trim_str(input);
    if trimmed.len() == 0 {
        return Err(TargetError::Required);
    }
    let trimmed_text = string_from_chars(&trimmed);
    let net = parse_ip_net(trimmed_text.as_str());
    classify_targets(&trimmed, net)
}

/// The targets a text names, or the message, in `language`, that says why it names none.
pub fn parse_targets(input: &str, language: Language) -> (r: Result<Vec<Ipv4>, String>)
    ensures
        match r {
            Ok(v) => targets_spec(trim(input@), ip_net_parse(trim(input@))) == Ok::<
                Seq<Ipv4>,
                TargetError,
            >(v@),
            Err(msg) => exists|e: TargetError|
                targets_spec(trim(input@), ip_net_parse(trim(input@))) == Err::<
                    Seq<Ipv4>,
                    TargetError,
                >(e) && msg@ == target_error_message(language, e),
        },
        trim(input@).len() == 0 ==> (r matches Err(msg) && msg@ == target_error_message(
            language,
            TargetError::Required,
        )),
        trim(input@).len() > 0 && !trim(input@).contains('/') ==> ip_net_parse(trim(input@)) is None,
{
    match parse_targets_checked(input) {
        Ok(v) => Ok(v),
        Err(e) => Err(target_error_text(language, e)),
    }
}

/// The three octets of an `a.b.c` text, each read as `str::parse::<u8>` reads it.
pub open spec fn three_octets_spec(s: Seq<char>) -> Option<(u8, u8, u8)> {
    let parts = split_on(s, '.');
    if parts.len() == 3 {
        match (parse_u8_text(parts[0]), parse_u8_text(parts[1]), parse_u8_text(parts[2])) {
            (Some(a), Some(b), Some(c)) => Some((a, b, c)),
            _ => None,
        }
    } else {
        None
    }
}

fn three_octets(s: &Vec<char>) -> (r: Option<(u8, u8, u8)>)
    ensures
        r == three_octets_spec(s@),
{
    let parts = split_chars(s, '.');
    if parts.len() != 3 {
        return None;
    }
    proof {
        assert(views(parts@)[0] == parts@[0]@);
        assert(views(parts@)[1] == parts@[1]@);
        assert(views(parts@)[2] == parts@[2]@);
    }
    match (parse_u8(&parts[0]), parse_u8(&parts[1]), parse_u8(&parts[2])) {
        (Some(a), Some(b), Some(c)) => Some((a, b, c)),
        _ => None,
    }
}

/// Reads an `a.b.c` text as three octets.
pub fn parse_three_octets(input: &str) -> (r: Option<(u8, u8, u8)>)
    ensures
        r == three_octets_spec(input@),
{
    three_octets(&chars_of(input))
}

/// The full host range of the /24 block `a.b.c`: `a.b.c.1-254`.
pub open spec fn block_range_text(a: u8, b: u8, c: u8) -> Seq<char> {
    decimal(a as nat) + seq!['.'] + decimal(b as nat) + seq!['.'] + decimal(c as nat) + seq![
        '.',
        '1',
        '-',
        '2',
        '5',
        '4',
    ]
}

/// What `normalize_range_input` makes of a text: the trimmed text, except that a
/// three-octet prefix or a single address becomes the host range of its /24 block.
pub open spec fn normalize_range_spec(s: Seq<char>) -> Seq<char> {
    let t = trim(s);
    if t.len() == 0 || t.contains('-') || t.contains('/') {
        t
    } else {
        match three_octets_spec(t) {
            Some((a, b, c)) => block_range_text(a, b, c),
            None => match parse_ipv4_text(t) {
                Some(ip) => block_range_text(ip.a, ip.b, ip.c),
                None => t,
            },
        }
    }
}

fn push_block_range(out: &mut Vec<char>, a: u8, b: u8, c: u8)
    ensures
        final(out)@ == old(out)@ + block_range_text(a, b, c),
{
    push_decimal(out, a as u64);
    out.push('.');
    push_decimal(out, b as u64);
    out.push('.');
    push_decimal(out, c as u64);
    out.push('.');
    out.push('1');
    out.push('-');
    out.push('2');
    out.push('5');
    out.push('4');
    assert(final(out)@ =~= old(out)@ + block_range_text(a, b, c));
}

/// Completes what a user typed into a scan range: `192.168.1` and `192.168.1.7` both
/// become `192.168.1.1-254`; anything else is only trimmed.
pub fn normalize_range_input(input: &str) -> (r: String)
    ensures
        r@ == normalize_range_spec(input@),
{
    let trimmed = crate::text::trim_str(input);
    if trimmed.len() == 0 || contains_char(&trimmed, '-') || contains_char(&trimmed, '/') {
        return string_from_chars(&trimmed);
    }
    let mut out: Vec<char> = Vec::new();
    match three_octets(&trimmed) {
        Some((a, b, c)) => {
            push_block_range(&mut out, a, b, c);
            assert(out@ =~= block_range_text(a, b, c));
            return string_from_chars(&out);
        },
        None => {},
    }
    match parse_ipv4(&trimmed) {
        Some(ip) => {
            push_block_range(&mut out, ip.a, ip.b, ip.c);
            assert(out@ =~= block_range_text(ip.a, ip.b, ip.c));
            string_from_chars(&out)
        },
        None => string_from_chars(&trimmed),
    }
}

proof fn lemma_block_range_text_shape(a: u8, b: u8, c: u8)
    ensures
        block_range_text(a, b, c).len() > 0,
        !is_white_space(block_range_text(a, b, c)[0]),
        !is_white_space(block_range_text(a, b, c).last()),
        block_range_text(a, b, c).contains('-'),
{
    let t = block_range_text(a, b, c);
    lemma_decimal_facts(a as nat);
    assert(t[0] == decimal(a as nat)[0]);
    assert(crate::text::is_ascii_digit(decimal(a as nat)[0]));
    assert(t.last() == '4');
    assert(t[t.len() - 4] == '-');
}

/// Completing a range twice gives what completing it once gave.
pub proof fn normalize_range_input_idempotent(s: Seq<char>)
    ensures
        normalize_range_spec(normalize_range_spec(s)) == normalize_range_spec(s),
{
    let t = trim(s);
    lemma_trim_idempotent(s);
    let r = normalize_range_spec(s);
    if r != t {
        let (a, b, c) = if three_octets_spec(t) is Some {
            three_octets_spec(t)->0
        } else {
            let ip = parse_ipv4_text(t)->0;
            (ip.a, ip.b, ip.c)
        };
        assert(r == block_range_text(a, b, c));
        lemma_block_range_text_shape(a, b, c);
        lemma_trim_of_tight(r);
    }
}

proof fn lemma_digits_or_dots(ip: Ipv4)
    ensures
        forall|j: int|
            0 <= j < ipv4_text(ip).len() ==> is_ascii_digit(#[trigger] ipv4_text(ip)[j]) || ipv4_text(
                ip,
            )[j] == '.',
        ipv4_text(ip).len() > 0,
        is_ascii_digit(ipv4_text(ip)[0]),
        is_ascii_digit(ipv4_text(ip).last()),
{
    let da = decimal(ip.a as nat);
    let db = decimal(ip.b as nat);
    let dc = decimal(ip.c as nat);
    let dd = decimal(ip.d as nat);
    lemma_decimal_facts(ip.a as nat);
    lemma_decimal_facts(ip.b as nat);
    lemma_decimal_facts(ip.c as nat);
    lemma_decimal_facts(ip.d as nat);
    let dot = seq!['.'];
    let x1 = da + dot + db;
    let x2 = x1 + dot + dc;
    let t = x2 + dot + dd;
    assert(t == ipv4_text(ip));
    assert forall|j: int| 0 <= j < x1.len() implies is_ascii_digit(#[trigger] x1[j]) || x1[j] == '.' by {
        if j < da.len() {
            assert(x1[j] == da[j]);
        } else if j > da.len() {
            assert(x1[j] == db[j - da.len() - 1]);
        }
    }
    assert forall|j: int| 0 <= j < x2.len() implies is_ascii_digit(#[trigger] x2[j]) || x2[j] == '.' by {
        if j < x1.len() {
            assert(x2[j] == x1[j]);
        } else if j > x1.len() {
            assert(x2[j] == dc[j - x1.len() - 1]);
        }
    }
    assert forall|j: int| 0 <= j < t.len() implies is_ascii_digit(#[trigger] t[j]) || t[j] == '.' by {
        if j < x2.len() {
            assert(t[j] == x2[j]);
        } else if j > x2.len() {
            assert(t[j] == dd[j - x2.len() - 1]);
        }
    }
    assert(t[0] == da[0]);
    assert(t.last() == dd.last());
}

proof fn lemma_octet_reads_back(x: u8)
    ensures
        parse_u8_text(decimal(x as nat)) == Some(x),
        !decimal(x as nat).contains('.'),
{
    lemma_decimal_facts(x as nat);
    assert(is_ascii_digit(decimal(x as nat)[0]));
    assert(unsigned_digits(decimal(x as nat)) == decimal(x as nat));
}

/// Dotted decimal texts are read octet by octet in the order written: `a.b.c.d` is the
/// address with first octet `a` and last octet `d`, and `a.b.c` the three octets
/// `(a, b, c)`; an address is written the same way.
pub proof fn dotted_octets_read_in_order(a: u8, b: u8, c: u8, d: u8)
    ensures
        ipv4_text(Ipv4 { a: a, b: b, c: c, d: d }) == decimal(a as nat) + seq!['.'] + decimal(
            b as nat,
        ) + seq!['.'] + decimal(c as nat) + seq!['.'] + decimal(d as nat),
        parse_ipv4_text(
            decimal(a as nat) + seq!['.'] + decimal(b as nat) + seq!['.'] + decimal(c as nat) + seq![
                '.',
            ] + decimal(d as nat),
        ) == Some(Ipv4 { a: a, b: b, c: c, d: d }),
        three_octets_spec(
            decimal(a as nat) + seq!['.'] + decimal(b as nat) + seq!['.'] + decimal(c as nat),
        ) == Some((a, b, c)),
{
    crate::ipv4::ipv4_text_round_trip(Ipv4 { a: a, b: b, c: c, d: d });
    let da = decimal(a as nat);
    let db = decimal(b as nat);
    let dc = decimal(c as nat);
    lemma_octet_reads_back(a);
    lemma_octet_reads_back(b);
    lemma_octet_reads_back(c);
    lemma_split_on_single(da, '.');
    lemma_split_on_single(db, '.');
    lemma_split_on_single(dc, '.');
    lemma_split_on_concat(da, db, '.');
    let x1 = da + seq!['.'] + db;
    lemma_split_on_concat(x1, dc, '.');
    assert(split_on(x1 + seq!['.'] + dc, '.') =~= seq![da, db, dc]);
}

/// A completed range is read as the 254 host addresses of its /24 block: `192.168.1` and
/// `192.168.1.7` both become `192.168.1.1-254`, which names `192.168.1.1` to
/// `192.168.1.254`. (The text holds no `/`, so ipnet reads no network in it; see
/// `parse_targets`.)
pub proof fn completed_range_scans_its_block(a: u8, b: u8, c: u8)
    ensures
        trim(block_range_text(a, b, c)) == block_range_text(a, b, c),
        !block_range_text(a, b, c).contains('/'),
        targets_spec(block_range_text(a, b, c), None) == Ok::<Seq<Ipv4>, TargetError>(
            address_span(octets_value(a, b, c, 1), octets_value(a, b, c, 254)),
        ),
{
    let t = block_range_text(a, b, c);
    let start = Ipv4 { a: a, b: b, c: c, d: 1 };
    let end = Ipv4 { a: a, b: b, c: c, d: 254 };
    let head = ipv4_text(start);
    let tail = seq!['2', '5', '4'];
    assert(decimal(1) =~= seq!['1']);
    assert(t =~= head + seq!['-'] + tail);
    lemma_block_range_text_shape(a, b, c);
    lemma_trim_of_tight(t);
    lemma_digits_or_dots(start);
    assert(!t.contains('/')) by {
        if t.contains('/') {
            let k = choose|k: int| 0 <= k < t.len() && t[k] == '/';
            if k < head.len() {
                assert(t[k] == head[k]);
            }
        }
    }
    assert forall|j: int| 0 <= j < head.len() implies t[j] != '-' by {
        assert(t[j] == head[j]);
    }
    lemma_index_of(t, '-', head.len() as int);
    assert(t.take(head.len() as int) =~= head);
    assert(t.skip(head.len() + 1int) =~= tail);
    lemma_trim_of_tight(head);
    crate::ipv4::ipv4_text_round_trip(start);
    assert(!tail.contains('.')) by {
        if tail.contains('.') {
            let k = choose|k: int| 0 <= k < tail.len() && tail[k] == '.';
        }
    }
    lemma_trim_of_tight(tail);
    assert(tail.drop_last() =~= seq!['2', '5']);
    assert(seq!['2', '5'].drop_last() =~= seq!['2']);
    assert(seq!['2'].drop_last() =~= Seq::<char>::empty());
    assert(digits_value(Seq::<char>::empty()) == 0);
    assert(digit_value('2') == 2 && digit_value('5') == 5 && digit_value('4') == 4);
    assert(digits_value(seq!['2']) == 2);
    assert(digits_value(seq!['2', '5']) == 25);
    assert(digits_value(tail) == 254);
    assert(all_digits(tail));
    assert(parse_u8_text(tail) == Some(254u8));
    assert(range_end_spec(start, tail) == Ok::<Ipv4, TargetError>(end));
    assert(start.value() == octets_value(a, b, c, 1));
    assert(end.value() == octets_value(a, b, c, 254));
}

/// Every IPv4 network has a host: a block up to /30 has at least two, a /31 two and a
/// /32 one, so the parser never refuses a network for being empty.
pub proof fn networks_have_hosts(addr: u32, prefix_len: u8)
    requires
        prefix_len <= 32,
    ensures
        net_hosts(addr, prefix_len).len() > 0,
        prefix_len <= 30 ==> net_hosts(addr, prefix_len).len() >= 2,
{
    let nm = netmask(prefix_len);
    let hm = hostmask(prefix_len);
    let network = addr & nm;
    let broadcast = addr | hm;
    assert(network <= broadcast) by (bit_vector)
        requires
            network == addr & nm,
            broadcast == addr | hm,
    ;
    if prefix_len <= 30 {
        if prefix_len == 0 {
            assert(nm == 0);
            assert(network & 3 == 0) by (bit_vector)
                requires
                    network == addr & nm,
                    nm == 0,
            ;
        } else {
            let shift: u32 = (32 - prefix_len) as u32;
            assert(nm == 0xffff_ffffu32 << shift);
            assert(nm & 3 == 0) by (bit_vector)
                requires
                    nm == 0xffff_ffffu32 << shift,
                    2 <= shift < 32,
            ;
            assert(network & 3 == 0) by (bit_vector)
                requires
                    network == addr & nm,
                    nm & 3 == 0,
            ;
        }
        let p: u32 = prefix_len as u32;
        assert(hm == 0xffff_ffffu32 >> p);
        assert(hm & 3 == 3) by (bit_vector)
            requires
                hm == 0xffff_ffffu32 >> p,
                p <= 30,
        ;
        assert(broadcast & 3 == 3) by (bit_vector)
            requires
                broadcast == addr | hm,
                hm & 3 == 3,
        ;
        assert(network + 3 <= broadcast) by (bit_vector)
            requires
                network & 3 == 0,
                broadcast & 3 == 3,
                network <= broadcast,
        ;
    }
}

proof fn lemma_host_mask_size(prefix_len: u8)
    requires
        prefix_len <= 32,
    ensures
        (0xffff_ffffu32 >> (prefix_len as u32)) as nat + 1 == pow2((32 - prefix_len) as nat),
{
    let p: u32 = prefix_len as u32;
    let e: nat = (32 - prefix_len) as nat;
    lemma2_to64();
    lemma_pow2_adds(p as nat, e);
    lemma_pow2_pos(p as nat);
    lemma_pow2_pos(e);
    assert(p as nat + e == 32);
    assert(pow2(32) == 0x1_0000_0000);
    if p == 32 {
        assert(0xffff_ffffu32 >> 32u32 == 0) by (bit_vector);
        assert(e == 0);
        assert(pow2(0) == 1);
    } else {
        lemma_u32_shr_is_div(0xffff_ffffu32, p);
        let d = pow2(p as nat) as int;
        let q = pow2(e) as int;
        assert(0xffff_ffffu32 as int == (q - 1) * d + (d - 1)) by (nonlinear_arith)
            requires
                d * q == 0x1_0000_0000,
        ;
        lemma_fundamental_div_mod_converse(0xffff_ffffu32 as int, d, q - 1, d - 1);
    }
}

/// A CIDR block up to /30 is scanned whole: its targets are every address strictly
/// between the network address `addr & mask` and the broadcast address `addr | !mask`,
/// in order, which are 2^(32 - prefix) - 2 addresses.
pub proof fn cidr_targets_fill_the_block(addr: u32, prefix_len: u8)
    requires
        prefix_len <= 30,
    ensures
        ({
            let mask: u32 = if prefix_len == 0 {
                0u32
            } else {
                0xffff_ffffu32 << ((32 - prefix_len) as u32)
            };
            let network = addr & mask;
            let broadcast = addr | !mask;
            let hosts = net_hosts(addr, prefix_len);
            &&& hosts.len() == pow2((32 - prefix_len) as nat) - 2
            &&& hosts.len() == broadcast - network - 1
            &&& forall|i: int| 0 <= i < hosts.len() ==> #[trigger] hosts[i].value() == network + 1 + i
            &&& hosts[0].value() == network + 1
            &&& hosts.last().value() == broadcast - 1
        }),
{
    let mask: u32 = if prefix_len == 0 {
        0u32
    } else {
        0xffff_ffffu32 << ((32 - prefix_len) as u32)
    };
    let p: u32 = prefix_len as u32;
    let hm: u32 = 0xffff_ffffu32 >> p;
    if prefix_len == 0 {
        assert(!mask == hm) by (bit_vector)
            requires
                mask == 0u32,
                hm == 0xffff_ffffu32 >> p,
                p == 0,
        ;
    } else {
        let shift: u32 = (32 - prefix_len) as u32;
        assert(!mask == hm) by (bit_vector)
            requires
                mask == 0xffff_ffffu32 << shift,
                hm == 0xffff_ffffu32 >> p,
                shift == 32 - p,
                1 <= p <= 30,
        ;
    }
    assert(mask == !hm) by (bit_vector)
        requires
            !mask == hm,
    ;
    assert(hm & 3 == 3) by (bit_vector)
        requires
            hm == 0xffff_ffffu32 >> p,
            p <= 30,
    ;
    assert(netmask(prefix_len) == mask);
    assert(hostmask(prefix_len) == hm);
    let network = addr & mask;
    let broadcast = addr | hm;
    assert(broadcast == network + hm) by (bit_vector)
        requires
            network == addr & mask,
            broadcast == addr | hm,
            mask == !hm,
    ;
    networks_have_hosts(addr, prefix_len);
    lemma_host_mask_size(prefix_len);
    assert(network & 3 == 0 && broadcast & 3 == 3) by (bit_vector)
        requires
            network == addr & mask,
            broadcast == addr | hm,
            mask == !hm,
            hm & 3 == 3,
    ;
    assert(network != 0xffff_ffffu32);
    assert(broadcast != 0);
    let (lo, hi) = host_bounds(addr, prefix_len);
    assert(lo == network + 1);
    assert(hi == broadcast - 1);
    lemma_address_span_values(lo as nat, hi as nat);
}

/// A /31 or /32 network is scanned whole, network and broadcast address included.
pub proof fn small_networks_are_scanned_whole(addr: u32, prefix_len: u8)
    requires
        31 <= prefix_len <= 32,
    ensures
        ({
            let mask: u32 = 0xffff_ffffu32 << ((32 - prefix_len) as u32);
            let network = addr & mask;
            let broadcast = addr | !mask;
            let hosts = net_hosts(addr, prefix_len);
            &&& hosts.len() == pow2((32 - prefix_len) as nat)
            &&& forall|i: int| 0 <= i < hosts.len() ==> #[trigger] hosts[i].value() == network + i
            &&& hosts.last().value() == broadcast
        }),
{
    let mask: u32 = 0xffff_ffffu32 << ((32 - prefix_len) as u32);
    let p: u32 = prefix_len as u32;
    let hm: u32 = 0xffff_ffffu32 >> p;
    let shift: u32 = (32 - prefix_len) as u32;
    assert(!mask == hm && mask == !hm) by (bit_vector)
        requires
            mask == 0xffff_ffffu32 << shift,
            hm == 0xffff_ffffu32 >> p,
            shift == 32 - p,
            31 <= p <= 32,
    ;
    let network = addr & mask;
    let broadcast = addr | hm;
    assert(broadcast == network + hm) by (bit_vector)
        requires
            network == addr & mask,
            broadcast == addr | hm,
            mask == !hm,
    ;
    lemma_host_mask_size(prefix_len);
    if p == 32 {
        assert(hm == 0) by (bit_vector)
            requires
                hm == 0xffff_ffffu32 >> p,
                p == 32,
        ;
    }
    assert(netmask(prefix_len) == mask);
    assert(hostmask(prefix_len) == hm);
    lemma_address_span_values(network as nat, broadcast as nat);
}

/// A dash range names every address from its start to its end, in order, when the end
/// does not come before the start and the two are at most 65,536 addresses apart; an end
/// before the start is refused as out of order, a longer range as too large.
pub proof fn dash_ranges_are_inclusive_spans(start: Ipv4, end: Ipv4)
    ensures
        start.value() > end.value() ==> expand_range_spec(start, end) == Err::<Seq<Ipv4>, TargetError>(
            TargetError::InvalidOrder,
        ),
        start.value() <= end.value() && end.value() - start.value() >= 65536 ==> expand_range_spec(
            start,
            end,
        ) == Err::<Seq<Ipv4>, TargetError>(TargetError::TooLarge),
        start.value() <= end.value() && end.value() - start.value() < 65536 ==> {
            &&& expand_range_spec(start, end) is Ok
            &&& expand_range_spec(start, end)->Ok_0.len() == end.value() - start.value() + 1
            &&& forall|i: int|
                0 <= i < expand_range_spec(start, end)->Ok_0.len() ==> #[trigger] expand_range_spec(
                    start,
                    end,
                )->Ok_0[i].value() == start.value() + i
            &&& expand_range_spec(start, end)->Ok_0[0] == start
            &&& expand_range_spec(start, end)->Ok_0.last() == end
        },
{
    crate::ipv4::ipv4_value_round_trip(start);
    crate::ipv4::ipv4_value_round_trip(end);
    assert(end.value() < 4294967296);
    lemma_address_span_values(start.value(), end.value());
    if start.value() <= end.value() && end.value() - start.value() < 65536 {
        let v = address_span(start.value(), end.value());
        assert(v[0] == ipv4_of_value(start.value()));
        assert(v.last() == ipv4_of_value(end.value()));
    }
}

/// A range end without a dot is a last octet: the end address is the start address with
/// that octet in last place; an end with a dot is read as a whole address.
pub proof fn last_octet_ends_stay_in_the_block(start: Ipv4, end_text: Seq<char>)
    ensures
        !end_text.contains('.') ==> match parse_u8_text(trim(end_text)) {
            Some(o) => range_end_spec(start, end_text) == Ok::<Ipv4, TargetError>(
                Ipv4 { a: start.a, b: start.b, c: start.c, d: o },
            ),
            None => range_end_spec(start, end_text) == Err::<Ipv4, TargetError>(
                TargetError::InvalidLastOctet,
            ),
        },
        end_text.contains('.') ==> match parse_ipv4_text(trim(end_text)) {
            Some(ip) => range_end_spec(start, end_text) == Ok::<Ipv4, TargetError>(ip),
            None => range_end_spec(start, end_text) == Err::<Ipv4, TargetError>(
                TargetError::InvalidEndIp,
            ),
        },
{
}

/// Completing a range keeps what the user typed, trimmed, unless it is three octets or a
/// single address: then it becomes the `.1-254` range of that block. Either way the result
/// has no white space at its ends.
pub proof fn completion_only_widens_short_inputs(s: Seq<char>)
    ensures
        trim(normalize_range_spec(s)) == normalize_range_spec(s),
        trim(s).contains('-') || trim(s).contains('/') ==> normalize_range_spec(s) == trim(s),
        !trim(s).contains('-') && !trim(s).contains('/') ==> match three_octets_spec(trim(s)) {
            Some((a, b, c)) => trim(s).len() > 0 ==> normalize_range_spec(s) == decimal(a as nat)
                + seq!['.'] + decimal(b as nat) + seq!['.'] + decimal(c as nat) + seq![
                '.',
                '1',
                '-',
                '2',
                '5',
                '4',
            ],
            None => match parse_ipv4_text(trim(s)) {
                Some(ip) => trim(s).len() > 0 ==> normalize_range_spec(s) == decimal(ip.a as nat)
                    + seq!['.'] + decimal(ip.b as nat) + seq!['.'] + decimal(ip.c as nat) + seq![
                    '.',
                    '1',
                    '-',
                    '2',
                    '5',
                    '4',
                ],
                None => normalize_range_spec(s) == trim(s),
            },
        },
{
    normalize_range_input_idempotent(s);
    lemma_trim_idempotent(s);
    let t = trim(s);
    let r = normalize_range_spec(s);
    if r != t {
        let (a, b, c) = if three_octets_spec(t) is Some {
            three_octets_spec(t)->0
        } else {
            let ip = parse_ipv4_text(t)->0;
            (ip.a, ip.b, ip.c)
        };
        lemma_block_range_text_shape(a, b, c);
        lemma_trim_of_tight(r);
    }
}

/// What each typed form names. A blank text is refused as missing; an IPv6 network as
/// not IPv4; an IPv4 network up to /30 names every address strictly between its network
/// and broadcast addresses; a text without a network or a dash names the one address it
/// spells; a dash range whose ends read as addresses in order, at most 65,536 apart,
/// names every address from its start to its end.
pub proof fn typed_ranges_name_their_addresses(text: Seq<char>, net: Option<Option<(u32, u8)>>)
    ensures
        text.len() == 0 ==> targets_spec(text, net) == Err::<Seq<Ipv4>, TargetError>(
            TargetError::Required,
        ),
        text.len() > 0 && net == Some(None::<(u32, u8)>) ==> targets_spec(text, net) == Err::<
            Seq<Ipv4>,
            TargetError,
        >(TargetError::Ipv4Only),
        text.len() > 0 ==> (net matches Some(Some((addr, p))) ==> (p <= 30 ==> {
            let mask: u32 = if p == 0 {
                0u32
            } else {
                0xffff_ffffu32 << ((32 - p) as u32)
            };
            let network = addr & mask;
            &&& targets_spec(text, net) is Ok
            &&& targets_spec(text, net)->Ok_0.len() == pow2((32 - p) as nat) - 2
            &&& forall|i: int|
                0 <= i < targets_spec(text, net)->Ok_0.len() ==> #[trigger] targets_spec(
                    text,
                    net,
                )->Ok_0[i].value() == network + 1 + i
        })),
        text.len() > 0 && net is None && !text.contains('-') ==> match parse_ipv4_text(text) {
            Some(ip) => targets_spec(text, net) == Ok::<Seq<Ipv4>, TargetError>(seq![ip]),
            None => targets_spec(text, net) == Err::<Seq<Ipv4>, TargetError>(
                TargetError::SupportedFormats,
            ),
        },
        text.len() > 0 && net is None ==> (index_of(text, '-') matches Some(i) ==> (parse_ipv4_text(
            trim(text.take(i)),
        ) matches Some(start) ==> (range_end_spec(start, text.skip(i + 1)) matches Ok(end) ==> (
        start.value() <= end.value() && end.value() - start.value() < 65536 ==> {
            &&& targets_spec(text, net) is Ok
            &&& targets_spec(text, net)->Ok_0.len() == end.value() - start.value() + 1
            &&& forall|k: int|
                0 <= k < targets_spec(text, net)->Ok_0.len() ==> #[trigger] targets_spec(
                    text,
                    net,
                )->Ok_0[k].value() == start.value() + k
        })))),
{
    lemma_index_of_contains(text, '-');
    if let Some(Some((addr, p))) = net {
        if p <= 30 {
            cidr_targets_fill_the_block(addr, p);
            networks_have_hosts(addr, p);
        }
    }
    if let Some(i) = index_of(text, '-') {
        if let Some(start) = parse_ipv4_text(trim(text.take(i))) {
            if let Ok(end) = range_end_spec(start, text.skip(i + 1)) {
                dash_ranges_are_inclusive_spans(start, end);
            }
        }
    }
}

/// In the span `lo..=hi` of 32-bit numbers, the `i`-th address is numbered `lo + i`.
pub proof fn lemma_address_span_values(lo: nat, hi: nat)
    requires
        hi < 4294967296,
    ensures
        forall|i: int|
            0 <= i < address_span(lo, hi).len() ==> (#[trigger] address_span(lo, hi)[i]).value()
                == lo + i,
        address_span(lo, hi).len() == (if lo <= hi {
            hi - lo + 1
        } else {
            0
        }),
{
    assert forall|i: int| 0 <= i < address_span(lo, hi).len() implies (
    #[trigger] address_span(lo, hi)[i]).value() == lo + i by {
        lemma_value_of_ipv4_of_value((lo + i) as nat);
    }
}

/// Strictly ascending by address number, hence free of repeats.
pub open spec fn strictly_ascending(v: Seq<Ipv4>) -> bool {
    forall|i: int, j: int| 0 <= i < j < v.len() ==> v[i].value() < v[j].value()
}

/// Every target list that the parser accepts is strictly ascending, so no address is
/// scanned twice; a dash range yields at most 65,536 addresses.
pub proof fn targets_are_ascending(text: Seq<char>, net: Option<Option<(u32, u8)>>)
    ensures
        targets_spec(text, net) matches Ok(v) ==> strictly_ascending(v) && v.len() > 0,
        net is None && index_of(text, '-') is Some ==> (targets_spec(text, net) matches Ok(v)
            ==> v.len() <= 65536),
{
    match targets_spec(text, net) {
        Ok(v) => {
            match net {
                Some(Some((addr, p))) => {
                    let (lo, hi) = host_bounds(addr, p);
                    lemma_address_span_values(lo as nat, hi as nat);
                },
                _ => {
                    match index_of(text, '-') {
                        Some(i) => {
                            let start = parse_ipv4_text(trim(text.take(i)))->0;
                            let end = range_end_spec(start, text.skip(i + 1))->Ok_0;
                            crate::ipv4::ipv4_value_round_trip(start);
                            lemma_address_span_values(start.value(), end.value());
                        },
                        None => {},
                    }
                },
            }
        },
        Err(_) => {},
    }
}

} // verus!
