//! What the answers of the network probes mean: the MAC address in the output of `arp`,
//! the NetBIOS name in the output of `nbtstat`, a DNS name, and the record of a probed host.
use vstd::prelude::*;
use crate::ipv4::{Ipv4, ipv4_text, format_ipv4};
use crate::mac::{mac_text, normalize_mac, normalize_mac_spec, prefix8, vendor_from_mac, VendorDb};
use crate::records::{DeviceStatus, ScanRecord};
use crate::text::{
    chars_of, hex2, is_white_space, is_whitespace, push_hex2, slice_chars, split_chars, split_on,
    string_from_chars, trim, trim_chars, trim_start, views,
};

verus! {

/// The words of a text, as `split_whitespace` yields them.
pub open spec fn words(s: Seq<char>) -> Seq<Seq<char>>
    decreases s.len(),
{
    if s.len() == 0 {
        Seq::empty()
    } else {
        let w = words(s.drop_last());
        let c = s.last();
        if is_white_space(c) {
            w
        } else if s.len() > 1 && !is_white_space(s[s.len() - 2]) {
            w.update(w.len() - 1, w.last().push(c))
        } else {
            w.push(seq![c])
        }
    }
}

proof fn lemma_words_nonempty_when_word_char(s: Seq<char>)
    requires
        s.len() > 0,
        !is_white_space(s.last()),
    ensures
        words(s).len() > 0,
    decreases s.len(),
{
    if s.len() > 1 && !is_white_space(s[s.len() - 2]) {
        assert(s.drop_last().last() == s[s.len() - 2]);
        lemma_words_nonempty_when_word_char(s.drop_last());
    }
}

/// `split_whitespace` on a text held as characters.
fn split_words(s: &Vec<char>) -> (r: Vec<Vec<char>>)
    ensures
        views(r@) == words(s@),
{
    let mut r: Vec<Vec<char>> = Vec::new();
    let mut current: Vec<char> = Vec::new();
    let mut in_word = false;
    for i in 0..s.len()
        invariant
            in_word == (i > 0 && !is_white_space(s@[i - 1])),
            in_word ==> words(s@.take(i as int)) == views(r@).push(current@),
            !in_word ==> words(s@.take(i as int)) == views(r@),
    {
        let c = s[i];
        proof {
            assert(s@.take(i + 1).drop_last() =~= s@.take(i as int));
            assert(s@.take(i + 1).last() == c);
            if i > 0 {
                assert(s@.take(i + 1)[i - 1] == s@[i - 1]);
            }
        }
        if is_whitespace(c) {
            if in_word {
                let ghost before = views(r@);
                let ghost cur = current@;
                r.push(current);
                current = Vec::new();
                assert(views(r@) =~= before.push(cur));
            }
            in_word = false;
        } else {
            if in_word {
                let ghost before = views(r@);
                current.push(c);
                assert(words(s@.take(i + 1)) =~= before.push(current@));
            } else {
                current = Vec::new();
                current.push(c);
                assert(current@ =~= seq![c]);
            }
            in_word = true;
        }
    }
    if in_word {
        let ghost before = views(r@);
        let ghost cur = current@;
        r.push(current);
        assert(views(r@) =~= before.push(cur));
    }
    assert(s@.take(s.len() as int) =~= s@);
    r
}

/// The word `at` that precedes the MAC address in `arp -n` output.
pub open spec fn at_word() -> Seq<char> {
    seq!['a', 't']
}

/// The position of the first `at` among some words.
pub open spec fn first_at(ws: Seq<Seq<char>>) -> Option<int>
    decreases ws.len(),
{
    if ws.len() == 0 {
        None
    } else if ws[0] == at_word() {
        Some(0)
    } else {
        match first_at(ws.drop_first()) {
            Some(k) => Some(k + 1),
            None => None,
        }
    }
}

/// What one line of `arp` output decides: nothing when it holds no `at`; else the
/// MAC address read from the word after the first `at` (none when there is no such word).
pub open spec fn arp_line_answer(ws: Seq<Seq<char>>) -> Option<Option<Seq<char>>> {
    match first_at(ws) {
        None => None,
        Some(k) => Some(
            if k + 1 < ws.len() {
                normalize_mac_spec(ws[k + 1])
            } else {
                None
            },
        ),
    }
}

/// The MAC address in `arp -n` output: the first line holding the word `at` decides.
pub open spec fn arp_output_mac_spec(lines: Seq<Seq<char>>) -> Option<Seq<char>>
    decreases lines.len(),
{
    if lines.len() == 0 {
        None
    } else {
        match arp_line_answer(words(lines[0])) {
            Some(answer) => answer,
            None => arp_output_mac_spec(lines.drop_first()),
        }
    }
}

proof fn lemma_first_at_in_range(ws: Seq<Seq<char>>)
    ensures
        first_at(ws) matches Some(k) ==> 0 <= k < ws.len(),
    decreases ws.len(),
{
    if ws.len() > 0 && ws[0] != at_word() {
        lemma_first_at_in_range(ws.drop_first());
    }
}

/// What `arp` output yields is always a canonical MAC address `XX:XX:XX:XX:XX:XX`, read
/// from one of the words of the output.
pub proof fn arp_answers_are_canonical_macs(lines: Seq<Seq<char>>)
    ensures
        arp_output_mac_spec(lines) matches Some(m) ==> {
            &&& m.len() == 17
            &&& forall|i: int| 0 <= i < 17 ==> (if i % 3 == 2 {
                #[trigger] m[i] == ':'
            } else {
                crate::mac::is_upper_hex(m[i])
            })
            &&& exists|l: int, k: int|
                0 <= l < lines.len() && 0 <= k < words(lines[l]).len() && normalize_mac_spec(
                    #[trigger] words(lines[l])[k],
                ) == Some(m)
        },
    decreases lines.len(),
{
    if lines.len() > 0 {
        match arp_line_answer(words(lines[0])) {
            Some(answer) => {
                if let Some(m) = answer {
                    let ws = words(lines[0]);
                    lemma_first_at_in_range(ws);
                    let k = first_at(ws)->0 + 1;
                    assert(k < ws.len());
                    crate::mac::normalized_macs_are_canonical(ws[k]);
                    assert(0 <= 0 < lines.len() && 0 <= k < words(lines[0]).len() && normalize_mac_spec(
                        words(lines[0])[k],
                    ) == Some(m));
                }
            },
            None => {
                arp_answers_are_canonical_macs(lines.drop_first());
                if let Some(m) = arp_output_mac_spec(lines) {
                    let (l, k) = choose|l: int, k: int|
                        0 <= l < lines.drop_first().len() && 0 <= k < words(lines.drop_first()[l]).len()
                            && normalize_mac_spec(#[trigger] words(lines.drop_first()[l])[k]) == Some(m);
                    assert(lines.drop_first()[l] == lines[l + 1]);
                }
            },
        }
    }
}

fn is_at(w: &Vec<char>) -> (r: bool)
    ensures
        r == (w@ == at_word()),
{
    if w.len() == 2 && w[0] == 'a' && w[1] == 't' {
        assert(w@ =~= at_word());
        true
    } else {
        false
    }
}

fn arp_line(line: &Vec<char>) -> (r: Option<Option<String>>)
    ensures
        match r {
            None => arp_line_answer(words(line@)) is None,
            Some(None) => arp_line_answer(words(line@)) == Some(None::<Seq<char>>),
            Some(Some(m)) => arp_line_answer(words(line@)) == Some(Some(m@)),
        },
{
    let ws = split_words(line);
    let ghost wv = views(ws@);
    let mut k: usize = 0;
    assert(wv.skip(0) =~= wv);
    while k < ws.len()
        invariant
            k <= ws.len(),
            wv == views(ws@),
            wv == words(line@),
            first_at(wv) == (match first_at(wv.skip(k as int)) {
                Some(j) => Some(j + k),
                None => None,
            }),
        decreases ws.len() - k,
    {
        assert(wv.skip(k as int)[0] == ws@[k as int]@);
        if is_at(&ws[k]) {
            if k + 1 < ws.len() {
                assert(wv[k + 1] == ws@[k + 1]@);
                let candidate = string_from_chars(&ws[k + 1]);
                return Some(normalize_mac(candidate.as_str()));
            }
            return Some(None);
        }
        assert(wv.skip(k as int).drop_first() =~= wv.skip(k + 1));
        k = k + 1;
    }
    assert(wv.skip(k as int) =~= Seq::<Seq<char>>::empty());
    None
}

/// The MAC address that `arp -n <address>` printed, read from its output: in the first
/// line that holds the word `at`, the word after it (see `normalize_mac`).
pub fn arp_output_mac(stdout: &str) -> (r: Option<String>)
    ensures
        match r {
            Some(m) => arp_output_mac_spec(split_on(stdout@, '\n')) == Some(m@),
            None => arp_output_mac_spec(split_on(stdout@, '\n')) == None::<Seq<char>>,
        },
{
    let lines = split_chars(&chars_of(stdout), '\n');
    let ghost lv = views(lines@);
    assert(lv.skip(0) =~= lv);
    for i in 0..lines.len()
        invariant
            lv == views(lines@),
            lv == split_on(stdout@, '\n'),
            arp_output_mac_spec(lv) == arp_output_mac_spec(lv.skip(i as int)),
    {
        assert(lv.skip(i as int)[0] == lines@[i as int]@);
        assert(lv.skip(i as int).drop_first() =~= lv.skip(i + 1));
        match arp_line(&lines[i]) {
            Some(answer) => {
                return answer;
            },
            None => {},
        }
    }
    assert(lv.skip(lines.len() as int) =~= Seq::<Seq<char>>::empty());
    None
}

/// Whether `w` occurs in `s` at position `i`.
pub open spec fn occurs_at(s: Seq<char>, w: Seq<char>, i: int) -> bool {
    0 <= i && i + w.len() <= s.len() && s.subrange(i, i + w.len()) == w
}

/// `s.contains(w)` for a text `w`.
pub open spec fn has_text(s: Seq<char>, w: Seq<char>) -> bool {
    exists|i: int| occurs_at(s, w, i)
}

/// The position of the first occurrence of `w` in `s`.
pub open spec fn first_occurrence(s: Seq<char>, w: Seq<char>) -> Option<int> {
    if has_text(s, w) {
        Some(choose|i: int| occurs_at(s, w, i) && forall|j: int| 0 <= j < i ==> !occurs_at(s, w, j))
    } else {
        None
    }
}

fn occurs_at_exec(s: &Vec<char>, w: &Vec<char>, i: usize) -> (r: bool)
    ensures
        r == occurs_at(s@, w@, i as int),
{
    if i > s.len() || w.len() > s.len() - i {
        return false;
    }
    for k in 0..w.len()
        invariant
            i + w.len() <= s.len(),
            forall|q: int| 0 <= q < k ==> s@[i + q] == w@[q],
    {
        if s[i + k] != w[k] {
            assert(s@.subrange(i as int, i + w.len())[k as int] != w@[k as int]);
            return false;
        }
    }
    assert(s@.subrange(i as int, i + w.len()) =~= w@);
    true
}

/// The position of the first occurrence of `w` in `s`, as `str::find` gives it (in characters).
fn find_text(s: &Vec<char>, w: &Vec<char>) -> (r: Option<usize>)
    ensures
        match r {
            Some(i) => first_occurrence(s@, w@) == Some(i as int) && occurs_at(s@, w@, i as int),
            None => first_occurrence(s@, w@) == None::<int> && !has_text(s@, w@),
        },
{
    if w.len() == 0 {
        assert(occurs_at(s@, w@, 0)) by {
            assert(s@.subrange(0, 0) =~= w@);
        }
        proof {
            let c = choose|c: int| occurs_at(s@, w@, c) && forall|j: int| 0 <= j < c ==> !occurs_at(s@, w@, j);
            assert(forall|j: int| 0 <= j < 0 ==> !occurs_at(s@, w@, j));
        }
        return Some(0);
    }
    let mut i: usize = 0;
    while i < s.len()
        invariant
            i <= s.len(),
            w.len() > 0,
            forall|j: int| 0 <= j < i ==> !occurs_at(s@, w@, j),
        decreases s.len() - i,
    {
        if occurs_at_exec(s, w, i) {
            proof {
                let c = choose|c: int| occurs_at(s@, w@, c) && forall|j: int| 0 <= j < c ==> !occurs_at(s@, w@, j);
                assert(occurs_at(s@, w@, i as int) && forall|j: int| 0 <= j < i ==> !occurs_at(s@, w@, j));
                if c < i {
                } else if c > i {
                }
            }
            return Some(i);
        }
        i = i + 1;
    }
    assert(!has_text(s@, w@)) by {
        if has_text(s@, w@) {
            let c = choose|c: int| occurs_at(s@, w@, c);
        }
    }
    None
}

fn has_text_exec(s: &Vec<char>, w: &str) -> (r: bool)
    ensures
        r == has_text(s@, w@),
{
    find_text(s, &chars_of(w)).is_some()
}

/// The marker of a unique name in `nbtstat -A` output.
pub open spec fn unique_marker() -> Seq<char> {
    seq!['<', '0', '0', '>']
}

/// The computer name a line of `nbtstat -A` output offers, if any: a line with a `<00>`
/// entry that is no `GROUP` and no `MSBROWSE` one, and whose name before the marker,
/// trimmed, is not empty and is no `NetBIOS` heading.
pub open spec fn nbtstat_line_name(line: Seq<char>) -> Option<Seq<char>> {
    let t = trim(line);
    if t.len() == 0 || !has_text(t, unique_marker()) || has_text(t, "GROUP"@) || has_text(
        t,
        "MSBROWSE"@,
    ) {
        None
    } else {
        let candidate = trim(t.take(first_occurrence(t, unique_marker())->0));
        if candidate.len() > 0 && !has_text(candidate, "NetBIOS"@) {
            Some(candidate)
        } else {
            None
        }
    }
}

/// Only unique `<00>` entries name the computer: a line without `<00>`, or one marked
/// `GROUP` or `MSBROWSE`, offers no name, and a name offered is never empty, never
/// surrounded by white space and never a `NetBIOS` heading.
pub proof fn only_unique_entries_name_the_computer(line: Seq<char>)
    ensures
        !has_text(trim(line), seq!['<', '0', '0', '>']) || has_text(trim(line), "GROUP"@)
            || has_text(trim(line), "MSBROWSE"@) ==> nbtstat_line_name(line) is None,
        nbtstat_line_name(line) matches Some(n) ==> n.len() > 0 && !is_white_space(n[0])
            && !is_white_space(n.last()) && !has_text(n, "NetBIOS"@),
{
    let t = trim(line);
    if let Some(n) = nbtstat_line_name(line) {
        let p = t.take(first_occurrence(t, unique_marker())->0);
        crate::text::lemma_trim_start_shape(p);
        crate::text::lemma_trim_end_shape(trim_start(p));
        crate::text::lemma_trim_end_keeps_start(trim_start(p));
    }
}

/// The computer name in `nbtstat -A` output: the first line that offers one.
pub open spec fn nbtstat_name_spec(lines: Seq<Seq<char>>) -> Option<Seq<char>>
    decreases lines.len(),
{
    if lines.len() == 0 {
        None
    } else {
        match nbtstat_line_name(lines[0]) {
            Some(n) => Some(n),
            None => nbtstat_name_spec(lines.drop_first()),
        }
    }
}

#[verifier::rlimit(40)]
fn nbtstat_line(line: &Vec<char>) -> (r: Option<Vec<char>>)
    ensures
        match r {
            Some(n) => nbtstat_line_name(line@) == Some(n@),
            None => nbtstat_line_name(line@) == None::<Seq<char>>,
        },
{
    let t = trim_chars(line);
    let marker = chars_of("<00>");
    proof {
        reveal_strlit("<00>");
        assert(marker@ =~= unique_marker());
    }
    if t.len() == 0 || !has_text_exec(&t, "<00>") || has_text_exec(&t, "GROUP") || has_text_exec(
        &t,
        "MSBROWSE",
    ) {
        return None;
    }
    let at = match find_text(&t, &marker) {
        Some(i) => i,
        None => {
            return None;
        },
    };
    let candidate = trim_chars(&slice_chars(&t, 0, at));
    assert(t@.take(at as int) =~= t@.subrange(0, at as int));
    if candidate.len() > 0 && !has_text_exec(&candidate, "NetBIOS") {
        Some(candidate)
    } else {
        None
    }
}

/// The computer name that `nbtstat -A <address>` printed, read from its output.
pub fn nbtstat_output_name(stdout: &str) -> (r: Option<String>)
    ensures
        match r {
            Some(n) => nbtstat_name_spec(split_on(stdout@, '\n')) == Some(n@),
            None => nbtstat_name_spec(split_on(stdout@, '\n')) == None::<Seq<char>>,
        },
{
    let lines = split_chars(&chars_of(stdout), '\n');
    let ghost lv = views(lines@);
    assert(lv.skip(0) =~= lv);
    for i in 0..lines.len()
        invariant
            lv == views(lines@),
            lv == split_on(stdout@, '\n'),
            nbtstat_name_spec(lv) == nbtstat_name_spec(lv.skip(i as int)),
    {
        assert(lv.skip(i as int)[0] == lines@[i as int]@);
        assert(lv.skip(i as int).drop_first() =~= lv.skip(i + 1));
        match nbtstat_line(&lines[i]) {
            Some(name) => {
                return Some(string_from_chars(&name));
            },
            None => {},
        }
    }
    assert(lv.skip(lines.len() as int) =~= Seq::<Seq<char>>::empty());
    None
}

/// The text without its trailing dots.
pub open spec fn trim_end_dots(s: Seq<char>) -> Seq<char>
    decreases s.len(),
{
    if s.len() > 0 && s.last() == '.' {
        trim_end_dots(s.drop_last())
    } else {
        s
    }
}

/// The host name a DNS answer gives for `ip`: the answer without trailing dots, trimmed;
/// none when that is empty or just the address itself.
pub open spec fn dns_hostname_spec(name: Seq<char>, ip: Ipv4) -> Option<Seq<char>> {
    let n = trim(trim_end_dots(name));
    if n.len() > 0 && n != ipv4_text(ip) {
        Some(n)
    } else {
        None
    }
}

/// A DNS answer that is already a clean name (no white space or dot at its ends) and is
/// not just the address is shown as it is; trailing dots of a fully qualified answer are
/// dropped; and a name is never shown that is empty or the address itself.
pub proof fn dns_names_are_shown_clean(name: Seq<char>, ip: Ipv4)
    ensures
        name.len() > 0 && !is_white_space(name[0]) && !is_white_space(name.last()) && name.last()
            != '.' && name != ipv4_text(ip) ==> dns_hostname_spec(name, ip) == Some(name),
        name.len() > 0 && name.last() == '.' ==> dns_hostname_spec(name, ip) == dns_hostname_spec(
            name.drop_last(),
            ip,
        ),
        dns_hostname_spec(name, ip) matches Some(n) ==> n.len() > 0 && n != ipv4_text(ip)
            && !is_white_space(n[0]) && !is_white_space(n.last()),
{
    if name.len() > 0 && !is_white_space(name[0]) && !is_white_space(name.last()) && name.last() != '.' {
        assert(trim_end_dots(name) == name);
        crate::text::lemma_trim_of_tight(name);
    }
    let n = trim(trim_end_dots(name));
    if n.len() > 0 {
        crate::text::lemma_trim_idempotent(trim_end_dots(name));
        crate::text::lemma_trim_start_shape(trim_end_dots(name));
        crate::text::lemma_trim_end_shape(trim_start(trim_end_dots(name)));
    }
}

/// The host name to show for a DNS answer `name` about `ip`.
#[verifier::rlimit(40)]
pub fn dns_hostname(name: &str, ip: Ipv4) -> (r: Option<String>)
    ensures
        match r {
            Some(n) => dns_hostname_spec(name@, ip) == Some(n@),
            None => dns_hostname_spec(name@, ip) == None::<Seq<char>>,
        },
{
    let chars = chars_of(name);
    let mut end = chars.len();
    assert(chars@.subrange(0, end as int) =~= chars@);
    while end > 0 && chars[end - 1] == '.'
        invariant
            end <= chars.len(),
            trim_end_dots(chars@) == trim_end_dots(chars@.subrange(0, end as int)),
        decreases end,
    {
        assert(chars@.subrange(0, end as int).drop_last() =~= chars@.subrange(0, end - 1));
        end = end - 1;
    }
    let stripped = slice_chars(&chars, 0, end);
    let normalized = trim_chars(&stripped);
    let address = chars_of(format_ipv4(ip).as_str());
    if normalized.len() == 0 || same_chars(&normalized, &address) {
        None
    } else {
        Some(string_from_chars(&normalized))
    }
}

fn same_chars(a: &Vec<char>, b: &Vec<char>) -> (r: bool)
    ensures
        r == (a@ == b@),
{
    if a.len() != b.len() {
        return false;
    }
    for i in 0..a.len()
        invariant
            a.len() == b.len(),
            forall|k: int| 0 <= k < i ==> a@[k] == b@[k],
    {
        if a[i] != b[i] {
            return false;
        }
    }
    assert(a@ =~= b@);
    true
}

/// The MAC address of a hardware address reported by `SendARP`: the first six bytes, in
/// canonical form; none when fewer than six bytes came back.
pub fn mac_from_hardware_address(bytes: &[u8]) -> (r: Option<String>)
    ensures
        match r {
            Some(m) => bytes@.len() >= 6 && m@ == mac_text(bytes@.take(6)),
            None => bytes@.len() < 6,
        },
{
    if bytes.len() < 6 {
        return None;
    }
    let mut out: Vec<char> = Vec::new();
    push_hex2(&mut out, bytes[0]);
    out.push(':');
    push_hex2(&mut out, bytes[1]);
    out.push(':');
    push_hex2(&mut out, bytes[2]);
    out.push(':');
    push_hex2(&mut out, bytes[3]);
    out.push(':');
    push_hex2(&mut out, bytes[4]);
    out.push(':');
    push_hex2(&mut out, bytes[5]);
    assert(out@ =~= mac_text(bytes@.take(6)));
    Some(string_from_chars(&out))
}

/// The record of a probed host: in use when it has a MAC address or answered a ping,
/// with the vendor of its MAC address when the table knows it.
pub open spec fn probe_record_spec(ip: Ipv4, mac: Option<String>, ping_ok: bool, vendor: Option<String>) -> ScanRecord {
    ScanRecord {
        ip: ip,
        status: if mac is Some || ping_ok {
            DeviceStatus::InUse
        } else {
            DeviceStatus::Available
        },
        mac: mac,
        vendor: vendor,
        hostname: None,
    }
}

/// A probed host's record keeps what the probes found: its address, the MAC address
/// that ARP reported (none when ARP found none), in use exactly when a MAC address was
/// found or a ping was answered, no host name yet, and the vendor it was given.
pub proof fn probe_record_keeps_the_answers(
    ip: Ipv4,
    mac: Option<String>,
    ping_ok: bool,
    vendor: Option<String>,
)
    ensures
        probe_record_spec(ip, mac, ping_ok, vendor).ip == ip,
        probe_record_spec(ip, mac, ping_ok, vendor).mac == mac,
        probe_record_spec(ip, mac, ping_ok, vendor).vendor == vendor,
        probe_record_spec(ip, mac, ping_ok, vendor).hostname is None,
        probe_record_spec(ip, mac, ping_ok, vendor).status == DeviceStatus::InUse <==> (mac is Some
            || ping_ok),
        probe_record_spec(ip, mac, ping_ok, vendor).status != DeviceStatus::Pending,
{
}

/// Whether `vendor` is what the vendor table gives for `mac`: none without a MAC address,
/// else the entry of its first eight characters, if the table has one.
pub open spec fn vendor_matches(
    table: Map<Seq<char>, Seq<char>>,
    mac: Option<String>,
    vendor: Option<String>,
) -> bool {
    match mac {
        None => vendor is None,
        Some(m) => match vendor {
            Some(v) => table.contains_key(prefix8(m@)) && v@ == table[prefix8(m@)],
            None => !table.contains_key(prefix8(m@)),
        },
    }
}

/// A reported vendor is the table's entry for the first eight characters of the MAC
/// address (all of it when shorter): present exactly when the table has that key, and
/// absent for a host without a MAC address.
pub proof fn vendors_come_from_the_table(
    table: Map<Seq<char>, Seq<char>>,
    mac: Option<String>,
    vendor: Option<String>,
)
    requires
        vendor_matches(table, mac, vendor),
    ensures
        mac is None ==> vendor is None,
        mac matches Some(m) ==> {
            let key = if m@.len() < 8 {
                m@
            } else {
                m@.take(8)
            };
            &&& (vendor is Some <==> table.contains_key(key))
            &&& (vendor matches Some(v) ==> v@ == table[key])
        },
{
    if let Some(m) = mac {
        if m@.len() == 8 {
            assert(m@.take(8) =~= m@);
        }
    }
}

/// The record of a probed host, from the MAC address found for it (if any) and whether
/// it answered a ping.
pub fn probe_record(ip: Ipv4, mac: Option<String>, ping_ok: bool, vendor_db: &VendorDb) -> (r: ScanRecord)
    ensures
        r == probe_record_spec(ip, mac, ping_ok, r.vendor),
        vendor_matches(vendor_db@, mac, r.vendor),
        r.ip == ip,
        r.mac == mac,
        r.hostname is None,
        r.status == (if mac is Some || ping_ok {
            DeviceStatus::InUse
        } else {
            DeviceStatus::Available
        }),
{
    let vendor = match &mac {
        Some(m) => vendor_from_mac(m.as_str(), vendor_db),
        None => None,
    };
    let status = if mac.is_some() || ping_ok {
        DeviceStatus::InUse
    } else {
        DeviceStatus::Available
    };
    ScanRecord { ip, status, mac, vendor, hostname: None }
}

/// The steps of probing one host: an ARP query first; without an answer a ping; after a
/// ping reply a second ARP query; then the record is reported.
pub enum ProbeAction {
    FirstArp,
    Ping,
    SecondArp,
    Report(ScanRecord),
}

/// What a probe step brought back: the MAC address an ARP query found, or whether a
/// ping was answered.
pub enum ProbeAnswer {
    Mac(Option<String>),
    Reply(bool),
}

/// Whether `answer` is the kind of answer the step `done` gives.
pub open spec fn answers(done: ProbeAction, answer: ProbeAnswer) -> bool {
    match done {
        ProbeAction::FirstArp | ProbeAction::SecondArp => answer is Mac,
        ProbeAction::Ping => answer is Reply,
        ProbeAction::Report(_) => false,
    }
}

/// The step after `done` brought back `answer`, while probing `ip`.
pub fn probe_step(ip: Ipv4, done: ProbeAction, answer: ProbeAnswer, vendor_db: &VendorDb) -> (next: ProbeAction)
    requires
        answers(done, answer),
    ensures
        match (done, answer) {
            (ProbeAction::FirstArp, ProbeAnswer::Mac(None)) => next is Ping,
            (ProbeAction::FirstArp, ProbeAnswer::Mac(Some(m))) => next matches ProbeAction::Report(r)
                && r == probe_record_spec(ip, Some(m), true, r.vendor)
                && vendor_matches(vendor_db@, Some(m), r.vendor) && r.mac == Some(m) && r.ip == ip
                && r.status == DeviceStatus::InUse,
            (ProbeAction::Ping, ProbeAnswer::Reply(true)) => next is SecondArp,
            (ProbeAction::Ping, ProbeAnswer::Reply(false)) => next matches ProbeAction::Report(r)
                && r == probe_record_spec(ip, None, false, r.vendor) && r.vendor is None
                && r.mac is None && r.ip == ip && r.status == DeviceStatus::Available,
            (ProbeAction::SecondArp, ProbeAnswer::Mac(m)) => next matches ProbeAction::Report(r)
                && r == probe_record_spec(ip, m, true, r.vendor) && vendor_matches(vendor_db@, m, r.vendor)
                && r.mac == m && r.ip == ip && r.status == DeviceStatus::InUse,
            _ => false,
        },
{
    match done {
        ProbeAction::FirstArp => match answer {
            ProbeAnswer::Mac(None) => ProbeAction::Ping,
            ProbeAnswer::Mac(Some(m)) => ProbeAction::Report(probe_record(ip, Some(m), true, vendor_db)),
            ProbeAnswer::Reply(_) => ProbeAction::Ping,
        },
        ProbeAction::Ping => match answer {
            ProbeAnswer::Reply(true) => ProbeAction::SecondArp,
            ProbeAnswer::Reply(false) => ProbeAction::Report(probe_record(ip, None, false, vendor_db)),
            ProbeAnswer::Mac(_) => ProbeAction::Ping,
        },
        ProbeAction::SecondArp => match answer {
            ProbeAnswer::Mac(m) => ProbeAction::Report(probe_record(ip, m, true, vendor_db)),
            ProbeAnswer::Reply(_) => ProbeAction::Ping,
        },
        ProbeAction::Report(r) => ProbeAction::Report(r),
    }
}

} // verus!
