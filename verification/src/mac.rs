//! MAC addresses as the ARP tools print them, and the vendor (OUI) table that
//! names the maker of a device from the first three bytes of its MAC address.
use vstd::prelude::*;
use vstd::hash_map::StringHashMap;
use vstd::utf8::{encode_scalar, encode_utf8};
use crate::text::{
    all_hex_digits, ascii_lower, ascii_upper, chars_of, hex2, hex_digit_of, hex_digit_value, hex_value,
    is_ascii_hex_digit, is_hex_digit, lemma_split_on_concat, lemma_split_on_single, lower_chars,
    lower_text, push_hex2, replace_char, replace_chars, slice_chars, split_chars, split_on,
    string_from_chars, trim, trim_str, upper_chars, upper_text, upper_hex_digit, views,
};

verus! {

pub open spec fn is_bracket(c: char) -> bool {
    c == '(' || c == ')' || c == '[' || c == ']'
}

/// The text without leading brackets.
pub open spec fn trim_brackets_start(s: Seq<char>) -> Seq<char>
    decreases s.len(),
{
    if s.len() > 0 && is_bracket(s[0]) {
        trim_brackets_start(s.drop_first())
    } else {
        s
    }
}

/// The text without trailing brackets.
pub open spec fn trim_brackets_end(s: Seq<char>) -> Seq<char>
    decreases s.len(),
{
    if s.len() > 0 && is_bracket(s.last()) {
        trim_brackets_end(s.drop_last())
    } else {
        s
    }
}

/// `trim_matches` with `(`, `)`, `[` and `]`.
pub open spec fn trim_brackets(s: Seq<char>) -> Seq<char> {
    trim_brackets_end(trim_brackets_start(s))
}

/// `eq_ignore_ascii_case`: equal once ASCII letters are folded to one case.
pub open spec fn eq_ignore_ascii_case(a: Seq<char>, b: Seq<char>) -> bool {
    a.len() == b.len() && forall|i: int| 0 <= i < a.len() ==> ascii_lower(a[i]) == ascii_lower(b[i])
}

/// The word ARP prints for an entry without a MAC address.
pub open spec fn incomplete_word() -> Seq<char> {
    seq!['i', 'n', 'c', 'o', 'm', 'p', 'l', 'e', 't', 'e']
}

/// One group of a MAC address as ARP prints it: one or two hexadecimal digits.
pub open spec fn is_mac_group(p: Seq<char>) -> bool {
    1 <= p.len() <= 2 && all_hex_digits(p)
}

/// The canonical text of six bytes: `XX:XX:XX:XX:XX:XX`, upper-case hexadecimal.
pub open spec fn mac_text(b: Seq<u8>) -> Seq<char> {
    hex2(b[0]) + seq![':'] + hex2(b[1]) + seq![':'] + hex2(b[2]) + seq![':'] + hex2(b[3]) + seq![
        ':',
    ] + hex2(b[4]) + seq![':'] + hex2(b[5])
}

/// What `normalize_mac` makes of a word from ARP's output.
pub open spec fn normalize_mac_spec(s: Seq<char>) -> Option<Seq<char>> {
    let cleaned = replace_char(trim_brackets(s), '-', ':');
    if eq_ignore_ascii_case(cleaned, seq!['('] + incomplete_word() + seq![')'])
        || eq_ignore_ascii_case(cleaned, incomplete_word()) {
        None
    } else {
        let parts = split_on(cleaned, ':');
        if parts.len() == 6 && (forall|i: int| 0 <= i < 6 ==> is_mac_group(#[trigger] parts[i])) {
            Some(mac_text(Seq::new(6, |i: int| hex_value(parts[i]) as u8)))
        } else {
            None
        }
    }
}

fn trim_bracket_chars(s: &Vec<char>) -> (r: Vec<char>)
    ensures
        r@ == trim_brackets(s@),
{
    let n = s.len();
    let mut i: usize = 0;
    assert(s@.subrange(0, n as int) =~= s@);
    while i < n && (s[i] == '(' || s[i] == ')' || s[i] == '[' || s[i] == ']')
        invariant
            i <= n == s.len(),
            trim_brackets_start(s@) == trim_brackets_start(s@.subrange(i as int, n as int)),
        decreases n - i,
    {
        assert(s@.subrange(i as int, n as int).drop_first() =~= s@.subrange(i + 1, n as int));
        i = i + 1;
    }
    let ghost t = s@.subrange(i as int, n as int);
    assert(trim_brackets_start(t) == t);
    let mut j: usize = n;
    assert(t.subrange(0, (j - i) as int) =~= t);
    while j > i && (s[j - 1] == '(' || s[j - 1] == ')' || s[j - 1] == '[' || s[j - 1] == ']')
        invariant
            i <= j <= n == s.len(),
            t == s@.subrange(i as int, n as int),
            trim_brackets_end(t) == trim_brackets_end(t.subrange(0, (j - i) as int)),
        decreases j,
    {
        assert(t.subrange(0, (j - i) as int).drop_last() =~= t.subrange(0, (j - i - 1) as int));
        j = j - 1;
    }
    let ghost u = t.subrange(0, (j - i) as int);
    assert(trim_brackets_end(u) == u);
    assert(u =~= s@.subrange(i as int, j as int));
    slice_chars(s, i, j)
}

fn eq_ignore_case_chars(a: &Vec<char>, b: &Vec<char>) -> (r: bool)
    ensures
        r == eq_ignore_ascii_case(a@, b@),
{
    if a.len() != b.len() {
        return false;
    }
    let la = lower_chars(a);
    let lb = lower_chars(b);
    for i in 0..la.len()
        invariant
            la@ == lower_text(a@),
            lb@ == lower_text(b@),
            a.len() == b.len(),
            forall|k: int| 0 <= k < i ==> ascii_lower(a@[k]) == ascii_lower(b@[k]),
    {
        if la[i] != lb[i] {
            return false;
        }
    }
    true
}

/// The value of one or two hexadecimal digits.
fn mac_group_value(p: &Vec<char>) -> (r: u8)
    requires
        is_mac_group(p@),
    ensures
        r as nat == hex_value(p@),
{
    let hi = hex_digit_of(p[0]);
    assert(p@[0] == p@.take(1).last());
    assert(p@.take(1).drop_last() =~= Seq::<char>::empty());
    assert(hex_value(Seq::<char>::empty()) == 0);
    assert(hex_value(p@.take(1)) == hex_digit_value(p@[0]));
    if p.len() == 1 {
        assert(p@.take(1) =~= p@);
        hi
    } else {
        let lo = hex_digit_of(p[1]);
        assert(p@.drop_last() =~= p@.take(1));
        hi * 16 + lo
    }
}

/// Reads a MAC address from a word of ARP's output: brackets around it are dropped,
/// `-` separators count as `:`, and six groups of one or two hexadecimal digits give
/// `XX:XX:XX:XX:XX:XX` in upper case. `incomplete` entries and anything else give `None`.
pub fn normalize_mac(candidate: &str) -> (r: Option<String>)
    ensures
        match r {
            Some(s) => normalize_mac_spec(candidate@) == Some(s@),
            None => normalize_mac_spec(candidate@) == None::<Seq<char>>,
        },
{
    let raw = chars_of(candidate);
    let cleaned = replace_chars(&trim_bracket_chars(&raw), '-', ':');
    let word = chars_of("incomplete");
    let bracketed = chars_of("(incomplete)");
    proof {
        reveal_strlit("incomplete");
        reveal_strlit("(incomplete)");
        assert(word@ =~= incomplete_word());
        assert(bracketed@ =~= seq!['('] + incomplete_word() + seq![')']);
    }
    if eq_ignore_case_chars(&cleaned, &bracketed) || eq_ignore_case_chars(&cleaned, &word) {
        return None;
    }
    let parts = split_chars(&cleaned, ':');
    if parts.len() != 6 {
        return None;
    }
    let ghost pv = views(parts@);
    assert(pv.len() == 6);
    let mut bytes: Vec<u8> = Vec::new();
    for i in 0..6
        invariant
            parts.len() == 6,
            pv == views(parts@),
            pv.len() == 6,
            pv == split_on(cleaned@, ':'),
            cleaned@ == replace_char(trim_brackets(candidate@), '-', ':'),
            !eq_ignore_ascii_case(cleaned@, seq!['('] + incomplete_word() + seq![')']),
            !eq_ignore_ascii_case(cleaned@, incomplete_word()),
            bytes.len() == i,
            forall|k: int| 0 <= k < i ==> is_mac_group(#[trigger] pv[k]),
            forall|k: int| 0 <= k < i ==> bytes@[k] as nat == hex_value(#[trigger] pv[k]),
    {
        let part = &parts[i];
        assert(pv[i as int] == part@);
        if part.len() == 0 || part.len() > 2 || !all_hex(part) {
            return None;
        }
        assert(is_mac_group(part@));
        bytes.push(mac_group_value(part));
    }
    let ghost b = Seq::new(6, |k: int| hex_value(pv[k]) as u8);
    assert(bytes@ =~= b);
    let mut out: Vec<char> = Vec::new();
    push_hex2(&mut out, bytes[0]);
    out.push(':');
    push_hex2(&mut out, bytes[1]);
    out.push(':');
    push_hex2(&mut out, bytes[2]);
    out.push(':');
    push_hex2(&mut out, bytes[3]);
    out.push(':');
    push_hex2(&mut out, bytes[4]);
    out.push(':');
    push_hex2(&mut out, bytes[5]);
    assert(out@ =~= mac_text(b));
    Some(string_from_chars(&out))
}

proof fn lemma_hex2_facts(b: u8)
    ensures
        is_mac_group(hex2(b)),
        hex_value(hex2(b)) == b as nat,
        !hex2(b).contains(':'),
        !hex2(b).contains('-'),
        !is_bracket(hex2(b)[0]),
        !is_bracket(hex2(b)[1]),
{
    let h = hex2(b);
    let d1 = b as nat / 16;
    let d2 = b as nat % 16;
    assert(is_ascii_hex_digit(h[0]) && is_ascii_hex_digit(h[1]));
    assert(hex_digit_value(upper_hex_digit(d1)) == d1);
    assert(hex_digit_value(upper_hex_digit(d2)) == d2);
    assert(h.drop_last() =~= seq![h[0]]);
    assert(seq![h[0]].drop_last() =~= Seq::<char>::empty());
    assert(hex_value(Seq::<char>::empty()) == 0);
    assert(hex_value(seq![h[0]]) == d1);
    assert(!h.contains(':')) by {
        if h.contains(':') {
            let k = choose|k: int| 0 <= k < h.len() && h[k] == ':';
        }
    }
    assert(!h.contains('-')) by {
        if h.contains('-') {
            let k = choose|k: int| 0 <= k < h.len() && h[k] == '-';
        }
    }
}

/// A MAC address in canonical form reads back unchanged.
pub proof fn normalize_mac_fixes_canonical_text(b: Seq<u8>)
    requires
        b.len() == 6,
    ensures
        normalize_mac_spec(mac_text(b)) == Some(mac_text(b)),
{
    let t = mac_text(b);
    lemma_hex2_facts(b[0]);
    lemma_hex2_facts(b[1]);
    lemma_hex2_facts(b[2]);
    lemma_hex2_facts(b[3]);
    lemma_hex2_facts(b[4]);
    lemma_hex2_facts(b[5]);
    assert(t[0] == hex2(b[0])[0]);
    assert(t.last() == hex2(b[5])[1]);
    assert(trim_brackets_start(t) == t);
    assert(trim_brackets_end(t) == t);
    assert forall|i: int| 0 <= i < t.len() implies t[i] != '-' by {
        if t[i] == '-' {
            assert(i % 3 != 2);
            assert(t[i] == hex2(b[i / 3])[i % 3]);
            assert(hex2(b[i / 3]).contains('-'));
        }
    }
    assert(replace_char(t, '-', ':') =~= t);
    assert(t.len() == 17);
    let x0 = hex2(b[0]);
    let x1 = x0 + seq![':'] + hex2(b[1]);
    let x2 = x1 + seq![':'] + hex2(b[2]);
    let x3 = x2 + seq![':'] + hex2(b[3]);
    let x4 = x3 + seq![':'] + hex2(b[4]);
    lemma_split_on_single(hex2(b[0]), ':');
    lemma_split_on_single(hex2(b[1]), ':');
    lemma_split_on_single(hex2(b[2]), ':');
    lemma_split_on_single(hex2(b[3]), ':');
    lemma_split_on_single(hex2(b[4]), ':');
    lemma_split_on_single(hex2(b[5]), ':');
    lemma_split_on_concat(x0, hex2(b[1]), ':');
    lemma_split_on_concat(x1, hex2(b[2]), ':');
    lemma_split_on_concat(x2, hex2(b[3]), ':');
    lemma_split_on_concat(x3, hex2(b[4]), ':');
    lemma_split_on_concat(x4, hex2(b[5]), ':');
    assert(t == x4 + seq![':'] + hex2(b[5]));
    let parts = split_on(t, ':');
    assert(parts =~= seq![hex2(b[0]), hex2(b[1]), hex2(b[2]), hex2(b[3]), hex2(b[4]), hex2(b[5])]);
    assert(Seq::new(6, |i: int| hex_value(parts[i]) as u8) =~= b);
}

/// A character of a canonical MAC address other than a separator: `0`-`9` or `A`-`F`.
pub open spec fn is_upper_hex(c: char) -> bool {
    ('0' <= c && c <= '9') || ('A' <= c && c <= 'F')
}

/// Every MAC address that `normalize_mac` accepts comes out as `XX:XX:XX:XX:XX:XX`:
/// seventeen characters, a `:` after every two, upper-case hexadecimal digits elsewhere;
/// and it reads back as itself.
pub proof fn normalized_macs_are_canonical(s: Seq<char>)
    ensures
        normalize_mac_spec(s) matches Some(t) ==> {
            &&& t.len() == 17
            &&& forall|i: int| 0 <= i < 17 ==> (if i % 3 == 2 {
                #[trigger] t[i] == ':'
            } else {
                is_upper_hex(t[i])
            })
            &&& normalize_mac_spec(t) == Some(t)
        },
{
    if let Some(t) = normalize_mac_spec(s) {
        let cleaned = replace_char(trim_brackets(s), '-', ':');
        let parts = split_on(cleaned, ':');
        let b = Seq::new(6, |i: int| hex_value(parts[i]) as u8);
        assert(t == mac_text(b));
        assert forall|i: int| 0 <= i < 17 implies (if i % 3 == 2 {
            #[trigger] t[i] == ':'
        } else {
            is_upper_hex(t[i])
        }) by {
            let k = i / 3;
            assert(0 <= k < 6);
            let h = hex2(b[k]);
            assert(upper_hex_digit(b[k] as nat / 16) == h[0]);
            assert(upper_hex_digit(b[k] as nat % 16) == h[1]);
            if i % 3 != 2 {
                assert(t[i] == h[i % 3]);
            }
        }
        normalize_mac_fixes_canonical_text(b);
    }
}

/// The vendor key of a MAC address is its beginning: its first eight characters, or all
/// of it when it is shorter.
pub proof fn vendor_keys_are_mac_beginnings(s: Seq<char>)
    ensures
        prefix8(s).len() == (if s.len() < 8 {
            s.len()
        } else {
            8
        }),
        forall|i: int| 0 <= i < prefix8(s).len() ==> #[trigger] prefix8(s)[i] == s[i],
{
}

/// The first eight characters of a text (all of it when shorter).
pub open spec fn prefix8(s: Seq<char>) -> Seq<char> {
    if s.len() <= 8 {
        s
    } else {
        s.take(8)
    }
}

/// The key under which a vendor table entry is kept: `-` read as `:`, ASCII letters in
/// upper case, the first eight characters.
pub open spec fn vendor_key(key: Seq<char>) -> Seq<char> {
    prefix8(upper_text(replace_char(key, '-', ':')))
}

/// A vendor file's key is looked up by its first eight characters, with `-` read as `:`
/// and letters in upper case, so `00-1a-2b` and `00:1A:2B` name the same maker.
pub proof fn vendor_keys_ignore_case_and_dashes(key: Seq<char>)
    ensures
        vendor_key(key).len() == (if key.len() < 8 {
            key.len()
        } else {
            8
        }),
        forall|i: int|
            0 <= i < vendor_key(key).len() ==> #[trigger] vendor_key(key)[i] == (if key[i] == '-' {
                ':'
            } else {
                ascii_upper(key[i])
            }),
{
}

/// An entry is kept when its key is eight bytes long (in UTF-8) and its name is not blank.
pub open spec fn vendor_entry_kept(key: Seq<char>, name: Seq<char>) -> bool {
    encode_utf8(vendor_key(key)).len() == 8 && trim(name).len() > 0
}

/// The vendor table made from a list of (prefix, name) entries; a later entry with the
/// same key replaces an earlier one.
pub open spec fn vendor_map_of(entries: Seq<(Seq<char>, Seq<char>)>) -> Map<Seq<char>, Seq<char>>
    decreases entries.len(),
{
    if entries.len() == 0 {
        Map::empty()
    } else {
        let m = vendor_map_of(entries.drop_last());
        let (k, v) = entries.last();
        if vendor_entry_kept(k, v) {
            m.insert(vendor_key(k), trim(v))
        } else {
            m
        }
    }
}

proof fn lemma_encode_utf8_len(s: Seq<char>)
    ensures
        encode_utf8(s).len() <= 4 * s.len(),
    decreases s.len(),
{
    if s.len() > 0 {
        assert(encode_scalar(s[0] as u32).len() <= 4);
        lemma_encode_utf8_len(s.drop_first());
    }
}

fn all_hex(p: &Vec<char>) -> (r: bool)
    ensures
        r == all_hex_digits(p@),
{
    for j in 0..p.len()
        invariant
            forall|k: int| 0 <= k < j ==> is_ascii_hex_digit(#[trigger] p@[k]),
    {
        if !is_hex_digit(p[j]) {
            assert(!is_ascii_hex_digit(p@[j as int]));
            return false;
        }
    }
    true
}

/// A vendor table: from `XX:XX:XX` prefixes to maker names.
pub struct VendorDb {
    map: StringHashMap<String>,
}

impl View for VendorDb {
    type V = Map<Seq<char>, Seq<char>>;

    closed spec fn view(&self) -> Map<Seq<char>, Seq<char>> {
        self.map@.map_values(|s: String| s@)
    }
}

impl VendorDb {
    pub fn new() -> (db: VendorDb)
        ensures
            db@ == Map::<Seq<char>, Seq<char>>::empty(),
    {
        let db = VendorDb { map: StringHashMap::new() };
        assert(db@ =~= Map::<Seq<char>, Seq<char>>::empty());
        db
    }

    pub fn is_empty(&self) -> (r: bool)
        ensures
            r == (self@ == Map::<Seq<char>, Seq<char>>::empty()),
    {
        let r = self.map.is_empty();
        proof {
            assert(self@.dom() =~= self.map@.dom());
            if r {
                assert(self@ =~= Map::<Seq<char>, Seq<char>>::empty());
            } else {
                let k = choose|k: Seq<char>| self.map@.dom().contains(k);
                assert(self@.dom().contains(k));
            }
        }
        r
    }

    pub fn insert(&mut self, key: String, name: String)
        ensures
            final(self)@ == old(self)@.insert(key@, name@),
    {
        self.map.insert(key, name);
        assert(final(self)@ =~= old(self)@.insert(key@, name@));
    }

    pub fn get(&self, key: &str) -> (r: Option<String>)
        ensures
            match r {
                Some(s) => self@.contains_key(key@) && s@ == self@[key@],
                None => !self@.contains_key(key@),
            },
    {
        match self.map.get(key) {
            Some(s) => Some(s.clone()),
            None => None,
        }
    }
}

/// The maker of the device with MAC address `mac`: the entry whose key is the first
/// eight characters of `mac`.
pub fn vendor_from_mac(mac: &str, vendor_db: &VendorDb) -> (r: Option<String>)
    ensures
        match r {
            Some(s) => vendor_db@.contains_key(prefix8(mac@)) && s@ == vendor_db@[prefix8(mac@)],
            None => !vendor_db@.contains_key(prefix8(mac@)),
        },
{
    let chars = chars_of(mac);
    let end = if chars.len() < 8 {
        chars.len()
    } else {
        8
    };
    let prefix = slice_chars(&chars, 0, end);
    assert(prefix@ =~= prefix8(mac@));
    let key = string_from_chars(&prefix);
    vendor_db.get(key.as_str())
}

/// The texts held by a list of (key, name) pairs.
pub open spec fn entry_texts(entries: Seq<(String, String)>) -> Seq<(Seq<char>, Seq<char>)> {
    entries.map_values(|e: (String, String)| (e.0@, e.1@))
}

/// The vendor table of a list of (prefix, name) entries: keys are normalized to
/// `XX:XX:XX`, names are trimmed, and entries whose key is not eight bytes long or whose
/// name is blank are dropped.
pub fn normalize_vendor_map(input: Vec<(String, String)>) -> (db: VendorDb)
    ensures
        db@ == vendor_map_of(entry_texts(input@)),
{
    let mut db = VendorDb::new();
    for i in 0..input.len()
        invariant
            db@ == vendor_map_of(entry_texts(input@).take(i as int)),
    {
        let ghost e = entry_texts(input@);
        assert(e.take(i + 1).drop_last() =~= e.take(i as int));
        let key = &input[i].0;
        let name = &input[i].1;
        assert(e.take(i + 1).last() == (key@, name@));
        let normalized = upper_chars(&replace_chars(&chars_of(key.as_str()), '-', ':'));
        let end = if normalized.len() < 8 {
            normalized.len()
        } else {
            8
        };
        let prefix = string_from_chars(&slice_chars(&normalized, 0, end));
        assert(prefix@ =~= vendor_key(key@));
        let trimmed = trim_str(name.as_str());
        proof {
            lemma_encode_utf8_len(prefix@);
        }
        if prefix.as_str().len() == 8 && trimmed.len() > 0 {
            db.insert(prefix, string_from_chars(&trimmed));
        }
    }
    assert(entry_texts(input@).take(input.len() as int) =~= entry_texts(input@));
    db
}

/// The vendor table that ships with the program, as JSON: an object from OUI prefixes to makers.
pub const DEFAULT_OUI_JSON: &'static str = r#"{
  "00:00:0C": "Cisco Systems",
  "00:03:93": "Apple",
  "00:05:69": "VMware",
  "00:09:0F": "Fortinet",
  "00:0C:29": "VMware",
  "00:0F:66": "Cisco-Linksys",
  "00:11:22": "Cimsys",
  "00:13:10": "Linksys",
  "00:14:22": "Dell",
  "00:15:5D": "Microsoft",
  "00:16:6F": "Intel",
  "00:17:88": "Philips",
  "00:18:E7": "Cisco-Linksys",
  "00:1A:11": "Google",
  "00:1B:63": "Apple",
  "00:1C:B3": "Apple",
  "00:1D:7E": "Cisco Systems",
  "00:1E:C2": "Apple",
  "00:1F:3A": "Samsung Electronics",
  "00:21:5A": "Sony Mobile",
  "00:22:68": "Hewlett Packard",
  "00:23:69": "Huawei Technologies",
  "00:24:D7": "Ubiquiti",
  "00:25:9C": "Cisco Systems",
  "00:26:18": "Asustek Computer",
  "00:26:B6": "Apple",
  "00:30:48": "Supermicro",
  "00:50:56": "VMware",
  "08:00:27": "Oracle VirtualBox",
  "08:11:96": "Huawei Technologies",
  "08:3A:88": "Samsung Electronics",
  "0C:1D:AF": "Hon Hai Precision",
  "10:1D:C0": "Intel",
  "10:7B:44": "Apple",
  "14:49:BC": "Samsung Electronics",
  "18:31:BF": "Samsung Electronics",
  "18:65:90": "Apple",
  "1C:1B:0D": "Apple",
  "1C:5F:2B": "Huawei Technologies",
  "20:16:B9": "Samsung Electronics",
  "20:4E:7F": "Asustek Computer",
  "24:18:1D": "Ubiquiti",
  "24:5A:4C": "Xiaomi Communications",
  "28:16:AD": "Samsung Electronics",
  "28:6C:07": "Apple",
  "2C:54:2D": "Cisco Meraki",
  "2C:CF:67": "Intel",
  "30:07:4D": "TP-Link",
  "30:85:A9": "Asustek Computer",
  "34:17:EB": "Dell",
  "34:97:F6": "LG Electronics",
  "38:F9:D3": "Apple",
  "3C:52:82": "Hewlett Packard Enterprise",
  "3C:84:6A": "Microsoft",
  "40:16:7E": "Xiaomi Communications",
  "44:65:0D": "Intel",
  "48:2C:A0": "Samsung Electronics",
  "48:5F:99": "Apple",
  "4C:32:75": "Intel",
  "50:2B:73": "Cisco Systems",
  "50:C7:BF": "Samsung Electronics",
  "54:27:1E": "Xiaomi Communications",
  "58:6D:8F": "Cisco Meraki",
  "58:CB:52": "Google",
  "5C:51:4F": "LG Electronics",
  "60:03:08": "Apple",
  "64:16:66": "Samsung Electronics",
  "64:66:B3": "Intel",
  "68:54:5A": "Intel",
  "68:72:51": "Ubiquiti",
  "6C:2B:59": "Dell",
  "70:3A:CB": "Google",
  "70:4D:7B": "Asustek Computer",
  "74:83:C2": "Samsung Electronics",
  "78:11:DC": "Huawei Technologies",
  "78:45:58": "TP-Link",
  "7C:2E:BD": "Apple",
  "80:2A:A8": "Ubiquiti",
  "80:45:DD": "Hewlett Packard",
  "84:3A:4B": "Samsung Electronics",
  "84:A9:38": "Ubiquiti",
  "88:32:9B": "Apple",
  "8C:85:90": "Huawei Technologies",
  "90:9F:33": "Intel",
  "94:65:2D": "OnePlus",
  "98:01:A7": "Apple",
  "98:DA:C4": "TP-Link",
  "9C:FC:01": "Ubiquiti",
  "A0:99:9B": "Apple",
  "A4:2B:B0": "TP-Link",
  "A4:77:33": "Intel",
  "A8:5E:45": "Google",
  "AC:1F:6B": "Cisco Systems",
  "AC:22:0B": "Asustek Computer",
  "AC:BC:32": "Apple",
  "B0:4E:26": "Huawei Technologies",
  "B4:2E:99": "Apple",
  "B8:27:EB": "Raspberry Pi Foundation",
  "BC:14:EF": "Samsung Electronics",
  "BC:54:36": "Apple",
  "C0:25:06": "Intel",
  "C0:56:27": "TP-Link",
  "C4:E9:84": "Samsung Electronics",
  "C8:2A:14": "Apple",
  "CC:46:D6": "Cisco Systems",
  "D0:17:C2": "Asustek Computer",
  "D4:6E:0E": "Samsung Electronics",
  "D8:3A:DD": "Google",
  "DC:A6:32": "Raspberry Pi Trading",
  "E0:63:DA": "Ubiquiti",
  "E0:B9:BA": "Apple",
  "E4:5F:01": "Raspberry Pi Trading",
  "E8:48:B8": "Samsung Electronics",
  "EC:08:6B": "Asustek Computer",
  "F0:18:98": "Apple",
  "F4:F5:D8": "Google",
  "F8:32:E4": "Samsung Electronics",
  "FC:34:97": "Apple"
}"#;

/// What serde_json's `from_str::<BTreeMap<String, String>>` makes of a text: the
/// (key, value) pairs of a JSON object whose values are all strings, in ascending key
/// order with the last of repeated keys kept, or `None` when the text is no such object.
pub uninterp spec fn vendor_json_entries(text: Seq<char>) -> Option<Seq<(Seq<char>, Seq<char>)>>;

/// Reads a JSON object of strings with serde_json (`from_str::<BTreeMap<String, String>>`)
/// and lists its entries in key order. The result is named by `vendor_json_entries`;
/// nothing more is claimed of serde_json's JSON grammar.
#[verifier::external_body]
fn parse_vendor_json(text: &str) -> (r: Option<Vec<(String, String)>>)
    ensures
        match r {
            Some(v) => vendor_json_entries(text@) == Some(entry_texts(v@)),
            None => vendor_json_entries(text@) is None,
        },
{
    serde_json::from_str::<std::collections::BTreeMap<String, String>>(text).ok().map(
        |m| m.into_iter().collect(),
    )
}

/// The table of the shipped vendor list (empty if that list were no JSON object of strings).
pub open spec fn default_vendor_map() -> Map<Seq<char>, Seq<char>> {
    match vendor_json_entries(DEFAULT_OUI_JSON@) {
        Some(e) => vendor_map_of(e),
        None => Map::empty(),
    }
}

/// The table chosen from candidate vendor files: the first whose text is a JSON object of
/// strings with at least one usable entry, else the shipped list.
pub open spec fn vendor_db_choice(texts: Seq<Seq<char>>) -> Map<Seq<char>, Seq<char>>
    decreases texts.len(),
{
    if texts.len() == 0 {
        default_vendor_map()
    } else {
        match vendor_json_entries(texts[0]) {
            Some(e) => if vendor_map_of(e) != Map::<Seq<char>, Seq<char>>::empty() {
                vendor_map_of(e)
            } else {
                vendor_db_choice(texts.drop_first())
            },
            None => vendor_db_choice(texts.drop_first()),
        }
    }
}

/// The texts of a list of strings.
pub open spec fn string_texts(v: Seq<String>) -> Seq<Seq<char>> {
    v.map_values(|s: String| s@)
}

/// The vendor table, from the texts of the candidate `oui.json` files in the order they are
/// tried (files that could not be read are left out by the caller).
pub fn load_vendor_database(candidates: &Vec<String>) -> (db: VendorDb)
    ensures
        db@ == vendor_db_choice(string_texts(candidates@)),
{
    let ghost texts = string_texts(candidates@);
    assert(texts.skip(0) =~= texts);
    for i in 0..candidates.len()
        invariant
            texts == string_texts(candidates@),
            vendor_db_choice(texts) == vendor_db_choice(texts.skip(i as int)),
    {
        assert(texts.skip(i as int)[0] == candidates@[i as int]@);
        assert(texts.skip(i as int).drop_first() =~= texts.skip(i + 1));
        match parse_vendor_json(candidates[i].as_str()) {
            Some(entries) => {
                let db = normalize_vendor_map(entries);
                if !db.is_empty() {
                    return db;
                }
            },
            None => {},
        }
    }
    assert(texts.skip(candidates.len() as int) =~= Seq::<Seq<char>>::empty());
    match parse_vendor_json(DEFAULT_OUI_JSON) {
        Some(entries) => normalize_vendor_map(entries),
        None => VendorDb::new(),
    }
}

} // verus!
