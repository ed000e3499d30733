use vstd::prelude::*;
use crate::text::{
    all_digits, decimal, decimal_digit, digit_of, digit_value, digits_value, is_ascii_digit,
    is_digit, lemma_split_on_concat, lemma_split_on_single, push_decimal, split_chars, split_on,
    string_from_chars, views,
};

verus! {

/// An IPv4 address held as its four octets, most significant first.
#[derive(Clone, Copy, Debug, PartialEq, Eq, Structural)]
pub struct Ipv4 {
    pub a: u8,
    pub b: u8,
    pub c: u8,
    pub d: u8,
}

/// The 32-bit number of an address (big-endian reading of the octets).
pub open spec fn octets_value(a: u8, b: u8, c: u8, d: u8) -> nat {
    a as nat * 16777216 + b as nat * 65536 + c as nat * 256 + d as nat
}

/// The address whose 32-bit number is `v`.
pub open spec fn ipv4_of_value(v: nat) -> Ipv4 {
    Ipv4 {
        a: ((v / 16777216) % 256) as u8,
        b: ((v / 65536) % 256) as u8,
        c: ((v / 256) % 256) as u8,
        d: (v % 256) as u8,
    }
}

impl Ipv4 {
    pub open spec fn value(self) -> nat {
        octets_value(self.a, self.b, self.c, self.d)
    }

    pub fn new(a: u8, b: u8, c: u8, d: u8) -> (ip: Ipv4)
        ensures
            ip == (Ipv4 { a, b, c, d }),
    {
        Ipv4 { a, b, c, d }
    }

    pub fn octets(&self) -> (o: [u8; 4])
        ensures
            o@ == seq![self.a, self.b, self.c, self.d],
    {
        [self.a, self.b, self.c, self.d]
    }
}

/// The number by which addresses are ordered and stepped through.
pub fn ipv4_sort_key(ip: Ipv4) -> (key: u32)
    ensures
        key as nat == ip.value(),
{
    (ip.a as u32) * 16777216 + (ip.b as u32) * 65536 + (ip.c as u32) * 256 + (ip.d as u32)
}

/// The address of a 32-bit number.
pub fn u32_to_ipv4(value: u32) -> (ip: Ipv4)
    ensures
        ip == ipv4_of_value(value as nat),
        ip.value() == value as nat,
{
    let a = (value / 16777216) as u8;
    let b = ((value / 65536) % 256) as u8;
    let c = ((value / 256) % 256) as u8;
    let d = (value % 256) as u8;
    proof {
        lemma_value_of_ipv4_of_value(value as nat);
    }
    Ipv4 { a, b, c, d }
}

pub proof fn lemma_value_of_ipv4_of_value(v: nat)
    requires
        v < 4294967296,
    ensures
        ipv4_of_value(v).value() == v,
{
    let q1 = v / 256;
    let q2 = q1 / 256;
    let q3 = q2 / 256;
    assert(v == q1 * 256 + v % 256);
    assert(q1 == q2 * 256 + q1 % 256);
    assert(q2 == q3 * 256 + q2 % 256);
    assert(v / 65536 == q2) by (nonlinear_arith)
        requires q1 == v / 256, q2 == q1 / 256;
    assert(v / 16777216 == q3) by (nonlinear_arith)
        requires q1 == v / 256, q2 == q1 / 256, q3 == q2 / 256;
    assert(q3 < 256) by (nonlinear_arith)
        requires v < 4294967296, q3 == v / 16777216;
}

/// Every address is recovered from its number.
pub proof fn ipv4_value_round_trip(ip: Ipv4)
    ensures
        ipv4_of_value(ip.value()) == ip,
{
    let v = ip.value();
    assert(v / 256 == ip.a as nat * 65536 + ip.b as nat * 256 + ip.c as nat) by (nonlinear_arith)
        requires v == ip.a as nat * 16777216 + ip.b as nat * 65536 + ip.c as nat * 256 + ip.d as nat, ip.d < 256;
    assert(v % 256 == ip.d as nat) by (nonlinear_arith)
        requires v == ip.a as nat * 16777216 + ip.b as nat * 65536 + ip.c as nat * 256 + ip.d as nat, ip.d < 256;
    assert(v / 65536 == ip.a as nat * 256 + ip.b as nat) by (nonlinear_arith)
        requires v == ip.a as nat * 16777216 + ip.b as nat * 65536 + ip.c as nat * 256 + ip.d as nat, ip.d < 256, ip.c < 256;
    assert(v / 16777216 == ip.a as nat) by (nonlinear_arith)
        requires v == ip.a as nat * 16777216 + ip.b as nat * 65536 + ip.c as nat * 256 + ip.d as nat, ip.d < 256, ip.c < 256, ip.b < 256;
    assert((v / 256) % 256 == ip.c as nat) by (nonlinear_arith)
        requires v / 256 == ip.a as nat * 65536 + ip.b as nat * 256 + ip.c as nat, ip.c < 256;
    assert((v / 65536) % 256 == ip.b as nat) by (nonlinear_arith)
        requires v / 65536 == ip.a as nat * 256 + ip.b as nat, ip.b < 256;
}


/// One octet as `Ipv4Addr::from_str` reads it: one to three decimal digits,
/// no leading zero unless the octet is the single digit `0`, worth at most 255.
pub open spec fn is_octet_text(s: Seq<char>) -> bool {
    &&& 1 <= s.len() <= 3
    &&& all_digits(s)
    &&& (s.len() > 1 ==> s[0] != '0')
    &&& digits_value(s) <= 255
}

/// `s.parse::<Ipv4Addr>()`: four octets separated by dots, nothing else.
pub open spec fn parse_ipv4_text(s: Seq<char>) -> Option<Ipv4> {
    let parts = split_on(s, '.');
    if parts.len() == 4 && is_octet_text(parts[0]) && is_octet_text(parts[1]) && is_octet_text(
        parts[2],
    ) && is_octet_text(parts[3]) {
        Some(
            Ipv4 {
                a: digits_value(parts[0]) as u8,
                b: digits_value(parts[1]) as u8,
                c: digits_value(parts[2]) as u8,
                d: digits_value(parts[3]) as u8,
            },
        )
    } else {
        None
    }
}

/// The digits of a `u8` text, after the optional leading `+`.
pub open spec fn unsigned_digits(s: Seq<char>) -> Seq<char> {
    if s.len() > 0 && s[0] == '+' {
        s.drop_first()
    } else {
        s
    }
}

/// `s.parse::<u8>()`: an optional `+`, then one or more decimal digits worth at most 255.
pub open spec fn parse_u8_text(s: Seq<char>) -> Option<u8> {
    let d = unsigned_digits(s);
    if d.len() > 0 && all_digits(d) && digits_value(d) <= 255 {
        Some(digits_value(d) as u8)
    } else {
        None
    }
}

/// `ip.to_string()`: the four octets in decimal, joined by dots.
pub open spec fn ipv4_text(ip: Ipv4) -> Seq<char> {
    decimal(ip.a as nat) + seq!['.'] + decimal(ip.b as nat) + seq!['.'] + decimal(ip.c as nat)
        + seq!['.'] + decimal(ip.d as nat)
}

pub proof fn lemma_digits_value_step(s: Seq<char>, i: int)
    requires
        0 <= i < s.len(),
    ensures
        digits_value(s.take(i + 1)) == digits_value(s.take(i)) * 10 + digit_value(s[i]),
{
    assert(s.take(i + 1).drop_last() =~= s.take(i));
}

/// Appending digits never lowers the value.
pub proof fn lemma_digits_value_prefix(s: Seq<char>, k: int)
    requires
        0 <= k <= s.len(),
        all_digits(s),
    ensures
        digits_value(s.take(k)) <= digits_value(s),
    decreases s.len() - k,
{
    if k < s.len() {
        lemma_digits_value_step(s, k);
        lemma_digits_value_prefix(s, k + 1);
    } else {
        assert(s.take(k) =~= s);
    }
}

/// Reads one octet of a dotted address.
pub fn octet_value(p: &Vec<char>) -> (r: Option<u8>)
    ensures
        r == (if is_octet_text(p@) {
            Some(digits_value(p@) as u8)
        } else {
            None::<u8>
        }),
{
    let n = p.len();
    if n < 1 || n > 3 {
        return None;
    }
    let mut value: u32 = 0;
    let mut i: usize = 0;
    while i < n
        invariant
            n == p.len() <= 3,
            i <= n,
            all_digits(p@.take(i as int)),
            value as nat == digits_value(p@.take(i as int)),
            value < 1000,
            i == 0 ==> value == 0,
            i == 1 ==> value < 10,
            i == 2 ==> value < 100,
        decreases n - i,
    {
        let c = p[i];
        if !is_digit(c) {
            proof {
                assert(!all_digits(p@)) by {
                    assert(!is_ascii_digit(p@[i as int]));
                }
            }
            return None;
        }
        proof {
            lemma_digits_value_step(p@, i as int);
            assert(all_digits(p@.take(i + 1))) by {
                assert forall|j: int| 0 <= j < i + 1 implies is_ascii_digit(#[trigger] p@.take(i + 1)[j]) by {
                    if j < i {
                        assert(p@.take(i + 1)[j] == p@.take(i as int)[j]);
                    }
                }
            }
        }
        value = value * 10 + digit_of(c) as u32;
        i = i + 1;
    }
    assert(p@.take(n as int) =~= p@);
    if n > 1 && p[0] == '0' {
        return None;
    }
    if value > 255 {
        return None;
    }
    Some(value as u8)
}

/// `s.parse::<Ipv4Addr>()` on a text held as characters.
pub fn parse_ipv4(s: &Vec<char>) -> (r: Option<Ipv4>)
    ensures
        r == parse_ipv4_text(s@),
{
    let parts = split_chars(s, '.');
    if parts.len() != 4 {
        return None;
    }
    proof {
        assert(views(parts@)[0] == parts@[0]@);
        assert(views(parts@)[1] == parts@[1]@);
        assert(views(parts@)[2] == parts@[2]@);
        assert(views(parts@)[3] == parts@[3]@);
    }
    let a = octet_value(&parts[0]);
    let b = octet_value(&parts[1]);
    let c = octet_value(&parts[2]);
    let d = octet_value(&parts[3]);
    match (a, b, c, d) {
        (Some(a), Some(b), Some(c), Some(d)) => Some(Ipv4 { a, b, c, d }),
        _ => None,
    }
}

/// `s.parse::<u8>()` on a text held as characters.
pub fn parse_u8(s: &Vec<char>) -> (r: Option<u8>)
    ensures
        r == parse_u8_text(s@),
{
    let n = s.len();
    let start: usize = if n > 0 && s[0] == '+' {
        1
    } else {
        0
    };
    let ghost d = unsigned_digits(s@);
    assert(d =~= s@.subrange(start as int, n as int));
    if start == n {
        return None;
    }
    let mut value: u32 = 0;
    let mut i: usize = start;
    while i < n
        invariant
            start <= i <= n == s.len(),
            d == unsigned_digits(s@),
            d == s@.subrange(start as int, n as int),
            all_digits(d.take(i - start)),
            value as nat == digits_value(d.take(i - start)),
            value <= 255,
        decreases n - i,
    {
        let c = s[i];
        assert(d[i - start] == c);
        if !is_digit(c) {
            assert(!all_digits(d)) by {
                assert(!is_ascii_digit(d[i - start]));
            }
            return None;
        }
        proof {
            lemma_digits_value_step(d, i - start);
            assert(all_digits(d.take(i - start + 1))) by {
                assert forall|j: int| 0 <= j < i - start + 1 implies is_ascii_digit(#[trigger] d.take(i - start + 1)[j]) by {
                    if j < i - start {
                        assert(d.take(i - start + 1)[j] == d.take(i - start)[j]);
                    }
                }
            }
        }
        value = value * 10 + digit_of(c) as u32;
        i = i + 1;
        if value > 255 {
            proof {
                if all_digits(d) {
                    lemma_digits_value_prefix(d, i - start);
                }
            }
            return None;
        }
    }
    assert(d.take(n - start) =~= d);
    Some(value as u8)
}

/// Appends `ip.to_string()`.
pub fn push_ipv4(out: &mut Vec<char>, ip: Ipv4)
    ensures
        final(out)@ == old(out)@ + ipv4_text(ip),
{
    push_decimal(out, ip.a as u64);
    out.push('.');
    push_decimal(out, ip.b as u64);
    out.push('.');
    push_decimal(out, ip.c as u64);
    out.push('.');
    push_decimal(out, ip.d as u64);
    assert(final(out)@ =~= old(out)@ + ipv4_text(ip));
}

/// `ip.to_string()`.
pub fn format_ipv4(ip: Ipv4) -> (s: String)
    ensures
        s@ == ipv4_text(ip),
{
    let mut v: Vec<char> = Vec::new();
    push_ipv4(&mut v, ip);
    assert(v@ =~= ipv4_text(ip));
    string_from_chars(&v)
}

pub proof fn lemma_decimal_facts(n: nat)
    ensures
        decimal(n).len() >= 1,
        all_digits(decimal(n)),
        digits_value(decimal(n)) == n,
        !decimal(n).contains('.'),
        n < 10 ==> decimal(n).len() == 1,
        10 <= n < 100 ==> decimal(n).len() == 2,
        100 <= n < 1000 ==> decimal(n).len() == 3,
        n >= 10 ==> decimal(n)[0] != '0',
    decreases n,
{
    assert(digit_value(decimal_digit(n % 10)) == n % 10);
    if n >= 10 {
        lemma_decimal_facts(n / 10);
        let s = decimal(n);
        assert(s.drop_last() =~= decimal(n / 10));
        assert(s.last() == decimal_digit(n % 10));
        assert(digits_value(s) == digits_value(decimal(n / 10)) * 10 + n % 10);
        assert forall|i: int| 0 <= i < s.len() implies is_ascii_digit(#[trigger] s[i]) by {
            if i < s.len() - 1 {
                assert(s[i] == decimal(n / 10)[i]);
            }
        }
        assert(!s.contains('.')) by {
            if s.contains('.') {
                let k = choose|k: int| 0 <= k < s.len() && s[k] == '.';
                if k < s.len() - 1 {
                    assert(decimal(n / 10)[k] == '.');
                }
            }
        }
        assert(s[0] == decimal(n / 10)[0]);
        if n / 10 < 10 {
            assert(decimal(n / 10)[0] == decimal_digit(n / 10));
        }
    } else {
        assert(decimal(n).drop_last() =~= Seq::<char>::empty());
        assert(digits_value(Seq::<char>::empty()) == 0);
        assert(digits_value(decimal(n)) == digit_value(decimal_digit(n)));
        assert(!decimal(n).contains('.')) by {
            if decimal(n).contains('.') {
                let k = choose|k: int| 0 <= k < decimal(n).len() && decimal(n)[k] == '.';
                assert(decimal(n)[0] == decimal_digit(n));
            }
        }
    }
}

pub proof fn lemma_octet_text_of_byte(b: u8)
    ensures
        is_octet_text(decimal(b as nat)),
        digits_value(decimal(b as nat)) == b as nat,
        !decimal(b as nat).contains('.'),
{
    lemma_decimal_facts(b as nat);
}

/// An address written out reads back as the same address.
pub proof fn ipv4_text_round_trip(ip: Ipv4)
    ensures
        parse_ipv4_text(ipv4_text(ip)) == Some(ip),
{
    let da = decimal(ip.a as nat);
    let db = decimal(ip.b as nat);
    let dc = decimal(ip.c as nat);
    let dd = decimal(ip.d as nat);
    lemma_octet_text_of_byte(ip.a);
    lemma_octet_text_of_byte(ip.b);
    lemma_octet_text_of_byte(ip.c);
    lemma_octet_text_of_byte(ip.d);
    let dot = seq!['.'];
    lemma_split_on_single(da, '.');
    lemma_split_on_single(db, '.');
    lemma_split_on_single(dc, '.');
    lemma_split_on_single(dd, '.');
    lemma_split_on_concat(da, db, '.');
    let x1 = da + dot + db;
    lemma_split_on_concat(x1, dc, '.');
    let x2 = x1 + dot + dc;
    lemma_split_on_concat(x2, dd, '.');
    assert(ipv4_text(ip) == x2 + dot + dd);
    let parts = split_on(ipv4_text(ip), '.');
    assert(parts =~= seq![da, db, dc, dd]);
}

} // verus!
