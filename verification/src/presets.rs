//! The ranges suggested to the user: the /24 host range of each IPv4 address of the
//! machine, loopback and link-local addresses left out, sorted and without repeats.
use vstd::prelude::*;
use crate::ipv4::Ipv4;
use crate::records::{lemma_lex_order_chains, lemma_lex_order_flip, lex_order, Order};
use crate::scan::DEFAULT_RANGE;
use crate::targets::block_range_text;
use crate::text::{chars_of, decimal, push_decimal, string_from_chars};

verus! {

/// The texts of a list of strings.
pub open spec fn preset_texts(v: Seq<String>) -> Seq<Seq<char>> {
    v.map_values(|s: String| s@)
}

/// Strictly ascending in the order of `str`, hence without repeats.
pub open spec fn strictly_sorted_texts(s: Seq<Seq<char>>) -> bool {
    forall|i: int, j: int| 0 <= i < j < s.len() ==> lex_order(#[trigger] s[i], #[trigger] s[j]) == Order::Less
}

/// An address suggests a range unless it is a loopback (127.x) or link-local (169.x) one.
pub open spec fn suggests_range(ip: Ipv4) -> bool {
    ip.a != 127 && ip.a != 169
}

/// The range an address suggests.
pub open spec fn suggested_range(ip: Ipv4) -> Seq<char> {
    block_range_text(ip.a, ip.b, ip.c)
}

/// The ranges suggested by a list of addresses.
pub open spec fn suggested_ranges(addresses: Seq<Ipv4>) -> Set<Seq<char>> {
    Set::new(
        |t: Seq<char>|
            exists|i: int|
                0 <= i < addresses.len() && suggests_range(addresses[i]) && #[trigger] suggested_range(
                    addresses[i],
                ) == t,
    )
}

/// The texts of the presets are the presets' texts, one for one, in order.
pub proof fn preset_texts_one_for_one(v: Seq<String>)
    ensures
        preset_texts(v).len() == v.len(),
        forall|i: int| 0 <= i < v.len() ==> #[trigger] preset_texts(v)[i] == v[i]@,
{
}

/// `a.b.c.1-254` written out: the three octets in decimal, then `.1-254`.
pub open spec fn written_block(a: u8, b: u8, c: u8) -> Seq<char> {
    decimal(a as nat) + seq!['.'] + decimal(b as nat) + seq!['.'] + decimal(c as nat) + seq![
        '.',
        '1',
        '-',
        '2',
        '5',
        '4',
    ]
}

/// Every address whose first octet is neither 127 (loopback) nor 169 (link-local)
/// suggests the host range `a.b.c.1-254` of its block; the others suggest nothing, and no
/// range is suggested that some such address does not give.
pub proof fn usable_addresses_suggest_their_block(addresses: Seq<Ipv4>)
    ensures
        forall|i: int|
            0 <= i < addresses.len() && addresses[i].a != 127 && addresses[i].a != 169
                ==> suggested_ranges(addresses).contains(
                written_block(addresses[i].a, addresses[i].b, addresses[i].c),
            ),
        forall|t: Seq<char>|
            suggested_ranges(addresses).contains(t) ==> exists|i: int|
                0 <= i < addresses.len() && addresses[i].a != 127 && addresses[i].a != 169 && t
                    == written_block(addresses[i].a, addresses[i].b, addresses[i].c),
{
    assert forall|i: int|
        0 <= i < addresses.len() && addresses[i].a != 127 && addresses[i].a != 169 implies suggested_ranges(
        addresses,
    ).contains(written_block(addresses[i].a, addresses[i].b, addresses[i].c)) by {
        assert(suggested_range(addresses[i]) == written_block(addresses[i].a, addresses[i].b, addresses[i].c));
    }
    assert forall|t: Seq<char>| suggested_ranges(addresses).contains(t) implies exists|i: int|
        0 <= i < addresses.len() && addresses[i].a != 127 && addresses[i].a != 169 && t
            == written_block(addresses[i].a, addresses[i].b, addresses[i].c) by {
        let i = choose|i: int|
            0 <= i < addresses.len() && suggests_range(addresses[i]) && #[trigger] suggested_range(
                addresses[i],
            ) == t;
        assert(t == written_block(addresses[i].a, addresses[i].b, addresses[i].c));
    }
}

fn compare_texts(a: &Vec<char>, b: &Vec<char>) -> (r: Order)
    ensures
        r == lex_order(a@, b@),
{
    let mut i: usize = 0;
    assert(a@.skip(0) =~= a@);
    assert(b@.skip(0) =~= b@);
    while i < a.len() && i < b.len()
        invariant
            i <= a.len(),
            i <= b.len(),
            lex_order(a@, b@) == lex_order(a@.skip(i as int), b@.skip(i as int)),
        decreases a.len() - i,
    {
        assert(a@.skip(i as int)[0] == a@[i as int]);
        assert(b@.skip(i as int)[0] == b@[i as int]);
        if a[i] < b[i] {
            return Order::Less;
        }
        if a[i] > b[i] {
            return Order::Greater;
        }
        assert(a@.skip(i as int).drop_first() =~= a@.skip(i + 1));
        assert(b@.skip(i as int).drop_first() =~= b@.skip(i + 1));
        i = i + 1;
    }
    if i < a.len() {
        Order::Greater
    } else if i < b.len() {
        Order::Less
    } else {
        Order::Equal
    }
}

/// Whether `t` comes after the `p`-th text.
fn goes_after(t: &Vec<char>, presets: &Vec<String>, p: usize) -> (r: bool)
    ensures
        r == (p < presets.len() && lex_order(t@, preset_texts(presets@)[p as int]) == Order::Greater),
{
    if p < presets.len() {
        compare_texts(t, &chars_of(presets[p].as_str())) == Order::Greater
    } else {
        false
    }
}

/// Adds a text to a strictly sorted list of texts, as `BTreeSet::insert` would.
fn insert_sorted(presets: &mut Vec<String>, text: String)
    requires
        strictly_sorted_texts(preset_texts(old(presets)@)),
    ensures
        strictly_sorted_texts(preset_texts(final(presets)@)),
        preset_texts(final(presets)@).to_set() == preset_texts(old(presets)@).to_set().insert(text@),
{
    let ghost before = preset_texts(presets@);
    let t = chars_of(text.as_str());
    let mut p: usize = 0;
    while goes_after(&t, presets, p)
        invariant
            p <= presets.len(),
            presets@ == old(presets)@,
            before == preset_texts(presets@),
            t@ == text@,
            forall|q: int| 0 <= q < p ==> lex_order(t@, #[trigger] before[q]) == Order::Greater,
        decreases presets.len() - p,
    {
        p = p + 1;
    }
    if p < presets.len() {
        assert(before[p as int] == presets@[p as int]@);
        if compare_texts(&t, &chars_of(presets[p].as_str())) == Order::Equal {
            proof {
                lemma_lex_order_flip(t@, before[p as int]);
                assert(before.to_set() =~= before.to_set().insert(text@)) by {
                    assert(before.contains(text@)) by {
                        assert(before[p as int] == text@);
                    }
                }
            }
            return;
        }
    }
    let ghost q_before = p;
    presets.insert(p, text);
    proof {
        let after = preset_texts(presets@);
        assert(after =~= before.insert(p as int, t@));
        assert forall|i: int, j: int| 0 <= i < j < after.len() implies lex_order(
            #[trigger] after[i],
            #[trigger] after[j],
        ) == Order::Less by {
            if j < p {
                assert(after[i] == before[i] && after[j] == before[j]);
            } else if j == p {
                lemma_lex_order_flip(t@, before[i]);
            } else if i == p {
                assert(lex_order(t@, before[p as int]) == Order::Less) by {
                    lemma_lex_order_flip(t@, before[p as int]);
                }
                if j - 1 > p {
                    lemma_lex_order_chains(t@, before[p as int], before[j - 1]);
                }
            } else if i < p {
                assert(after[i] == before[i] && after[j] == before[j - 1]);
            } else {
                assert(after[i] == before[i - 1] && after[j] == before[j - 1]);
            }
        }
        assert(after.to_set() =~= before.to_set().insert(text@)) by {
            assert forall|x: Seq<char>| after.to_set().contains(x) implies before.to_set().insert(
                text@,
            ).contains(x) by {
                let k = choose|k: int| 0 <= k < after.len() && after[k] == x;
                if k < p {
                    assert(before[k] == x);
                } else if k > p {
                    assert(before[k - 1] == x);
                }
            }
            assert forall|x: Seq<char>| before.to_set().insert(text@).contains(x) implies after.to_set().contains(
                x,
            ) by {
                if x == text@ {
                    assert(after[p as int] == x);
                } else {
                    let k = choose|k: int| 0 <= k < before.len() && before[k] == x;
                    if k < p {
                        assert(after[k] == x);
                    } else {
                        assert(after[k + 1] == x);
                    }
                }
            }
        }
    }
}

/// Adds the range an address suggests, unless it is a loopback or link-local address.
pub fn collect_ipv4_preset(ip: Ipv4, presets: &mut Vec<String>)
    requires
        strictly_sorted_texts(preset_texts(old(presets)@)),
    ensures
        strictly_sorted_texts(preset_texts(final(presets)@)),
        preset_texts(final(presets)@).to_set() == (if suggests_range(ip) {
            preset_texts(old(presets)@).to_set().insert(suggested_range(ip))
        } else {
            preset_texts(old(presets)@).to_set()
        }),
        ip.a != 127 && ip.a != 169 ==> preset_texts(final(presets)@).contains(written_block(ip.a, ip.b, ip.c)),
        ip.a == 127 || ip.a == 169 ==> final(presets)@ == old(presets)@,
{
    if ip.a == 127 || ip.a == 169 {
        return;
    }
    let mut v: Vec<char> = Vec::new();
    push_decimal(&mut v, ip.a as u64);
    v.push('.');
    push_decimal(&mut v, ip.b as u64);
    v.push('.');
    push_decimal(&mut v, ip.c as u64);
    v.push('.');
    v.push('1');
    v.push('-');
    v.push('2');
    v.push('5');
    v.push('4');
    assert(v@ =~= suggested_range(ip));
    insert_sorted(presets, string_from_chars(&v));
    assert(preset_texts(presets@).to_set().contains(written_block(ip.a, ip.b, ip.c)));
}

/// The suggested ranges for the machine's IPv4 addresses, sorted, without repeats;
/// `192.168.1.1-254` when no address suggests one.
pub fn discover_range_presets(addresses: &Vec<Ipv4>) -> (presets: Vec<String>)
    ensures
        strictly_sorted_texts(preset_texts(presets@)),
        suggested_ranges(addresses@).len() > 0 ==> preset_texts(presets@).to_set() == suggested_ranges(
            addresses@,
        ),
        suggested_ranges(addresses@) == Set::<Seq<char>>::empty() ==> preset_texts(presets@) == seq![
            DEFAULT_RANGE@,
        ],
        forall|i: int|
            0 <= i < addresses@.len() && addresses@[i].a != 127 && addresses@[i].a != 169
                ==> preset_texts(presets@).contains(
                written_block(addresses@[i].a, addresses@[i].b, addresses@[i].c),
            ),
{
    let mut presets: Vec<String> = Vec::new();
    assert(preset_texts(presets@).to_set() =~= Set::<Seq<char>>::empty());
    for i in 0..addresses.len()
        invariant
            strictly_sorted_texts(preset_texts(presets@)),
            preset_texts(presets@).to_set() == suggested_ranges(addresses@.take(i as int)),
    {
        collect_ipv4_preset(addresses[i], &mut presets);
        proof {
            let s0 = suggested_ranges(addresses@.take(i as int));
            let s1 = suggested_ranges(addresses@.take(i + 1));
            let ip = addresses@[i as int];
            assert forall|t: Seq<char>| s1.contains(t) implies (if suggests_range(ip) {
                s0.insert(suggested_range(ip))
            } else {
                s0
            }).contains(t) by {
                let k = choose|k: int|
                    0 <= k < i + 1 && suggests_range(addresses@.take(i + 1)[k]) && #[trigger] suggested_range(
                        addresses@.take(i + 1)[k],
                    ) == t;
                if k < i {
                    assert(addresses@.take(i as int)[k] == addresses@.take(i + 1)[k]);
                }
            }
            assert forall|t: Seq<char>| (if suggests_range(ip) {
                s0.insert(suggested_range(ip))
            } else {
                s0
            }).contains(t) implies s1.contains(t) by {
                if suggests_range(ip) && t == suggested_range(ip) {
                    assert(addresses@.take(i + 1)[i as int] == ip);
                } else {
                    let k = choose|k: int|
                        0 <= k < i && suggests_range(addresses@.take(i as int)[k]) && #[trigger] suggested_range(
                            addresses@.take(i as int)[k],
                        ) == t;
                    assert(addresses@.take(i as int)[k] == addresses@.take(i + 1)[k]);
                }
            }
            assert(s1 =~= (if suggests_range(ip) {
                s0.insert(suggested_range(ip))
            } else {
                s0
            }));
        }
    }
    assert(addresses@.take(addresses.len() as int) =~= addresses@);
    proof {
        usable_addresses_suggest_their_block(addresses@);
        assert forall|i: int|
            0 <= i < addresses@.len() && addresses@[i].a != 127 && addresses@[i].a != 169 implies preset_texts(
            presets@,
        ).contains(written_block(addresses@[i].a, addresses@[i].b, addresses@[i].c)) by {
            let t = written_block(addresses@[i].a, addresses@[i].b, addresses@[i].c);
            assert(preset_texts(presets@).to_set().contains(t));
        }
    }
    if presets.len() == 0 {
        proof {
            assert(preset_texts(presets@).to_set() =~= Set::<Seq<char>>::empty());
        }
        presets.push(String::from_str(DEFAULT_RANGE));
        assert(preset_texts(presets@) =~= seq![DEFAULT_RANGE@]);
    } else {
        proof {
            assert(preset_texts(presets@).to_set().contains(preset_texts(presets@)[0]));
        }
    }
    presets
}

} // verus!
