//! Scan results: the status of a device, its record, the orders in which the table
//! sorts records, and the texts shown for a record in the grid and in exports.
use vstd::prelude::*;
use vstd::multiset::Multiset;
use crate::ipv4::{Ipv4, ipv4_text, push_ipv4, ipv4_sort_key};
use crate::language::Language;
use crate::text::{
    chars_of, lower_chars, lower_text, push_all, push_str, slice_chars, string_from_chars, trim,
    trim_chars,
};

verus! {

broadcast use vstd::seq_lib::group_to_multiset_ensures, vstd::multiset::group_multiset_axioms;

/// The label of `DeviceStatus::Pending`, one per language in the order of [`LANGUAGES`].
pub const STATUS_PENDING_TEXTS: [&'static str; 6] = [
    "확인중",
    "Checking",
    "检查中",
    "Verification",
    "Pruefung",
    "जांच जारी",
];

/// The label of `DeviceStatus::InUse`, one per language in the order of [`LANGUAGES`].
pub const STATUS_IN_USE_TEXTS: [&'static str; 6] = [
    "사용중",
    "In use",
    "使用中",
    "Actif",
    "Belegt",
    "उपयोग में",
];

/// The label of `DeviceStatus::Available`, one per language in the order of [`LANGUAGES`].
pub const STATUS_AVAILABLE_TEXTS: [&'static str; 6] = [
    "사용가능",
    "Available",
    "可用",
    "Disponible",
    "Verfuegbar",
    "उपलब्ध",
];

/// Whether a device answered.
#[derive(Clone, Copy, Debug, PartialEq, Eq, Structural)]
pub enum DeviceStatus {
    Pending,
    InUse,
    Available,
}

impl DeviceStatus {
    /// The label of a status in a language.
    pub open spec fn label_spec(self, language: Language) -> &'static str {
        match self {
            DeviceStatus::Pending => STATUS_PENDING_TEXTS@[language.slot_spec()],
            DeviceStatus::InUse => STATUS_IN_USE_TEXTS@[language.slot_spec()],
            DeviceStatus::Available => STATUS_AVAILABLE_TEXTS@[language.slot_spec()],
        }
    }

    pub fn label(self, language: Language) -> (r: &'static str)
        ensures
            r == self.label_spec(language),
    {
        let i = language.slot();
        match self {
            DeviceStatus::Pending => STATUS_PENDING_TEXTS[i],
            DeviceStatus::InUse => STATUS_IN_USE_TEXTS[i],
            DeviceStatus::Available => STATUS_AVAILABLE_TEXTS[i],
        }
    }
}

/// What the scan learned of one address.
#[derive(Debug)]
pub struct ScanRecord {
    pub ip: Ipv4,
    pub status: DeviceStatus,
    pub mac: Option<String>,
    pub vendor: Option<String>,
    pub hostname: Option<String>,
}

fn copy_text(s: &Option<String>) -> (c: Option<String>)
    ensures
        c == *s,
{
    match s {
        Some(t) => Some(t.clone()),
        None => None,
    }
}

impl ScanRecord {
    /// A record equal to this one.
    pub fn copy(&self) -> (c: ScanRecord)
        ensures
            c == *self,
    {
        ScanRecord {
            ip: self.ip,
            status: self.status,
            mac: copy_text(&self.mac),
            vendor: copy_text(&self.vendor),
            hostname: copy_text(&self.hostname),
        }
    }
}

/// The table column the records are sorted by.
#[derive(Clone, Copy, Debug, PartialEq, Eq, Structural)]
pub enum SortColumn {
    Ip,
    Status,
    Mac,
    Vendor,
    Hostname,
}

/// The outcome of comparing two values.
#[derive(Clone, Copy, Debug, PartialEq, Eq, Structural)]
pub enum Order {
    Less,
    Equal,
    Greater,
}

pub open spec fn reverse_order(o: Order) -> Order {
    match o {
        Order::Less => Order::Greater,
        Order::Equal => Order::Equal,
        Order::Greater => Order::Less,
    }
}

pub open spec fn nat_order(a: nat, b: nat) -> Order {
    if a < b {
        Order::Less
    } else if a == b {
        Order::Equal
    } else {
        Order::Greater
    }
}

/// The order of two texts, character by character (the order of `str`'s `Ord`).
pub open spec fn lex_order(a: Seq<char>, b: Seq<char>) -> Order
    decreases a.len(),
{
    if a.len() == 0 {
        if b.len() == 0 {
            Order::Equal
        } else {
            Order::Less
        }
    } else if b.len() == 0 {
        Order::Greater
    } else if a[0] < b[0] {
        Order::Less
    } else if a[0] > b[0] {
        Order::Greater
    } else {
        lex_order(a.drop_first(), b.drop_first())
    }
}

/// How three pairwise comparisons of `x`, `y`, `z` fit together as they do in a total order.
pub open spec fn chains(xy: Order, yz: Order, xz: Order) -> bool {
    &&& (xy == Order::Equal && yz == Order::Equal ==> xz == Order::Equal)
    &&& (xy != Order::Greater && yz != Order::Greater ==> xz != Order::Greater)
    &&& ((xy == Order::Less && yz != Order::Greater) || (xy != Order::Greater && yz == Order::Less)
        ==> xz == Order::Less)
}

pub proof fn lemma_lex_order_flip(a: Seq<char>, b: Seq<char>)
    ensures
        lex_order(b, a) == reverse_order(lex_order(a, b)),
        lex_order(a, b) == Order::Equal <==> a == b,
    decreases a.len(),
{
    if a.len() > 0 && b.len() > 0 && a[0] == b[0] {
        lemma_lex_order_flip(a.drop_first(), b.drop_first());
        if a.drop_first() == b.drop_first() {
            assert(a =~= seq![a[0]] + a.drop_first());
            assert(b =~= seq![b[0]] + b.drop_first());
        }
    }
    if a.len() == 0 && b.len() == 0 {
        assert(a =~= b);
    }
}

pub proof fn lemma_lex_order_chains(a: Seq<char>, b: Seq<char>, c: Seq<char>)
    ensures
        chains(lex_order(a, b), lex_order(b, c), lex_order(a, c)),
    decreases a.len(),
{
    if a.len() > 0 && b.len() > 0 && c.len() > 0 {
        lemma_lex_order_chains(a.drop_first(), b.drop_first(), c.drop_first());
    }
}

/// `a` comes strictly before `b` in the order of `str`: it is a proper prefix of `b`, or at
/// the first position where they differ its character is the smaller one.
pub open spec fn text_precedes(a: Seq<char>, b: Seq<char>) -> bool {
    ||| (a.len() < b.len() && a == b.take(a.len() as int))
    ||| exists|k: int|
        0 <= k < a.len() && k < b.len() && a.take(k) == b.take(k) && #[trigger] a[k] < b[k]
}

proof fn lemma_lex_order_is_text_order(a: Seq<char>, b: Seq<char>)
    ensures
        lex_order(a, b) == Order::Equal <==> a == b,
        lex_order(a, b) == Order::Less <==> text_precedes(a, b),
        lex_order(a, b) == Order::Greater <==> text_precedes(b, a),
    decreases a.len(),
{
    lemma_lex_order_flip(a, b);
    if a.len() == 0 {
        assert(a =~= b.take(0));
        if b.len() == 0 {
            assert(!text_precedes(b, a));
        }
        assert(!text_precedes(b, a));
    } else if b.len() == 0 {
        assert(b =~= a.take(0));
        assert(!text_precedes(a, b));
    } else if a[0] != b[0] {
        let (x, y) = if a[0] < b[0] { (a, b) } else { (b, a) };
        assert(x.take(0) =~= y.take(0));
        assert(text_precedes(x, y));
        assert(!text_precedes(y, x)) by {
            if y.len() < x.len() && y == x.take(y.len() as int) {
                assert(y[0] == x[0]);
            }
            if exists|k: int|
                0 <= k < y.len() && k < x.len() && y.take(k) == x.take(k) && #[trigger] y[k] < x[k] {
                let k = choose|k: int|
                    0 <= k < y.len() && k < x.len() && y.take(k) == x.take(k) && #[trigger] y[k] < x[k];
                if k > 0 {
                    assert(y.take(k)[0] == x.take(k)[0]);
                }
            }
        }
    } else {
        let a1 = a.drop_first();
        let b1 = b.drop_first();
        lemma_lex_order_is_text_order(a1, b1);
        lemma_text_precedes_step(a, b);
        lemma_text_precedes_step(b, a);
    }
}

proof fn lemma_text_precedes_step(a: Seq<char>, b: Seq<char>)
    requires
        a.len() > 0,
        b.len() > 0,
        a[0] == b[0],
    ensures
        text_precedes(a, b) <==> text_precedes(a.drop_first(), b.drop_first()),
{
    let a1 = a.drop_first();
    let b1 = b.drop_first();
    if a.len() < b.len() && a == b.take(a.len() as int) {
        assert(a1 =~= b1.take(a1.len() as int));
    }
    if a1.len() < b1.len() && a1 == b1.take(a1.len() as int) {
        assert(a =~= b.take(a.len() as int)) by {
            assert forall|j: int| 0 <= j < a.len() implies #[trigger] a[j] == b.take(a.len() as int)[j] by {
                if j > 0 {
                    assert(a[j] == a1[j - 1]);
                    assert(b1.take(a1.len() as int)[j - 1] == b1[j - 1]);
                }
            }
        }
    }
    if exists|k: int| 0 <= k < a.len() && k < b.len() && a.take(k) == b.take(k) && #[trigger] a[k] < b[k] {
        let k = choose|k: int| 0 <= k < a.len() && k < b.len() && a.take(k) == b.take(k) && #[trigger] a[k] < b[k];
        assert(k > 0);
        assert(a1.take(k - 1) =~= b1.take(k - 1)) by {
            assert forall|j: int| 0 <= j < k - 1 implies #[trigger] a1.take(k - 1)[j] == b1.take(k - 1)[j] by {
                assert(a.take(k)[j + 1] == b.take(k)[j + 1]);
            }
        }
        assert(a1[k - 1] < b1[k - 1]);
    }
    if exists|k: int| 0 <= k < a1.len() && k < b1.len() && a1.take(k) == b1.take(k) && #[trigger] a1[k] < b1[k] {
        let k = choose|k: int| 0 <= k < a1.len() && k < b1.len() && a1.take(k) == b1.take(k) && #[trigger] a1[k] < b1[k];
        assert(a.take(k + 1) =~= b.take(k + 1)) by {
            assert forall|j: int| 0 <= j < k + 1 implies #[trigger] a.take(k + 1)[j] == b.take(k + 1)[j] by {
                if j > 0 {
                    assert(a1.take(k)[j - 1] == b1.take(k)[j - 1]);
                }
            }
        }
        assert(a[k + 1] < b[k + 1]);
    }
}

/// The order of two texts as the table shows them: equal texts tie, else the one that
/// precedes in the order of `str` comes first.
pub open spec fn text_column_order(a: Seq<char>, b: Seq<char>) -> Order {
    if a == b {
        Order::Equal
    } else if text_precedes(a, b) {
        Order::Less
    } else {
        Order::Greater
    }
}

/// How a text column compares an optional value: trimmed, ASCII letters in lower case,
/// absent as the empty text.
pub open spec fn column_key(v: Option<String>) -> Seq<char> {
    match v {
        Some(s) => lower_text(trim(s@)),
        None => lower_text(trim(Seq::<char>::empty())),
    }
}

/// The MAC, vendor and host-name columns sort by their own text alone: two records compare
/// as their trimmed, lower-cased values do in the order of `str`, whatever their addresses,
/// statuses and other fields; records whose values differ there never tie.
pub proof fn text_columns_sort_by_their_text(l: ScanRecord, r: ScanRecord)
    ensures
        column_order(l, r, SortColumn::Hostname) == text_column_order(
            column_key(l.hostname),
            column_key(r.hostname),
        ),
        column_order(l, r, SortColumn::Vendor) == text_column_order(
            column_key(l.vendor),
            column_key(r.vendor),
        ),
        column_order(l, r, SortColumn::Mac) == text_column_order(column_key(l.mac), column_key(r.mac)),
{
    lemma_lex_order_is_text_order(column_key(l.hostname), column_key(r.hostname));
    lemma_lex_order_is_text_order(column_key(l.vendor), column_key(r.vendor));
    lemma_lex_order_is_text_order(column_key(l.mac), column_key(r.mac));
    assert(opt_text(l.hostname) == (match l.hostname { Some(s) => s@, None => Seq::<char>::empty() }));
}

/// The address and status columns sort by address number and by status rank
/// (checking, in use, available), whatever the records' other fields.
pub proof fn address_and_status_columns_sort_by_value(l: ScanRecord, r: ScanRecord)
    ensures
        column_order(l, r, SortColumn::Ip) == (if l.ip.value() < r.ip.value() {
            Order::Less
        } else if l.ip.value() == r.ip.value() {
            Order::Equal
        } else {
            Order::Greater
        }),
        column_order(l, r, SortColumn::Status) == Order::Less <==> (l.status
            == DeviceStatus::Pending && r.status != DeviceStatus::Pending) || (l.status
            == DeviceStatus::InUse && r.status == DeviceStatus::Available),
        column_order(l, r, SortColumn::Status) == Order::Equal <==> l.status == r.status,
{
}

pub open spec fn status_rank(s: DeviceStatus) -> nat {
    match s {
        DeviceStatus::Pending => 0,
        DeviceStatus::InUse => 1,
        DeviceStatus::Available => 2,
    }
}

/// The rank by which statuses sort: checking, then in use, then available.
pub fn device_status_rank(status: DeviceStatus) -> (r: u8)
    ensures
        r as nat == status_rank(status),
{
    match status {
        DeviceStatus::Pending => 0,
        DeviceStatus::InUse => 1,
        DeviceStatus::Available => 2,
    }
}

/// The text of an optional string (empty when absent).
pub open spec fn opt_text(v: Option<String>) -> Seq<char> {
    match v {
        Some(s) => s@,
        None => Seq::empty(),
    }
}

/// The text of an optional string slice (empty when absent).
pub open spec fn opt_str_text(v: Option<&str>) -> Seq<char> {
    match v {
        Some(s) => s@,
        None => Seq::empty(),
    }
}

/// The form in which a text column is compared: trimmed, ASCII letters in lower case.
pub open spec fn sort_key_text(t: Seq<char>) -> Seq<char> {
    lower_text(trim(t))
}

/// `value.unwrap_or("").trim().to_ascii_lowercase()`.
pub fn normalize_sort_text(value: Option<&str>) -> (r: String)
    ensures
        r@ == sort_key_text(opt_str_text(value)),
{
    let chars = match value {
        Some(s) => chars_of(s),
        None => Vec::new(),
    };
    assert(chars@ =~= opt_str_text(value));
    string_from_chars(&lower_chars(&trim_chars(&chars)))
}

fn compare_chars(a: &Vec<char>, b: &Vec<char>) -> (r: Order)
    ensures
        r == lex_order(a@, b@),
{
    let mut i: usize = 0;
    assert(a@.skip(0) =~= a@);
    assert(b@.skip(0) =~= b@);
    while i < a.len() && i < b.len()
        invariant
            i <= a.len(),
            i <= b.len(),
            lex_order(a@, b@) == lex_order(a@.skip(i as int), b@.skip(i as int)),
        decreases a.len() - i,
    {
        assert(a@.skip(i as int)[0] == a@[i as int]);
        assert(b@.skip(i as int)[0] == b@[i as int]);
        if a[i] < b[i] {
            return Order::Less;
        }
        if a[i] > b[i] {
            return Order::Greater;
        }
        assert(a@.skip(i as int).drop_first() =~= a@.skip(i + 1));
        assert(b@.skip(i as int).drop_first() =~= b@.skip(i + 1));
        i = i + 1;
    }
    if i < a.len() {
        Order::Greater
    } else if i < b.len() {
        Order::Less
    } else {
        Order::Equal
    }
}

/// Compares two optional texts as the table does: absent counts as empty, and texts
/// are compared trimmed and with ASCII letters in lower case.
pub fn compare_optional_text(left: Option<&str>, right: Option<&str>) -> (r: Order)
    ensures
        r == lex_order(sort_key_text(opt_str_text(left)), sort_key_text(opt_str_text(right))),
{
    let l = normalize_sort_text(left);
    let r = normalize_sort_text(right);
    compare_chars(&chars_of(l.as_str()), &chars_of(r.as_str()))
}

/// How two records compare in one column.
pub open spec fn column_order(l: ScanRecord, r: ScanRecord, column: SortColumn) -> Order {
    match column {
        SortColumn::Ip => nat_order(l.ip.value(), r.ip.value()),
        SortColumn::Status => nat_order(status_rank(l.status), status_rank(r.status)),
        SortColumn::Mac => lex_order(sort_key_text(opt_text(l.mac)), sort_key_text(opt_text(r.mac))),
        SortColumn::Vendor => lex_order(
            sort_key_text(opt_text(l.vendor)),
            sort_key_text(opt_text(r.vendor)),
        ),
        SortColumn::Hostname => lex_order(
            sort_key_text(opt_text(l.hostname)),
            sort_key_text(opt_text(r.hostname)),
        ),
    }
}

fn as_opt_str(v: &Option<String>) -> (r: Option<&str>)
    ensures
        opt_str_text(r) == opt_text(*v),
{
    match v {
        Some(s) => Some(s.as_str()),
        None => None,
    }
}

/// Compares two records in one column.
pub fn compare_records(left: &ScanRecord, right: &ScanRecord, column: SortColumn) -> (r: Order)
    ensures
        r == column_order(*left, *right, column),
{
    match column {
        SortColumn::Ip => {
            let a = ipv4_sort_key(left.ip);
            let b = ipv4_sort_key(right.ip);
            if a < b {
                Order::Less
            } else if a == b {
                Order::Equal
            } else {
                Order::Greater
            }
        },
        SortColumn::Status => {
            let a = device_status_rank(left.status);
            let b = device_status_rank(right.status);
            if a < b {
                Order::Less
            } else if a == b {
                Order::Equal
            } else {
                Order::Greater
            }
        },
        SortColumn::Mac => compare_optional_text(as_opt_str(&left.mac), as_opt_str(&right.mac)),
        SortColumn::Vendor => compare_optional_text(
            as_opt_str(&left.vendor),
            as_opt_str(&right.vendor),
        ),
        SortColumn::Hostname => compare_optional_text(
            as_opt_str(&left.hostname),
            as_opt_str(&right.hostname),
        ),
    }
}

/// The order of the table: by the column, ties broken by address, reversed when descending.
pub open spec fn record_order(l: ScanRecord, r: ScanRecord, column: SortColumn, ascending: bool) -> Order {
    let o = column_order(l, r, column);
    let o = if o == Order::Equal {
        column_order(l, r, SortColumn::Ip)
    } else {
        o
    };
    if ascending {
        o
    } else {
        reverse_order(o)
    }
}

pub open spec fn record_le(l: ScanRecord, r: ScanRecord, column: SortColumn, ascending: bool) -> bool {
    record_order(l, r, column, ascending) != Order::Greater
}

/// Each record comes no later in the table's order than the ones after it.
pub open spec fn sorted_records(s: Seq<ScanRecord>, column: SortColumn, ascending: bool) -> bool {
    forall|i: int, j: int|
        0 <= i < j < s.len() ==> record_le(#[trigger] s[i], #[trigger] s[j], column, ascending)
}

pub proof fn lemma_column_order_facts(x: ScanRecord, y: ScanRecord, z: ScanRecord, column: SortColumn)
    ensures
        column_order(y, x, column) == reverse_order(column_order(x, y, column)),
        chains(column_order(x, y, column), column_order(y, z, column), column_order(x, z, column)),
{
    match column {
        SortColumn::Mac => {
            lemma_lex_order_flip(sort_key_text(opt_text(x.mac)), sort_key_text(opt_text(y.mac)));
            lemma_lex_order_chains(
                sort_key_text(opt_text(x.mac)),
                sort_key_text(opt_text(y.mac)),
                sort_key_text(opt_text(z.mac)),
            );
        },
        SortColumn::Vendor => {
            lemma_lex_order_flip(sort_key_text(opt_text(x.vendor)), sort_key_text(opt_text(y.vendor)));
            lemma_lex_order_chains(
                sort_key_text(opt_text(x.vendor)),
                sort_key_text(opt_text(y.vendor)),
                sort_key_text(opt_text(z.vendor)),
            );
        },
        SortColumn::Hostname => {
            lemma_lex_order_flip(
                sort_key_text(opt_text(x.hostname)),
                sort_key_text(opt_text(y.hostname)),
            );
            lemma_lex_order_chains(
                sort_key_text(opt_text(x.hostname)),
                sort_key_text(opt_text(y.hostname)),
                sort_key_text(opt_text(z.hostname)),
            );
        },
        _ => {},
    }
}

/// The table's order is total and transitive.
pub proof fn lemma_record_order_facts(
    x: ScanRecord,
    y: ScanRecord,
    z: ScanRecord,
    column: SortColumn,
    ascending: bool,
)
    ensures
        record_order(y, x, column, ascending) == reverse_order(record_order(x, y, column, ascending)),
        record_le(x, y, column, ascending) || record_le(y, x, column, ascending),
        record_le(x, y, column, ascending) && record_le(y, z, column, ascending) ==> record_le(
            x,
            z,
            column,
            ascending,
        ),
{
    lemma_column_order_facts(x, y, z, column);
    lemma_column_order_facts(z, y, x, column);
    lemma_column_order_facts(x, z, y, column);
    lemma_column_order_facts(y, x, z, column);
    lemma_column_order_facts(x, y, z, SortColumn::Ip);
    lemma_column_order_facts(z, y, x, SortColumn::Ip);
    lemma_column_order_facts(x, z, y, SortColumn::Ip);
    lemma_column_order_facts(y, x, z, SortColumn::Ip);
}

/// The table's order: by the chosen column, records that tie there by address, and the
/// whole order reversed when descending; two records tie only when they share the column
/// value and the address.
pub proof fn table_order_breaks_ties_by_address(
    l: ScanRecord,
    r: ScanRecord,
    column: SortColumn,
    ascending: bool,
)
    ensures
        column_order(l, r, column) != Order::Equal ==> record_order(l, r, column, true)
            == column_order(l, r, column),
        column_order(l, r, column) == Order::Equal ==> record_order(l, r, column, true)
            == column_order(l, r, SortColumn::Ip),
        record_order(l, r, column, false) == record_order(r, l, column, true),
        record_order(l, r, column, ascending) == Order::Equal ==> l.ip == r.ip,
{
    lemma_record_order_facts(l, r, r, column, true);
    if record_order(l, r, column, ascending) == Order::Equal {
        crate::ipv4::ipv4_value_round_trip(l.ip);
        crate::ipv4::ipv4_value_round_trip(r.ip);
    }
}

/// Whether `x` may stand before `y` when a table is sorted ascending by `column`: by
/// address number, by status (checking, in use, available), or by the trimmed,
/// lower-cased text of the column.
pub open spec fn may_precede(x: ScanRecord, y: ScanRecord, column: SortColumn) -> bool {
    match column {
        SortColumn::Ip => x.ip.value() <= y.ip.value(),
        SortColumn::Status => !(x.status == DeviceStatus::Available && y.status != DeviceStatus::Available)
            && !(x.status == DeviceStatus::InUse && y.status == DeviceStatus::Pending),
        SortColumn::Mac => !text_precedes(column_key(y.mac), column_key(x.mac)),
        SortColumn::Vendor => !text_precedes(column_key(y.vendor), column_key(x.vendor)),
        SortColumn::Hostname => !text_precedes(column_key(y.hostname), column_key(x.hostname)),
    }
}

/// A sorted table follows its column: ascending, no record stands before one whose value
/// in the column comes earlier; descending, the other way round.
pub proof fn sorted_tables_follow_their_column(s: Seq<ScanRecord>, column: SortColumn, ascending: bool)
    requires
        sorted_records(s, column, ascending),
    ensures
        forall|i: int, j: int|
            0 <= i < j < s.len() ==> (if ascending {
                may_precede(#[trigger] s[i], #[trigger] s[j], column)
            } else {
                may_precede(s[j], s[i], column)
            }),
{
    assert forall|i: int, j: int| 0 <= i < j < s.len() implies (if ascending {
        may_precede(#[trigger] s[i], #[trigger] s[j], column)
    } else {
        may_precede(s[j], s[i], column)
    }) by {
        let (x, y) = if ascending { (s[i], s[j]) } else { (s[j], s[i]) };
        assert(record_le(s[i], s[j], column, ascending));
        table_order_breaks_ties_by_address(s[i], s[j], column, ascending);
        table_order_breaks_ties_by_address(s[j], s[i], column, ascending);
        lemma_column_order_facts(x, y, y, column);
        assert(column_order(x, y, column) != Order::Greater);
        text_columns_sort_by_their_text(x, y);
        address_and_status_columns_sort_by_value(x, y);
        lemma_lex_order_is_text_order(column_key(x.mac), column_key(y.mac));
        lemma_lex_order_is_text_order(column_key(x.vendor), column_key(y.vendor));
        lemma_lex_order_is_text_order(column_key(x.hostname), column_key(y.hostname));
        lemma_lex_order_is_text_order(column_key(y.mac), column_key(x.mac));
        lemma_lex_order_is_text_order(column_key(y.vendor), column_key(x.vendor));
        lemma_lex_order_is_text_order(column_key(y.hostname), column_key(x.hostname));
    }
}

fn merge(a: &Vec<ScanRecord>, b: &Vec<ScanRecord>, column: SortColumn, ascending: bool) -> (out: Vec<
    ScanRecord,
>)
    requires
        sorted_records(a@, column, ascending),
        sorted_records(b@, column, ascending),
    ensures
        sorted_records(out@, column, ascending),
        out@.to_multiset() == a@.to_multiset().add(b@.to_multiset()),
{
    let mut out: Vec<ScanRecord> = Vec::new();
    let mut i: usize = 0;
    let mut j: usize = 0;
    assert(a@.take(0) =~= Seq::<ScanRecord>::empty());
    assert(b@.take(0) =~= Seq::<ScanRecord>::empty());
    while i < a.len() || j < b.len()
        invariant
            i <= a.len(),
            j <= b.len(),
            sorted_records(a@, column, ascending),
            sorted_records(b@, column, ascending),
            sorted_records(out@, column, ascending),
            out@.to_multiset() == a@.take(i as int).to_multiset().add(b@.take(j as int).to_multiset()),
            forall|p: int, k: int|
                0 <= p < out.len() && i <= k < a.len() ==> record_le(
                    #[trigger] out@[p],
                    #[trigger] a@[k],
                    column,
                    ascending,
                ),
            forall|p: int, k: int|
                0 <= p < out.len() && j <= k < b.len() ==> record_le(
                    #[trigger] out@[p],
                    #[trigger] b@[k],
                    column,
                    ascending,
                ),
        decreases a.len() + b.len() - i - j,
    {
        let take_left = if i < a.len() && j < b.len() {
            let o = compare_records(&a[i], &b[j], column);
            let o = if o == Order::Equal {
                compare_records(&a[i], &b[j], SortColumn::Ip)
            } else {
                o
            };
            if ascending {
                o != Order::Greater
            } else {
                o != Order::Less
            }
        } else {
            i < a.len()
        };
        if take_left {
            let x = a[i].copy();
            proof {
                assert(a@.take(i + 1) =~= a@.take(i as int).push(a@[i as int]));
                assert forall|k: int| j <= k < b.len() implies record_le(x, #[trigger] b@[k], column, ascending) by {
                    if j < b.len() {
                        lemma_record_order_facts(x, b@[j as int], b@[k], column, ascending);
                        if k > j {
                            assert(record_le(b@[j as int], b@[k], column, ascending));
                        }
                    }
                }
                assert forall|k: int| i + 1 <= k < a.len() implies record_le(x, #[trigger] a@[k], column, ascending) by {
                    assert(record_le(a@[i as int], a@[k], column, ascending));
                }
            }
            out.push(x);
            i = i + 1;
        } else {
            let x = b[j].copy();
            proof {
                assert(b@.take(j + 1) =~= b@.take(j as int).push(b@[j as int]));
                lemma_record_order_facts(a@[i as int], x, x, column, ascending);
                assert forall|k: int| i <= k < a.len() implies record_le(x, #[trigger] a@[k], column, ascending) by {
                    lemma_record_order_facts(x, a@[i as int], a@[k], column, ascending);
                    if k > i {
                        assert(record_le(a@[i as int], a@[k], column, ascending));
                    }
                }
                assert forall|k: int| j + 1 <= k < b.len() implies record_le(x, #[trigger] b@[k], column, ascending) by {
                    assert(record_le(b@[j as int], b@[k], column, ascending));
                }
            }
            out.push(x);
            j = j + 1;
        }
    }
    assert(a@.take(a.len() as int) =~= a@);
    assert(b@.take(b.len() as int) =~= b@);
    out
}

fn merge_sort(v: Vec<ScanRecord>, column: SortColumn, ascending: bool) -> (r: Vec<ScanRecord>)
    ensures
        sorted_records(r@, column, ascending),
        r@.to_multiset() == v@.to_multiset(),
    decreases v.len(),
{
    if v.len() <= 1 {
        return v;
    }
    let ghost whole = v@;
    let mut left = v;
    let mid = left.len() / 2;
    let right = left.split_off(mid);
    proof {
        assert(whole =~= left@ + right@);
        vstd::seq_lib::lemma_multiset_commutative(left@, right@);
    }
    let l = merge_sort(left, column, ascending);
    let r = merge_sort(right, column, ascending);
    merge(&l, &r, column, ascending)
}

/// Sorts records in the table's order for `column` (ties broken by address; reversed
/// when not ascending), keeping every record.
pub fn sort_records(records: &mut Vec<ScanRecord>, column: SortColumn, ascending: bool)
    ensures
        sorted_records(final(records)@, column, ascending),
        final(records)@.to_multiset() == old(records)@.to_multiset(),
{
    let mut taken: Vec<ScanRecord> = Vec::new();
    std::mem::swap(records, &mut taken);
    let sorted = merge_sort(taken, column, ascending);
    *records = sorted;
}

/// A text cut to `max` characters, with `...` after it when something was cut.
pub open spec fn truncated(t: Seq<char>, max: nat) -> Seq<char> {
    if t.len() <= max {
        t
    } else {
        t.take(max as int) + seq!['.', '.', '.']
    }
}

/// Cuts a text to `max_chars` characters for a grid cell, marking the cut with `...`.
pub fn truncate_for_grid(text: &str, max_chars: usize) -> (r: String)
    ensures
        r@ == truncated(text@, max_chars as nat),
{
    let chars = chars_of(text);
    if chars.len() <= max_chars {
        return string_from_chars(&chars);
    }
    let mut out = slice_chars(&chars, 0, max_chars);
    out.push('.');
    out.push('.');
    out.push('.');
    assert(out@ =~= truncated(text@, max_chars as nat));
    string_from_chars(&out)
}

/// A grid text is cut only when it is longer than `max` characters: then its first `max`
/// characters are kept and `...` follows; a shorter text stays whole.
pub proof fn grid_text_keeps_its_beginning(t: Seq<char>, max: nat)
    ensures
        t.len() <= max ==> truncated(t, max) == t,
        t.len() > max ==> {
            &&& truncated(t, max).len() == max + 3
            &&& forall|i: int| 0 <= i < max ==> #[trigger] truncated(t, max)[i] == t[i]
            &&& truncated(t, max)[max as int] == '.'
            &&& truncated(t, max)[max + 1int] == '.'
            &&& truncated(t, max)[max + 2int] == '.'
        },
{
}

/// The second line of a grid cell before it is cut: the host name, else the vendor,
/// else the MAC address, else the status label.
pub open spec fn grid_detail(record: ScanRecord, language: Language) -> Seq<char> {
    match record.hostname {
        Some(h) => h@,
        None => match record.vendor {
            Some(v) => v@,
            None => match record.mac {
                Some(m) => m@,
                None => record.status.label_spec(language)@,
            },
        },
    }
}

/// The second line of a record's grid cell, cut to eight characters.
pub fn grid_secondary_text(record: &ScanRecord, language: Language) -> (r: String)
    ensures
        r@ == truncated(grid_detail(*record, language), 8),
{
    let text: &str = match &record.hostname {
        Some(h) => h.as_str(),
        None => match &record.vendor {
            Some(v) => v.as_str(),
            None => match &record.mac {
                Some(m) => m.as_str(),
                None => record.status.label(language),
            },
        },
    };
    truncate_for_grid(text, 8)
}

/// A grid cell's second line names the device as well as it can: by its host name when
/// known, else its vendor, else its MAC address, else its status label.
pub proof fn grid_detail_prefers_names(record: ScanRecord, language: Language)
    ensures
        record.hostname matches Some(h) ==> grid_detail(record, language) == h@,
        record.hostname is None ==> (record.vendor matches Some(v) ==> grid_detail(record, language)
            == v@),
        record.hostname is None && record.vendor is None ==> (record.mac matches Some(m)
            ==> grid_detail(record, language) == m@),
        record.hostname is None && record.vendor is None && record.mac is None ==> grid_detail(
            record,
            language,
        ) == record.status.label_spec(language)@,
{
}

/// The text of an optional field in a table or export: the value, or `-`.
pub open spec fn field_text(v: Option<String>) -> Seq<char> {
    match v {
        Some(s) => s@,
        None => seq!['-'],
    }
}

fn field_string(v: &Option<String>, language: Language) -> (r: String)
    ensures
        r@ == field_text(*v),
{
    match v {
        Some(s) => s.clone(),
        None => {
            let dash = language.no_value();
            proof {
                reveal_strlit("-");
            }
            let r = String::from_str(dash);
            assert(r@ =~= seq!['-']);
            r
        },
    }
}

/// The texts of a list of strings.
pub open spec fn texts_of(v: Seq<String>) -> Seq<Seq<char>> {
    v.map_values(|s: String| s@)
}

/// The cells of one exported row: address, status, MAC, vendor, host name.
pub open spec fn export_row_texts(record: ScanRecord, language: Language) -> Seq<Seq<char>> {
    seq![
        ipv4_text(record.ip),
        record.status.label_spec(language)@,
        field_text(record.mac),
        field_text(record.vendor),
        field_text(record.hostname),
    ]
}

/// The cells of a record's row in a CSV or Excel export, in the order of
/// `Language::export_headers`.
pub fn export_row(record: &ScanRecord, language: Language) -> (r: Vec<String>)
    ensures
        texts_of(r@) == export_row_texts(*record, language),
{
    let mut r: Vec<String> = Vec::new();
    r.push(crate::ipv4::format_ipv4(record.ip));
    r.push(String::from_str(record.status.label(language)));
    r.push(field_string(&record.mac, language));
    r.push(field_string(&record.vendor, language));
    r.push(field_string(&record.hostname, language));
    assert(texts_of(r@) =~= export_row_texts(*record, language));
    r
}

/// An exported row lines up with `Language::export_headers`: under the address, status,
/// MAC, vendor and host-name titles stand the record's address, its status label, its
/// MAC address, its vendor and its host name, each missing value written as `-`.
pub proof fn export_row_follows_the_headers(record: ScanRecord, language: Language)
    ensures
        export_row_texts(record, language).len() == 5,
        export_row_texts(record, language)[0] == ipv4_text(record.ip),
        export_row_texts(record, language)[1] == record.status.label_spec(language)@,
        export_row_texts(record, language)[2] == (match record.mac {
            Some(m) => m@,
            None => seq!['-'],
        }),
        export_row_texts(record, language)[3] == (match record.vendor {
            Some(v) => v@,
            None => seq!['-'],
        }),
        export_row_texts(record, language)[4] == (match record.hostname {
            Some(h) => h@,
            None => seq!['-'],
        }),
{
}

/// The texts of a list of strings are those strings' texts, one for one, in order.
pub proof fn texts_are_taken_one_for_one(v: Seq<String>)
    ensures
        texts_of(v).len() == v.len(),
        forall|i: int| 0 <= i < v.len() ==> #[trigger] texts_of(v)[i] == v[i]@,
{
}

/// Optional texts compare as the table compares them: trimmed, lower-cased, absent as
/// empty, in the order of `str`.
pub proof fn optional_texts_compare_by_their_key(a: Option<&str>, b: Option<&str>)
    ensures
        lex_order(sort_key_text(opt_str_text(a)), sort_key_text(opt_str_text(b)))
            == text_column_order(
            lower_text(trim(match a {
                Some(s) => s@,
                None => Seq::<char>::empty(),
            })),
            lower_text(trim(match b {
                Some(s) => s@,
                None => Seq::<char>::empty(),
            })),
        ),
{
    lemma_lex_order_is_text_order(sort_key_text(opt_str_text(a)), sort_key_text(opt_str_text(b)));
}

/// How many records have a status.
pub open spec fn count_status(s: Seq<ScanRecord>, status: DeviceStatus) -> nat
    decreases s.len(),
{
    if s.len() == 0 {
        0
    } else {
        count_status(s.drop_last(), status) + if s.last().status == status {
            1nat
        } else {
            0nat
        }
    }
}

/// The counts of the summary count records: the number of records with a status is the
/// number of positions that hold one.
pub proof fn status_counts_count_records(s: Seq<ScanRecord>, status: DeviceStatus)
    ensures
        count_status(s, status) == s.filter(|x: ScanRecord| x.status == status).len(),
    decreases s.len(),
{
    reveal(Seq::filter);
    if s.len() > 0 {
        status_counts_count_records(s.drop_last(), status);
    }
}

pub proof fn lemma_count_status_bound(s: Seq<ScanRecord>)
    ensures
        count_status(s, DeviceStatus::InUse) + count_status(s, DeviceStatus::Available) <= s.len(),
        count_status(s, DeviceStatus::InUse) <= s.len(),
        count_status(s, DeviceStatus::Available) <= s.len(),
    decreases s.len(),
{
    if s.len() > 0 {
        lemma_count_status_bound(s.drop_last());
    }
}

/// How many records have a status.
pub fn count_records(records: &Vec<ScanRecord>, status: DeviceStatus) -> (n: usize)
    ensures
        n as nat == count_status(records@, status),
{
    let mut n: usize = 0;
    for i in 0..records.len()
        invariant
            n as nat == count_status(records@.take(i as int), status),
            n <= i,
    {
        assert(records@.take(i + 1).drop_last() =~= records@.take(i as int));
        if records[i].status == status {
            n = n + 1;
        }
    }
    assert(records@.take(records.len() as int) =~= records@);
    n
}

/// The first position of a record for `ip`.
pub open spec fn position_of(s: Seq<ScanRecord>, ip: Ipv4) -> Option<int>
    decreases s.len(),
{
    if s.len() == 0 {
        None
    } else {
        match position_of(s.drop_last(), ip) {
            Some(i) => Some(i),
            None => if s.last().ip == ip {
                Some(s.len() - 1)
            } else {
                None
            },
        }
    }
}

pub proof fn lemma_position_of(s: Seq<ScanRecord>, ip: Ipv4)
    ensures
        match position_of(s, ip) {
            Some(i) => 0 <= i < s.len() && s[i].ip == ip && forall|j: int| 0 <= j < i ==> s[j].ip != ip,
            None => forall|j: int| 0 <= j < s.len() ==> s[j].ip != ip,
        },
    decreases s.len(),
{
    if s.len() > 0 {
        lemma_position_of(s.drop_last(), ip);
        assert forall|j: int| 0 <= j < s.len() - 1 implies s.drop_last()[j] == s[j] by {}
    }
}

/// The position of the first record for `ip`, if any.
pub fn find_record(records: &Vec<ScanRecord>, ip: Ipv4) -> (r: Option<usize>)
    ensures
        match r {
            Some(i) => position_of(records@, ip) == Some(i as int),
            None => position_of(records@, ip) == None::<int>,
        },
{
    for i in 0..records.len()
        invariant
            position_of(records@.take(i as int), ip) == None::<int>,
    {
        assert(records@.take(i + 1).drop_last() =~= records@.take(i as int));
        if records[i].ip == ip {
            proof {
                lemma_position_prefix(records@, ip, i + 1);
            }
            return Some(i);
        }
    }
    assert(records@.take(records.len() as int) =~= records@);
    None
}

proof fn lemma_position_prefix(s: Seq<ScanRecord>, ip: Ipv4, k: int)
    requires
        0 <= k <= s.len(),
        position_of(s.take(k), ip) is Some,
    ensures
        position_of(s, ip) == position_of(s.take(k), ip),
    decreases s.len() - k,
{
    if k < s.len() {
        assert(s.take(k + 1).drop_last() =~= s.take(k));
        lemma_position_prefix(s, ip, k + 1);
    } else {
        assert(s.take(k) =~= s);
    }
}

} // verus!
