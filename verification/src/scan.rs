//! The state of the scanner window and how it answers the user and the scan workers.
//! The window itself, the worker threads and the files are driven from outside; every
//! decision about the state is taken here.
use vstd::prelude::*;
use crate::ipv4::Ipv4;
use crate::language::{Language, IDLE_STATUS_TEXTS, NO_TARGETS_STATUS_TEXTS, STOP_REQUESTED_STATUS_TEXTS};
use crate::ipv4::ipv4_value_round_trip;
use crate::records::{
    lemma_count_status_bound, lemma_record_order_facts, record_le, record_order, Order, count_records, count_status, find_record, position_of, lemma_position_of, sort_records,
    sorted_records, DeviceStatus, ScanRecord, SortColumn,
};
use crate::settings::{AppSettings, ResultView};
use crate::targets::{
    ip_net_parse, normalize_range_input, normalize_range_spec, parse_targets_checked, target_error_message,
    target_error_text, targets_are_ascending, targets_spec, strictly_ascending,
};
use crate::text::trim;

verus! {

broadcast use vstd::seq_lib::group_to_multiset_ensures, vstd::multiset::group_multiset_axioms;

/// The range offered when nothing was remembered and no network was found.
pub const DEFAULT_RANGE: &'static str = "192.168.1.1-254";

/// What a scan worker reports.
pub enum WorkerMessage {
    /// The outcome of probing one address.
    Record(ScanRecord),
    /// The name found for an address in use.
    HostnameResolved { ip: Ipv4, hostname: Option<String> },
    /// All addresses were handled, or the scan was stopped.
    Finished { cancelled: bool },
    /// The workers could not start.
    Error(String),
}

/// No address occurs in two records.
pub open spec fn distinct_ips(s: Seq<ScanRecord>) -> bool {
    forall|i: int, j: int| 0 <= i < j < s.len() ==> s[i].ip != s[j].ip
}

/// The records after a probe result: it replaces the record of its address, or is added.
pub open spec fn upsert(s: Seq<ScanRecord>, r: ScanRecord) -> Seq<ScanRecord> {
    match position_of(s, r.ip) {
        Some(i) => s.update(i, r),
        None => s.push(r),
    }
}

/// The records after a name lookup: the record of the address gets the name.
pub open spec fn with_hostname(s: Seq<ScanRecord>, ip: Ipv4, hostname: Option<String>) -> Seq<
    ScanRecord,
> {
    match position_of(s, ip) {
        Some(i) => s.update(i, ScanRecord { hostname: hostname, ..s[i] }),
        None => s,
    }
}

/// The record with which every target starts.
pub open spec fn pending_record(ip: Ipv4) -> ScanRecord {
    ScanRecord { ip: ip, status: DeviceStatus::Pending, mac: None, vendor: None, hostname: None }
}

/// A probe result takes the place of the record of its address, leaving the others as
/// they were; a result for an address without a record is added at the end.
pub proof fn probe_results_replace_their_record(s: Seq<ScanRecord>, r: ScanRecord)
    requires
        distinct_ips(s),
    ensures
        forall|j: int|
            0 <= j < s.len() && s[j].ip == r.ip ==> upsert(s, r) == s.update(j, r),
        (forall|j: int| 0 <= j < s.len() ==> s[j].ip != r.ip) ==> upsert(s, r) == s.push(r),
        distinct_ips(upsert(s, r)),
{
    lemma_position_of(s, r.ip);
    assert forall|j: int| 0 <= j < s.len() && s[j].ip == r.ip implies upsert(s, r) == s.update(j, r) by {
        let p = position_of(s, r.ip)->0;
        if p != j {
            if p < j {
                assert(s[p].ip != s[j].ip);
            } else {
                assert(s[j].ip != s[p].ip);
            }
        }
    }
    let u = upsert(s, r);
    assert forall|a: int, b: int| 0 <= a < b < u.len() implies u[a].ip != u[b].ip by {
        match position_of(s, r.ip) {
            Some(p) => {
                assert(s[a].ip != s[b].ip);
            },
            None => {
                if b < s.len() {
                    assert(s[a].ip != s[b].ip);
                }
            },
        }
    }
}

/// A name found for an address goes to the record of that address and nowhere else; all
/// other fields stay.
pub proof fn names_go_to_their_record(s: Seq<ScanRecord>, ip: Ipv4, hostname: Option<String>)
    requires
        distinct_ips(s),
    ensures
        with_hostname(s, ip, hostname).len() == s.len(),
        forall|j: int|
            0 <= j < s.len() ==> {
                let n = #[trigger] with_hostname(s, ip, hostname)[j];
                &&& n.ip == s[j].ip
                &&& n.status == s[j].status
                &&& n.mac == s[j].mac
                &&& n.vendor == s[j].vendor
                &&& n.hostname == (if s[j].ip == ip {
                    hostname
                } else {
                    s[j].hostname
                })
            },
{
    lemma_position_of(s, ip);
    assert forall|j: int| 0 <= j < s.len() implies {
        let n = #[trigger] with_hostname(s, ip, hostname)[j];
        &&& n.ip == s[j].ip
        &&& n.status == s[j].status
        &&& n.mac == s[j].mac
        &&& n.vendor == s[j].vendor
        &&& n.hostname == (if s[j].ip == ip {
            hostname
        } else {
            s[j].hostname
        })
    } by {
        if let Some(p) = position_of(s, ip) {
            if p != j && s[j].ip == ip {
                if p < j {
                    assert(s[p].ip != s[j].ip);
                } else {
                    assert(s[j].ip != s[p].ip);
                }
            }
        }
    }
}

/// Every target starts as a record of its address that is still being checked and
/// knows no MAC address, vendor or name.
pub proof fn targets_start_pending(ip: Ipv4)
    ensures
        pending_record(ip).ip == ip,
        pending_record(ip).status == DeviceStatus::Pending,
        pending_record(ip).mac is None,
        pending_record(ip).vendor is None,
        pending_record(ip).hostname is None,
{
}

/// The texts of a list of strings.
pub open spec fn string_texts(v: Seq<String>) -> Seq<Seq<char>> {
    v.map_values(|s: String| s@)
}

/// The range shown at start: the remembered one unless it is blank, else the first
/// suggested range, else `192.168.1.1-254`.
pub open spec fn initial_range_input(last_range: Seq<char>, presets: Seq<Seq<char>>) -> Seq<char> {
    if trim(last_range).len() > 0 {
        last_range
    } else if presets.len() > 0 {
        presets[0]
    } else {
        DEFAULT_RANGE@
    }
}

/// Two record lists hold the same records, each as often.
pub open spec fn same_records(a: Seq<ScanRecord>, b: Seq<ScanRecord>) -> bool {
    a.to_multiset() == b.to_multiset()
}

/// Reordering keeps addresses distinct.
pub proof fn lemma_permutation_keeps_distinct_ips(a: Seq<ScanRecord>, b: Seq<ScanRecord>)
    requires
        same_records(a, b),
        distinct_ips(a),
    ensures
        distinct_ips(b),
{
    assert(a.no_duplicates()) by {
        assert forall|i: int, j: int| 0 <= i < a.len() && 0 <= j < a.len() && i != j implies a[i]
            != a[j] by {
            if i < j {
                assert(a[i].ip != a[j].ip);
            } else {
                assert(a[j].ip != a[i].ip);
            }
        }
    }
    a.lemma_multiset_has_no_duplicates();
    b.lemma_multiset_has_no_duplicates_conv();
    assert forall|i: int, j: int| 0 <= i < j < b.len() implies b[i].ip != b[j].ip by {
        assert(b[i] != b[j]);
        assert(b.to_multiset().count(b[i]) > 0);
        assert(b.to_multiset().count(b[j]) > 0);
        assert(a.contains(b[i]));
        assert(a.contains(b[j]));
        let p = choose|p: int| 0 <= p < a.len() && a[p] == b[i];
        let q = choose|q: int| 0 <= q < a.len() && a[q] == b[j];
        if b[i].ip == b[j].ip {
            assert(p != q);
            if p < q {
                assert(a[p].ip != a[q].ip);
            } else {
                assert(a[q].ip != a[p].ip);
            }
        }
    }
}

/// Records with distinct addresses leave no ties in the table's order: two sorted
/// arrangements of the same records are the same list, so a sort has one outcome.
pub proof fn sorted_arrangement_is_unique(
    a: Seq<ScanRecord>,
    b: Seq<ScanRecord>,
    column: SortColumn,
    ascending: bool,
)
    requires
        sorted_records(a, column, ascending),
        sorted_records(b, column, ascending),
        same_records(a, b),
        distinct_ips(a),
    ensures
        a == b,
    decreases a.len(),
{
    lemma_permutation_keeps_distinct_ips(a, b);
    if a.len() == 0 {
        assert(a.to_multiset().len() == 0);
        assert(b.to_multiset().len() == b.len());
        assert(b =~= a);
        return;
    }
    assert(a.to_multiset().len() == a.len());
    assert(b.to_multiset().len() == b.len());
    let x = a[0];
    let y = b[0];
    assert(a.to_multiset().count(x) > 0);
    assert(b.contains(x));
    let k = choose|k: int| 0 <= k < b.len() && b[k] == x;
    assert(b.to_multiset().count(y) > 0);
    assert(a.contains(y));
    let m = choose|m: int| 0 <= m < a.len() && a[m] == y;
    if k > 0 {
        assert(record_le(b[0], b[k], column, ascending));
    }
    if m > 0 {
        assert(record_le(a[0], a[m], column, ascending));
    }
    lemma_record_order_facts(x, y, y, column, ascending);
    assert(record_order(x, y, column, ascending) == Order::Equal);
    assert(x.ip.value() == y.ip.value());
    ipv4_value_round_trip(x.ip);
    ipv4_value_round_trip(y.ip);
    assert(x.ip == y.ip);
    if k != 0 {
        assert(b[0].ip != b[k].ip);
    }
    assert(x == y);
    let a1 = a.drop_first();
    let b1 = b.drop_first();
    assert(a1 =~= a.remove(0));
    assert(b1 =~= b.remove(0));
    assert(same_records(a1, b1));
    assert(sorted_records(a1, column, ascending)) by {
        assert forall|i: int, j: int| 0 <= i < j < a1.len() implies record_le(
            #[trigger] a1[i],
            #[trigger] a1[j],
            column,
            ascending,
        ) by {
            assert(a1[i] == a[i + 1] && a1[j] == a[j + 1]);
        }
    }
    assert(sorted_records(b1, column, ascending)) by {
        assert forall|i: int, j: int| 0 <= i < j < b1.len() implies record_le(
            #[trigger] b1[i],
            #[trigger] b1[j],
            column,
            ascending,
        ) by {
            assert(b1[i] == b[i + 1] && b1[j] == b[j + 1]);
        }
    }
    assert(distinct_ips(a1)) by {
        assert forall|i: int, j: int| 0 <= i < j < a1.len() implies a1[i].ip != a1[j].ip by {
            assert(a1[i] == a[i + 1] && a1[j] == a[j + 1]);
        }
    }
    sorted_arrangement_is_unique(a1, b1, column, ascending);
    assert(a =~= seq![x] + a1);
    assert(b =~= seq![y] + b1);
}

/// The summary never counts more devices in use and free addresses together than there
/// are targets.
pub proof fn summary_counts_fit_targets(s: ScanState)
    ensures
        count_status(s.records@, DeviceStatus::InUse) + count_status(s.records@, DeviceStatus::Available)
            <= s.records@.len() <= s.target_count_spec(),
{
    lemma_count_status_bound(s.records@);
}

/// The sort order after a click on the title of `clicked`: the same column flips the
/// direction, another column sorts ascending by it.
pub open spec fn toggled_sort(column: SortColumn, ascending: bool, clicked: SortColumn) -> (
    SortColumn,
    bool,
) {
    if column == clicked {
        (column, !ascending)
    } else {
        (clicked, true)
    }
}

/// Two clicks on the title of the column the table is sorted by bring back the direction
/// it had; a click on another column always sorts ascending.
pub proof fn toggle_sort_twice_restores_order(column: SortColumn, ascending: bool, clicked: SortColumn)
    ensures
        column == clicked ==> {
            let once = toggled_sort(column, ascending, clicked);
            toggled_sort(once.0, once.1, clicked) == (column, ascending)
        },
        column != clicked ==> toggled_sort(column, ascending, clicked) == (clicked, true),
{
}

/// The most worker threads a scan uses.
pub const MAX_SCAN_THREADS: usize = 256;

/// The number of worker threads for a scan of `total_targets` addresses: one per target,
/// at least one and at most 256.
pub fn worker_thread_count(total_targets: usize) -> (n: usize)
    ensures
        n == (if total_targets < 1 {
            1
        } else if total_targets > MAX_SCAN_THREADS {
            MAX_SCAN_THREADS
        } else {
            total_targets
        }),
{
    if total_targets < 1 {
        1
    } else if total_targets > MAX_SCAN_THREADS {
        MAX_SCAN_THREADS
    } else {
        total_targets
    }
}

/// Whether a worker looks up the name of a probed host: when names were asked for and
/// the host is in use.
pub fn wants_hostname(resolve_hostnames: bool, status: DeviceStatus) -> (r: bool)
    ensures
        r == (resolve_hostnames && status == DeviceStatus::InUse),
{
    resolve_hostnames && status == DeviceStatus::InUse
}

/// The mark after a column title: `▲` or `▼` on the column the table is sorted by,
/// for ascending or descending order, nothing on the others.
pub fn sort_header_suffix(sort_column: SortColumn, ascending: bool, column: SortColumn) -> (r:
    &'static str)
    ensures
        r@ == (if sort_column != column {
            ""@
        } else if ascending {
            " ▲"@
        } else {
            " ▼"@
        }),
{
    if sort_column == column {
        if ascending {
            " ▲"
        } else {
            " ▼"
        }
    } else {
        ""
    }
}

/// The state of the scanner window.
pub struct ScanState {
    pub language: Language,
    pub ip_range_input: String,
    pub range_presets: Vec<String>,
    pub records: Vec<ScanRecord>,
    pub status_line: String,
    pub total_targets: usize,
    pub is_scanning: bool,
    pub sort_column: SortColumn,
    pub sort_ascending: bool,
    pub result_view: ResultView,
    pub resolve_hostnames: bool,
    pub selected_ip: Option<Ipv4>,
}

impl ScanState {
    /// The records never hold an address twice.
    pub open spec fn wf(&self) -> bool {
        distinct_ips(self.records@)
    }

    /// Whether a new result has to be sorted in (the records are kept in ascending
    /// address order otherwise).
    pub open spec fn needs_resort(&self) -> bool {
        self.sort_column != SortColumn::Ip || !self.sort_ascending
    }

    /// The number of targets the summary shows.
    pub open spec fn target_count_spec(&self) -> nat {
        if self.total_targets >= self.records@.len() {
            self.total_targets as nat
        } else {
            self.records@.len()
        }
    }

    /// The state at start, from the remembered settings and the suggested ranges.
    pub fn new(saved: AppSettings, range_presets: Vec<String>) -> (s: ScanState)
        ensures
            s.wf(),
            s.records@.len() == 0,
            s.ip_range_input@ == initial_range_input(
                saved.last_range@,
                string_texts(range_presets@),
            ),
            s.range_presets == range_presets,
            s.language == saved.language,
            s.result_view == saved.result_view,
            s.resolve_hostnames == saved.resolve_hostnames,
            s.status_line@ == IDLE_STATUS_TEXTS@[saved.language.slot_spec()]@,
            s.total_targets == 0,
            !s.is_scanning,
            s.sort_column == SortColumn::Ip,
            s.sort_ascending,
            s.selected_ip is None,
    {
        let trimmed = crate::text::trim_str(saved.last_range.as_str());
        let ip_range_input = if trimmed.len() > 0 {
            saved.last_range
        } else if range_presets.len() > 0 {
            range_presets[0].clone()
        } else {
            String::from_str(DEFAULT_RANGE)
        };
        let status_line = String::from_str(saved.language.idle_status());
        ScanState {
            language: saved.language,
            ip_range_input,
            range_presets,
            records: Vec::new(),
            status_line,
            total_targets: 0,
            is_scanning: false,
            sort_column: SortColumn::Ip,
            sort_ascending: true,
            result_view: saved.result_view,
            resolve_hostnames: saved.resolve_hostnames,
            selected_ip: None,
        }
    }

    /// The number of targets: the planned total, or more if more records came in.
    pub fn scan_target_count(&self) -> (n: usize)
        ensures
            n as nat == self.target_count_spec(),
    {
        if self.total_targets >= self.records.len() {
            self.total_targets
        } else {
            self.records.len()
        }
    }

    /// The number of devices found in use.
    pub fn active_count(&self) -> (n: usize)
        ensures
            n as nat == count_status(self.records@, DeviceStatus::InUse),
    {
        count_records(&self.records, DeviceStatus::InUse)
    }

    /// The number of addresses found free.
    pub fn available_count(&self) -> (n: usize)
        ensures
            n as nat == count_status(self.records@, DeviceStatus::Available),
    {
        count_records(&self.records, DeviceStatus::Available)
    }

    /// Sorts the records in the current order.
    pub fn sort_records(&mut self)
        requires
            old(self).wf(),
        ensures
            final(self).wf(),
            sorted_records(final(self).records@, final(self).sort_column, final(self).sort_ascending),
            same_records(final(self).records@, old(self).records@),
            *final(self) == (ScanState { records: final(self).records, ..*old(self) }),
    {
        let column = self.sort_column;
        let ascending = self.sort_ascending;
        sort_records(&mut self.records, column, ascending);
        proof {
            lemma_permutation_keeps_distinct_ips(old(self).records@, self.records@);
        }
    }

    /// A click on a column title: the same column flips the direction, another column
    /// sorts ascending by it; the records are sorted again.
    pub fn toggle_sort(&mut self, column: SortColumn)
        requires
            old(self).wf(),
        ensures
            final(self).wf(),
            (final(self).sort_column, final(self).sort_ascending) == toggled_sort(
                old(self).sort_column,
                old(self).sort_ascending,
                column,
            ),
            sorted_records(final(self).records@, final(self).sort_column, final(self).sort_ascending),
            same_records(final(self).records@, old(self).records@),
            *final(self) == (ScanState {
                records: final(self).records,
                sort_column: final(self).sort_column,
                sort_ascending: final(self).sort_ascending,
                ..*old(self)
            }),
    {
        if self.sort_column == column {
            self.sort_ascending = !self.sort_ascending;
        } else {
            self.sort_column = column;
            self.sort_ascending = true;
        }
        self.sort_records();
    }

    /// Before a scan: the typed range is completed (see `normalize_range_input`) and the
    /// selection is cleared.
    pub fn prepare_scan(&mut self)
        ensures
            final(self).ip_range_input@ == normalize_range_spec(old(self).ip_range_input@),
            *final(self) == (ScanState {
                ip_range_input: final(self).ip_range_input,
                selected_ip: None,
                ..*old(self)
            }),
    {
        self.ip_range_input = normalize_range_input(self.ip_range_input.as_str());
        self.selected_ip = None;
    }

    /// Starts a scan of the typed range. When the range names no targets, the status line
    /// says why and `None` is returned; otherwise every target gets a pending record, the
    /// records are sorted, the status line announces the scan and the targets are returned
    /// for the workers.
    pub fn begin_scan(&mut self) -> (targets: Option<Vec<Ipv4>>)
        requires
            old(self).wf(),
        ensures
            final(self).wf(),
            ({
                let parsed = targets_spec(
                    trim(old(self).ip_range_input@),
                    ip_net_parse(trim(old(self).ip_range_input@)),
                );
                match parsed {
                    Err(e) => {
                        &&& targets is None
                        &&& final(self).status_line@ == target_error_message(old(self).language, e)
                        &&& *final(self) == (ScanState {
                            status_line: final(self).status_line,
                            ..*old(self)
                        })
                    },
                    Ok(v) => if v.len() == 0 {
                        &&& targets is None
                        &&& final(self).status_line@
                            == NO_TARGETS_STATUS_TEXTS@[old(self).language.slot_spec()]@
                        &&& *final(self) == (ScanState {
                            status_line: final(self).status_line,
                            ..*old(self)
                        })
                    } else {
                        &&& targets matches Some(t) && t@ == v
                        &&& same_records(final(self).records@, v.map_values(|ip: Ipv4| pending_record(ip)))
                        &&& sorted_records(
                            final(self).records@,
                            old(self).sort_column,
                            old(self).sort_ascending,
                        )
                        &&& final(self).total_targets == v.len()
                        &&& final(self).is_scanning
                        &&& final(self).status_line@ == old(self).language.scan_started_status_text(
                            v.len(),
                        )
                        &&& *final(self) == (ScanState {
                            records: final(self).records,
                            total_targets: final(self).total_targets,
                            is_scanning: true,
                            status_line: final(self).status_line,
                            ..*old(self)
                        })
                    },
                }
            }),
    {
        let parsed = parse_targets_checked(self.ip_range_input.as_str());
        proof {
            targets_are_ascending(
                trim(self.ip_range_input@),
                ip_net_parse(trim(self.ip_range_input@)),
            );
        }
        let targets = match parsed {
            Ok(t) => t,
            Err(e) => {
                self.status_line = target_error_text(self.language, e);
                return None;
            },
        };
        if targets.len() == 0 {
            self.status_line = String::from_str(self.language.no_targets_status());
            return None;
        }
        let mut records: Vec<ScanRecord> = Vec::new();
        for i in 0..targets.len()
            invariant
                strictly_ascending(targets@),
                records@ == targets@.take(i as int).map_values(|ip: Ipv4| pending_record(ip)),
        {
            let ip = targets[i];
            records.push(
                ScanRecord { ip, status: DeviceStatus::Pending, mac: None, vendor: None, hostname: None },
            );
            assert(records@ =~= targets@.take(i + 1).map_values(|ip: Ipv4| pending_record(ip)));
        }
        assert(targets@.take(targets.len() as int) =~= targets@);
        assert(distinct_ips(records@)) by {
            assert forall|i: int, j: int| 0 <= i < j < records@.len() implies records@[i].ip
                != records@[j].ip by {
                assert(targets@[i].value() < targets@[j].value());
            }
        }
        let total = targets.len();
        self.records = records;
        self.total_targets = total;
        self.is_scanning = true;
        self.sort_records();
        self.status_line = self.language.scan_started_status(total);
        Some(targets)
    }

    /// Takes in one message of the scan workers and tells whether the workers are done
    /// (then their channel is dropped). `processed` is the number of targets handled so far.
    pub fn apply_message(&mut self, message: WorkerMessage, processed: usize) -> (done: bool)
        requires
            old(self).wf(),
        ensures
            final(self).wf(),
            match message {
                WorkerMessage::Record(r) => {
                    let base = upsert(old(self).records@, r);
                    &&& !done
                    &&& (if old(self).needs_resort() {
                        sorted_records(
                            final(self).records@,
                            old(self).sort_column,
                            old(self).sort_ascending,
                        ) && same_records(final(self).records@, base)
                    } else {
                        final(self).records@ == base
                    })
                    &&& *final(self) == (ScanState { records: final(self).records, ..*old(self) })
                },
                WorkerMessage::HostnameResolved { ip, hostname } => {
                    let base = with_hostname(old(self).records@, ip, hostname);
                    &&& !done
                    &&& (if old(self).needs_resort() && position_of(old(self).records@, ip) is Some {
                        sorted_records(
                            final(self).records@,
                            old(self).sort_column,
                            old(self).sort_ascending,
                        ) && same_records(final(self).records@, base)
                    } else {
                        final(self).records@ == base
                    })
                    &&& *final(self) == (ScanState { records: final(self).records, ..*old(self) })
                },
                WorkerMessage::Finished { cancelled } => {
                    &&& done
                    &&& sorted_records(
                        final(self).records@,
                        old(self).sort_column,
                        old(self).sort_ascending,
                    )
                    &&& same_records(final(self).records@, old(self).records@)
                    &&& !final(self).is_scanning
                    &&& final(self).status_line@ == (if cancelled {
                        old(self).language.scan_cancelled_status_text(
                            processed as nat,
                            old(self).total_targets as nat,
                        )
                    } else {
                        old(self).language.scan_completed_status_text(
                            count_status(final(self).records@, DeviceStatus::InUse),
                            old(self).total_targets as nat,
                        )
                    })
                    &&& *final(self) == (ScanState {
                        records: final(self).records,
                        is_scanning: false,
                        status_line: final(self).status_line,
                        ..*old(self)
                    })
                },
                WorkerMessage::Error(err) => {
                    &&& done
                    &&& final(self).status_line == err
                    &&& *final(self) == (ScanState {
                        is_scanning: false,
                        status_line: final(self).status_line,
                        ..*old(self)
                    })
                },
            },
    {
        match message {
            WorkerMessage::Record(record) => {
                let ghost r = record;
                proof {
                    lemma_position_of(self.records@, record.ip);
                }
                match find_record(&self.records, record.ip) {
                    Some(i) => {
                        self.records.set(i, record);
                    },
                    None => {
                        self.records.push(record);
                    },
                }
                assert(self.records@ == upsert(old(self).records@, r));
                assert(distinct_ips(self.records@)) by {
                    let s = self.records@;
                    assert forall|a: int, b: int| 0 <= a < b < s.len() implies s[a].ip != s[b].ip by {
                        if position_of(old(self).records@, r.ip) is None {
                            if b == s.len() - 1 && a < old(self).records@.len() {
                                assert(old(self).records@[a].ip != r.ip);
                            }
                        }
                    }
                }
                if self.sort_column != SortColumn::Ip || !self.sort_ascending {
                    self.sort_records();
                }
                false
            },
            WorkerMessage::HostnameResolved { ip, hostname } => {
                let ghost h = hostname;
                proof {
                    lemma_position_of(self.records@, ip);
                }
                match find_record(&self.records, ip) {
                    Some(i) => {
                        let old_record = self.records[i].copy();
                        let updated = ScanRecord { hostname: hostname, ..old_record };
                        self.records.set(i, updated);
                        assert(self.records@ == with_hostname(old(self).records@, ip, h));
                        assert(distinct_ips(self.records@)) by {
                            let s = self.records@;
                            assert forall|a: int, b: int| 0 <= a < b < s.len() implies s[a].ip
                                != s[b].ip by {
                                assert(old(self).records@[a].ip != old(self).records@[b].ip);
                            }
                        }
                        if self.sort_column != SortColumn::Ip || !self.sort_ascending {
                            self.sort_records();
                        }
                    },
                    None => {
                        assert(self.records@ == with_hostname(old(self).records@, ip, h));
                    },
                }
                false
            },
            WorkerMessage::Finished { cancelled } => {
                self.sort_records();
                self.is_scanning = false;
                let total = self.total_targets;
                if cancelled {
                    self.status_line = self.language.scan_cancelled_status(processed, total);
                } else {
                    let active = self.active_count();
                    self.status_line = self.language.scan_completed_status(active, total);
                }
                true
            },
            WorkerMessage::Error(err) => {
                self.is_scanning = false;
                self.status_line = err;
                true
            },
        }
    }

    /// After the language was switched from `previous`: unless a scan runs, the status line
    /// is shown again in the new language.
    pub fn language_changed(&mut self, previous: Language)
        ensures
            (old(self).language != previous && !old(self).is_scanning) ==> final(self).status_line@
                == (if old(self).records@.len() == 0 {
                IDLE_STATUS_TEXTS@[old(self).language.slot_spec()]@
            } else {
                old(self).language.scan_completed_status_text(
                    count_status(old(self).records@, DeviceStatus::InUse),
                    old(self).target_count_spec(),
                )
            }),
            !(old(self).language != previous && !old(self).is_scanning) ==> final(self).status_line
                == old(self).status_line,
            *final(self) == (ScanState { status_line: final(self).status_line, ..*old(self) }),
    {
        if self.language != previous && !self.is_scanning {
            if self.records.len() == 0 {
                self.status_line = String::from_str(self.language.idle_status());
            } else {
                let active = self.active_count();
                let total = self.scan_target_count();
                self.status_line = self.language.scan_completed_status(active, total);
            }
        }
    }

    /// The user asked the running scan to stop.
    pub fn request_stop(&mut self)
        ensures
            final(self).status_line@ == STOP_REQUESTED_STATUS_TEXTS@[old(self).language.slot_spec()]@,
            *final(self) == (ScanState { status_line: final(self).status_line, ..*old(self) }),
    {
        self.status_line = String::from_str(self.language.stop_requested_status());
    }

    /// Saving the settings failed with `err`.
    pub fn report_settings_save_failure(&mut self, err: &str)
        ensures
            final(self).status_line@ == old(self).language.settings_save_failed_status_text(err@),
            *final(self) == (ScanState { status_line: final(self).status_line, ..*old(self) }),
    {
        self.status_line = self.language.settings_save_failed_status(err);
    }

    /// The results were saved to `path`.
    pub fn report_results_saved(&mut self, path: &str)
        ensures
            final(self).status_line@ == old(self).language.saved_results_status_text(path@),
            *final(self) == (ScanState { status_line: final(self).status_line, ..*old(self) }),
    {
        self.status_line = self.language.saved_results_status(path);
    }

    /// Saving the results failed with `err`.
    pub fn report_results_save_failure(&mut self, err: &str)
        ensures
            final(self).status_line@ == old(self).language.save_results_failed_status_text(err@),
            *final(self) == (ScanState { status_line: final(self).status_line, ..*old(self) }),
    {
        self.status_line = self.language.save_results_failed_status(err);
    }

    /// The settings to remember.
    pub fn settings(&self) -> (s: AppSettings)
        ensures
            s.last_range == self.ip_range_input,
            s.result_view == self.result_view,
            s.resolve_hostnames == self.resolve_hostnames,
            s.language == self.language,
    {
        AppSettings {
            last_range: self.ip_range_input.clone(),
            result_view: self.result_view,
            resolve_hostnames: self.resolve_hostnames,
            language: self.language,
        }
    }

    /// The record of the selected address, if there is one.
    pub fn selected_record(&self) -> (r: Option<usize>)
        ensures
            match self.selected_ip {
                None => r is None,
                Some(ip) => match r {
                    Some(i) => position_of(self.records@, ip) == Some(i as int),
                    None => position_of(self.records@, ip) == None::<int>,
                },
            },
    {
        match self.selected_ip {
            Some(ip) => find_record(&self.records, ip),
            None => None,
        }
    }
}

} // verus!
