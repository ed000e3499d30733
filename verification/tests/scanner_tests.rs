use ipscanner::icon::blend_pixel;
use ipscanner::ipv4::{format_ipv4, ipv4_sort_key, parse_ipv4, u32_to_ipv4, Ipv4};
use ipscanner::language::Language;
use ipscanner::mac::{
    load_vendor_database, normalize_mac, normalize_vendor_map, vendor_from_mac, VendorDb,
    DEFAULT_OUI_JSON,
};
use ipscanner::paths::{app_settings_path, ensure_extension, vendor_db_paths, PathComponent};
use ipscanner::platform::{
    executable_name_for_platform, system_ui_font_candidates, unix_utility_candidates, Platform,
    SystemUtility,
};
use ipscanner::presets::{collect_ipv4_preset, discover_range_presets};
use ipscanner::probe::{
    arp_output_mac, dns_hostname, mac_from_hardware_address, nbtstat_output_name, probe_record,
    probe_step, ProbeAction, ProbeAnswer,
};
use ipscanner::records::{
    compare_optional_text, compare_records, device_status_rank, export_row, grid_secondary_text,
    normalize_sort_text, sort_records, truncate_for_grid, DeviceStatus, Order, ScanRecord,
    SortColumn,
};
use ipscanner::scan::{
    sort_header_suffix, wants_hostname, worker_thread_count, ScanState, WorkerMessage,
    DEFAULT_RANGE,
};
use ipscanner::settings::{AppSettings, ResultView};
use ipscanner::targets::{
    expand_range, expand_range_checked, normalize_range_input, parse_targets,
    parse_targets_checked, parse_three_octets, TargetError,
};

fn ip(a: u8, b: u8, c: u8, d: u8) -> Ipv4 {
    Ipv4::new(a, b, c, d)
}

fn record(address: Ipv4, status: DeviceStatus) -> ScanRecord {
    ScanRecord { ip: address, status, mac: None, vendor: None, hostname: None }
}

fn normal(name: &str) -> PathComponent {
    PathComponent::Normal(name.to_string())
}

// ----- languages, validation messages, settings and MAC texts -----

#[test]
fn english_validation_messages_are_localized() {
    let err = parse_targets("", Language::English).unwrap_err();
    assert_eq!(err, "Enter an IP range to scan.");
}

#[test]
fn additional_languages_are_registered() {
    assert_eq!(Language::all().len(), 6);
    assert!(Language::all().contains(&Language::ChineseSimplified));
    assert!(Language::all().contains(&Language::French));
    assert!(Language::all().contains(&Language::German));
    assert!(Language::all().contains(&Language::Hindi));
    assert_eq!(Language::Korean.label(), "대한민국 · 한국어");
    assert_eq!(Language::English.label(), "United States · English");
}

#[test]
fn hindi_validation_messages_are_localized() {
    let err = parse_targets("", Language::Hindi).unwrap_err();
    assert_eq!(err, "स्कैन करने के लिए एक IP सीमा दर्ज करें।");
}

#[test]
fn language_is_persisted_in_settings_defaults() {
    let settings = AppSettings::default();
    assert_eq!(settings.language, Language::Korean);
}

#[test]
fn normalize_mac_formats_mixed_separators() {
    assert_eq!(normalize_mac("a:b:0c:1D:ee:f").as_deref(), Some("0A:0B:0C:1D:EE:0F"));
    assert_eq!(normalize_mac("aa-bb-cc-dd-ee-ff").as_deref(), Some("AA:BB:CC:DD:EE:FF"));
}

// ----- addresses -----

#[test]
fn addresses_are_written_and_read_back() {
    let address = ip(192, 168, 0, 17);
    assert_eq!(format_ipv4(address), "192.168.0.17");
    let text: Vec<char> = "192.168.0.17".chars().collect();
    assert_eq!(parse_ipv4(&text), Some(address));
    let bad: Vec<char> = "192.168.0.017".chars().collect();
    assert_eq!(parse_ipv4(&bad), None);
    let short: Vec<char> = "192.168.0".chars().collect();
    assert_eq!(parse_ipv4(&short), None);
}

#[test]
fn address_numbers_round_trip() {
    assert_eq!(ipv4_sort_key(ip(10, 0, 1, 2)), 0x0a00_0102);
    assert_eq!(u32_to_ipv4(0xc0a8_0001), ip(192, 168, 0, 1));
    let address = ip(172, 16, 254, 3);
    assert_eq!(u32_to_ipv4(ipv4_sort_key(address)), address);
}

// ----- scan ranges -----

#[test]
fn single_address_is_one_target() {
    assert_eq!(parse_targets("  10.0.0.5 ", Language::English), Ok(vec![ip(10, 0, 0, 5)]));
}

#[test]
fn cidr_ranges_leave_out_network_and_broadcast() {
    assert_eq!(
        parse_targets("10.0.0.0/30", Language::English),
        Ok(vec![ip(10, 0, 0, 1), ip(10, 0, 0, 2)])
    );
    assert_eq!(
        parse_targets("10.0.0.0/31", Language::English),
        Ok(vec![ip(10, 0, 0, 0), ip(10, 0, 0, 1)])
    );
    assert_eq!(parse_targets("10.0.0.9/32", Language::English), Ok(vec![ip(10, 0, 0, 9)]));
    let hosts = parse_targets("192.168.7.99/24", Language::English).unwrap();
    assert_eq!(hosts.len(), 254);
    assert_eq!(hosts[0], ip(192, 168, 7, 1));
    assert_eq!(hosts[253], ip(192, 168, 7, 254));
}

#[test]
fn ipv6_networks_are_refused() {
    assert_eq!(parse_targets_checked("::1/128"), Err(TargetError::Ipv4Only));
    assert_eq!(
        parse_targets("fe80::/64", Language::English),
        Err("Only IPv4 ranges are supported.".to_string())
    );
}

#[test]
fn dash_ranges_expand_in_order() {
    assert_eq!(
        parse_targets("192.168.1.10-12", Language::English),
        Ok(vec![ip(192, 168, 1, 10), ip(192, 168, 1, 11), ip(192, 168, 1, 12)])
    );
    let crossing = parse_targets("192.168.1.254 - 192.168.2.1", Language::English).unwrap();
    assert_eq!(
        crossing,
        vec![ip(192, 168, 1, 254), ip(192, 168, 1, 255), ip(192, 168, 2, 0), ip(192, 168, 2, 1)]
    );
    let widest = parse_targets("10.0.0.0-10.0.255.255", Language::English).unwrap();
    assert_eq!(widest.len(), 65_536);
}

#[test]
fn each_range_error_has_its_message() {
    let cases = [
        ("", TargetError::Required, "Enter an IP range to scan."),
        ("::1/128", TargetError::Ipv4Only, "Only IPv4 ranges are supported."),
        ("::1", TargetError::SupportedFormats, "Supported formats: 192.168.1, 192.168.1.1-254, 192.168.1.1-192.168.1.50, 192.168.1.0/24"),
        ("10.0.0-5", TargetError::InvalidStartIp, "The starting IP address isn't valid."),
        ("10.0.0.1-10.0.0", TargetError::InvalidEndIp, "The ending IP address isn't valid."),
        (
            "10.0.0.1-256",
            TargetError::InvalidLastOctet,
            "The range end must be a last octet (0-255) or a full IP address.",
        ),
        (
            "printer",
            TargetError::SupportedFormats,
            "Supported formats: 192.168.1, 192.168.1.1-254, 192.168.1.1-192.168.1.50, 192.168.1.0/24",
        ),
        (
            "10.0.0.9-3",
            TargetError::InvalidOrder,
            "The starting IP address can't be greater than the ending IP address.",
        ),
        (
            "10.0.0.0-10.1.0.0",
            TargetError::TooLarge,
            "You can scan up to 65,536 IP addresses at a time.",
        ),
    ];
    for (input, error, message) in cases {
        assert_eq!(parse_targets_checked(input), Err(error), "{input}");
        assert_eq!(parse_targets(input, Language::English), Err(message.to_string()), "{input}");
    }
}

#[test]
fn every_network_has_hosts() {
    for prefix in 16..=32u8 {
        let text = format!("172.16.5.9/{prefix}");
        let hosts = parse_targets_checked(&text).unwrap();
        assert!(!hosts.is_empty(), "{text}");
    }
    assert_eq!(
        Language::English.parse_targets_cidr_empty_error(),
        "That CIDR range doesn't contain any scannable IPv4 hosts."
    );
    assert_eq!(
        ipscanner::targets::target_error_text(Language::English, TargetError::CidrEmpty),
        "That CIDR range doesn't contain any scannable IPv4 hosts."
    );
}

#[test]
fn whole_address_space_is_too_large() {
    assert_eq!(
        expand_range_checked(ip(0, 0, 0, 0), ip(255, 255, 255, 255)),
        Err(TargetError::TooLarge)
    );
}

#[test]
fn expand_range_checks_order_and_size() {
    assert_eq!(
        expand_range(ip(10, 0, 0, 3), ip(10, 0, 0, 3), Language::English),
        Ok(vec![ip(10, 0, 0, 3)])
    );
    assert_eq!(
        expand_range(ip(10, 0, 0, 4), ip(10, 0, 0, 3), Language::German),
        Err("Die Start-IP-Adresse darf nicht groesser als die End-IP-Adresse sein.".to_string())
    );
}

#[test]
fn partial_ranges_are_completed() {
    assert_eq!(normalize_range_input(" 192.168.1 "), "192.168.1.1-254");
    assert_eq!(normalize_range_input("10.0.0.7"), "10.0.0.1-254");
    assert_eq!(normalize_range_input("10.0.0.0/24"), "10.0.0.0/24");
    assert_eq!(normalize_range_input("10.0.0.1-9"), "10.0.0.1-9");
    assert_eq!(normalize_range_input("printer"), "printer");
    assert_eq!(normalize_range_input("   "), "");
    for input in ["192.168.1", " 10.0.0.7", "abc", "1.2.3.4-5", ""] {
        let once = normalize_range_input(input);
        assert_eq!(normalize_range_input(&once), once);
    }
}

#[test]
fn completed_ranges_scan_their_block() {
    for input in ["192.168.1", "192.168.1.77"] {
        let range = normalize_range_input(input);
        let targets = parse_targets(&range, Language::English).unwrap();
        assert_eq!(targets.len(), 254);
        assert_eq!(targets[0], ip(192, 168, 1, 1));
        assert_eq!(targets[253], ip(192, 168, 1, 254));
    }
}

#[test]
fn three_octets_are_read() {
    assert_eq!(parse_three_octets("192.168.1"), Some((192, 168, 1)));
    assert_eq!(parse_three_octets("192.168.1.1"), None);
    assert_eq!(parse_three_octets("192.168"), None);
    assert_eq!(parse_three_octets("256.1.1"), None);
    assert_eq!(parse_three_octets("+1.2.3"), Some((1, 2, 3)));
}

// ----- MAC addresses and vendors -----

#[test]
fn mac_addresses_are_checked() {
    assert_eq!(normalize_mac("(incomplete)"), None);
    assert_eq!(normalize_mac("INCOMPLETE"), None);
    assert_eq!(normalize_mac("[aa:bb:cc:dd:ee:ff]").as_deref(), Some("AA:BB:CC:DD:EE:FF"));
    assert_eq!(normalize_mac("aa:bb:cc:dd:ee"), None);
    assert_eq!(normalize_mac("aaa:bb:cc:dd:ee:ff"), None);
    assert_eq!(normalize_mac("gg:bb:cc:dd:ee:ff"), None);
    assert_eq!(normalize_mac("aa::cc:dd:ee:ff"), None);
    let canonical = normalize_mac("1-2-3-4-5-6").unwrap();
    assert_eq!(canonical, "01:02:03:04:05:06");
    assert_eq!(normalize_mac(&canonical), Some(canonical.clone()));
}

#[test]
fn vendors_are_found_by_prefix() {
    let mut db = VendorDb::new();
    assert!(db.is_empty());
    db.insert("00:11:22".to_string(), "Acme".to_string());
    assert!(!db.is_empty());
    assert_eq!(vendor_from_mac("00:11:22:33:44:55", &db).as_deref(), Some("Acme"));
    assert_eq!(vendor_from_mac("00:11:23:33:44:55", &db), None);
    assert_eq!(vendor_from_mac("00:11", &db), None);
}

#[test]
fn vendor_entries_are_normalized() {
    let db = normalize_vendor_map(vec![
        ("0a-1b-2c-3d".to_string(), "  Acme Networks ".to_string()),
        ("short".to_string(), "Too short".to_string()),
        ("AA:BB:CC".to_string(), "   ".to_string()),
    ]);
    assert_eq!(db.get("0A:1B:2C").as_deref(), Some("Acme Networks"));
    assert_eq!(db.get("SHORT"), None);
    assert_eq!(db.get("AA:BB:CC"), None);
}

#[test]
fn vendor_files_are_tried_in_order() {
    let db = load_vendor_database(&vec![
        "not json".to_string(),
        "{}".to_string(),
        r#"{"00-aa-bb": "Custom Maker"}"#.to_string(),
    ]);
    assert_eq!(db.get("00:AA:BB").as_deref(), Some("Custom Maker"));
    assert_eq!(db.get("00:00:0C"), None);
}

#[test]
fn shipped_vendor_list_is_the_fallback() {
    assert!(DEFAULT_OUI_JSON.contains("Cisco Systems"));
    let db = load_vendor_database(&vec!["[1, 2]".to_string()]);
    assert_eq!(db.get("00:00:0C").as_deref(), Some("Cisco Systems"));
    assert_eq!(vendor_from_mac("00:15:5D:01:02:03", &db).as_deref(), Some("Microsoft"));
}

// ----- records, ordering and display -----

#[test]
fn status_labels_and_ranks() {
    assert_eq!(DeviceStatus::Pending.label(Language::English), "Checking");
    assert_eq!(DeviceStatus::InUse.label(Language::French), "Actif");
    assert_eq!(DeviceStatus::Available.label(Language::Korean), "사용가능");
    assert_eq!(device_status_rank(DeviceStatus::Pending), 0);
    assert_eq!(device_status_rank(DeviceStatus::InUse), 1);
    assert_eq!(device_status_rank(DeviceStatus::Available), 2);
}

#[test]
fn text_columns_compare_trimmed_and_case_blind() {
    assert_eq!(normalize_sort_text(Some("  AbC ")), "abc");
    assert_eq!(normalize_sort_text(None), "");
    assert_eq!(compare_optional_text(Some(" b"), Some("A")), Order::Greater);
    assert_eq!(compare_optional_text(Some("apple"), Some("APPLE ")), Order::Equal);
    assert_eq!(compare_optional_text(None, Some("a")), Order::Less);
}

#[test]
fn records_compare_by_column() {
    let mut left = record(ip(10, 0, 0, 2), DeviceStatus::InUse);
    left.vendor = Some("Zeta".to_string());
    let mut right = record(ip(10, 0, 0, 1), DeviceStatus::Available);
    right.vendor = Some("alpha".to_string());
    assert_eq!(compare_records(&left, &right, SortColumn::Ip), Order::Greater);
    assert_eq!(compare_records(&left, &right, SortColumn::Status), Order::Less);
    assert_eq!(compare_records(&left, &right, SortColumn::Vendor), Order::Greater);
    assert_eq!(compare_records(&left, &right, SortColumn::Mac), Order::Equal);
}

#[test]
fn sorting_breaks_ties_by_address() {
    let mut records = vec![
        record(ip(10, 0, 0, 3), DeviceStatus::Available),
        record(ip(10, 0, 0, 1), DeviceStatus::InUse),
        record(ip(10, 0, 0, 2), DeviceStatus::Available),
        record(ip(10, 0, 0, 4), DeviceStatus::InUse),
    ];
    sort_records(&mut records, SortColumn::Status, true);
    let order: Vec<u8> = records.iter().map(|r| r.ip.d).collect();
    assert_eq!(order, vec![1, 4, 2, 3]);
    sort_records(&mut records, SortColumn::Status, false);
    let order: Vec<u8> = records.iter().map(|r| r.ip.d).collect();
    assert_eq!(order, vec![3, 2, 4, 1]);
    sort_records(&mut records, SortColumn::Ip, true);
    let order: Vec<u8> = records.iter().map(|r| r.ip.d).collect();
    assert_eq!(order, vec![1, 2, 3, 4]);
}

#[test]
fn grid_text_is_cut_to_eight_characters() {
    assert_eq!(truncate_for_grid("abcdefghij", 8), "abcdefgh...");
    assert_eq!(truncate_for_grid("abcdefgh", 8), "abcdefgh");
    assert_eq!(truncate_for_grid("한국어텍스트입니다", 3), "한국어...");
    let mut r = record(ip(10, 0, 0, 1), DeviceStatus::InUse);
    assert_eq!(grid_secondary_text(&r, Language::English), "In use");
    r.mac = Some("AA:BB:CC:DD:EE:FF".to_string());
    assert_eq!(grid_secondary_text(&r, Language::English), "AA:BB:CC...");
    r.vendor = Some("Acme".to_string());
    assert_eq!(grid_secondary_text(&r, Language::English), "Acme");
    r.hostname = Some("printer-2nd-floor".to_string());
    assert_eq!(grid_secondary_text(&r, Language::English), "printer-...");
}

#[test]
fn export_rows_follow_the_headers() {
    assert_eq!(
        Language::English.export_headers(),
        ["IP address", "Status", "MAC address", "Vendor", "Hostname"]
    );
    let mut r = record(ip(192, 168, 1, 20), DeviceStatus::InUse);
    r.mac = Some("AA:BB:CC:DD:EE:FF".to_string());
    assert_eq!(
        export_row(&r, Language::English),
        vec!["192.168.1.20", "In use", "AA:BB:CC:DD:EE:FF", "-", "-"]
    );
}

// ----- texts -----

#[test]
fn status_texts_put_numbers_in_place() {
    assert_eq!(Language::English.scan_started_status(254), "Scanning 254 addresses...");
    assert_eq!(
        Language::English.scan_cancelled_status(10, 254),
        "Scan stopped. Finished 10 of 254 targets."
    );
    assert_eq!(
        Language::Hindi.scan_cancelled_status(10, 254),
        "स्कैन रोक दिया गया। 254 में से 10 पूरे हुए।"
    );
    assert_eq!(
        Language::English.scan_completed_status(3, 254),
        "Scan complete: 3 active out of 254 targets."
    );
    assert_eq!(
        Language::Korean.scan_summary(1, 2, 3),
        "사용 중 1 / 전체 2 / 진행 3"
    );
    assert_eq!(Language::English.summary_progress_detail(0, 0), "0 / 0 processed");
    assert_eq!(Language::French.app_title(), "IPScanner");
    assert_eq!(Language::German.no_value(), "-");
}

// ----- the scan state -----

fn english_state(range: &str) -> ScanState {
    let saved = AppSettings {
        last_range: range.to_string(),
        result_view: ResultView::Table,
        resolve_hostnames: true,
        language: Language::English,
    };
    ScanState::new(saved, vec!["10.1.1.1-254".to_string()])
}

#[test]
fn start_state_uses_remembered_range() {
    let state = english_state("10.0.0.1-5");
    assert_eq!(state.ip_range_input, "10.0.0.1-5");
    assert_eq!(state.status_line, "Choose a range and start scanning when you're ready.");
    assert_eq!(state.result_view, ResultView::Table);
    assert!(state.resolve_hostnames);
    let blank = english_state("  ");
    assert_eq!(blank.ip_range_input, "10.1.1.1-254");
    let fresh = ScanState::new(AppSettings::default(), Vec::new());
    assert_eq!(fresh.ip_range_input, DEFAULT_RANGE);
    assert_eq!(fresh.result_view, ResultView::Grid);
    let kept = english_state("10.0.0.1-5").settings();
    assert_eq!(kept.last_range, "10.0.0.1-5");
    assert_eq!(kept.language, Language::English);
}

#[test]
fn a_scan_runs_to_completion() {
    let mut state = english_state("192.168.5");
    state.prepare_scan();
    assert_eq!(state.ip_range_input, "192.168.5.1-254");
    state.ip_range_input = "192.168.5.1-3".to_string();
    let targets = state.begin_scan().unwrap();
    assert_eq!(targets, vec![ip(192, 168, 5, 1), ip(192, 168, 5, 2), ip(192, 168, 5, 3)]);
    assert!(state.is_scanning);
    assert_eq!(state.records.len(), 3);
    assert_eq!(state.status_line, "Scanning 3 addresses...");
    assert_eq!(state.scan_target_count(), 3);

    let mut found = record(ip(192, 168, 5, 2), DeviceStatus::InUse);
    found.mac = Some("AA:BB:CC:DD:EE:FF".to_string());
    assert!(!state.apply_message(WorkerMessage::Record(found), 1));
    assert!(!state.apply_message(
        WorkerMessage::Record(record(ip(192, 168, 5, 1), DeviceStatus::Available)),
        2
    ));
    assert!(!state.apply_message(
        WorkerMessage::HostnameResolved {
            ip: ip(192, 168, 5, 2),
            hostname: Some("nas".to_string())
        },
        2
    ));
    assert_eq!(state.active_count(), 1);
    assert_eq!(state.available_count(), 1);
    assert!(state.apply_message(WorkerMessage::Finished { cancelled: false }, 3));
    assert!(!state.is_scanning);
    assert_eq!(state.status_line, "Scan complete: 1 active out of 3 targets.");
    assert_eq!(state.records[1].hostname.as_deref(), Some("nas"));
    assert_eq!(state.records[1].mac.as_deref(), Some("AA:BB:CC:DD:EE:FF"));
}

#[test]
fn a_refused_range_leaves_the_records() {
    let mut state = english_state("10.0.0.9-3");
    assert_eq!(state.begin_scan(), None);
    assert!(!state.is_scanning);
    assert!(state.records.is_empty());
    assert_eq!(
        state.status_line,
        "The starting IP address can't be greater than the ending IP address."
    );
}

#[test]
fn a_stopped_scan_reports_progress() {
    let mut state = english_state("10.0.0.1-4");
    state.begin_scan().unwrap();
    state.request_stop();
    assert_eq!(state.status_line, "Stopping the scan...");
    assert!(state.apply_message(WorkerMessage::Finished { cancelled: true }, 2));
    assert_eq!(state.status_line, "Scan stopped. Finished 2 of 4 targets.");
}

#[test]
fn worker_errors_end_the_scan() {
    let mut state = english_state("10.0.0.1-4");
    state.begin_scan().unwrap();
    assert!(state.apply_message(WorkerMessage::Error("pool failed".to_string()), 0));
    assert!(!state.is_scanning);
    assert_eq!(state.status_line, "pool failed");
}

#[test]
fn clicking_a_column_twice_restores_the_direction() {
    let mut state = english_state("10.0.0.1-3");
    state.begin_scan().unwrap();
    state.toggle_sort(SortColumn::Ip);
    assert_eq!(state.sort_column, SortColumn::Ip);
    assert!(!state.sort_ascending);
    assert_eq!(state.records[0].ip, ip(10, 0, 0, 3));
    state.toggle_sort(SortColumn::Ip);
    assert!(state.sort_ascending);
    assert_eq!(state.records[0].ip, ip(10, 0, 0, 1));
    state.toggle_sort(SortColumn::Status);
    assert_eq!(state.sort_column, SortColumn::Status);
    assert!(state.sort_ascending);
}

#[test]
fn switching_language_rewrites_the_status() {
    let mut state = english_state("10.0.0.1-3");
    state.language = Language::German;
    state.language_changed(Language::English);
    assert_eq!(state.status_line, Language::German.idle_status());
    state.report_results_saved("/tmp/out.csv");
    assert_eq!(state.status_line, Language::German.saved_results_status("/tmp/out.csv"));
    assert_eq!(state.selected_record(), None);
}

#[test]
fn summary_counts_fit_the_targets() {
    let mut state = english_state("10.0.0.1-5");
    state.begin_scan().unwrap();
    for d in 1..=5u8 {
        let status = if d % 2 == 0 { DeviceStatus::InUse } else { DeviceStatus::Available };
        state.apply_message(WorkerMessage::Record(record(ip(10, 0, 0, d), status)), d as usize);
    }
    assert_eq!(state.active_count(), 2);
    assert_eq!(state.available_count(), 3);
    assert!(state.active_count() + state.available_count() <= state.scan_target_count());
}

// ----- suggested ranges -----

#[test]
fn presets_skip_loopback_and_link_local() {
    assert_eq!(
        discover_range_presets(&vec![ip(127, 0, 0, 1), ip(169, 254, 3, 4)]),
        vec![DEFAULT_RANGE.to_string()]
    );
    assert_eq!(
        discover_range_presets(&vec![ip(192, 168, 0, 7), ip(10, 0, 0, 5), ip(10, 0, 0, 9)]),
        vec!["10.0.0.1-254".to_string(), "192.168.0.1-254".to_string()]
    );
    let mut presets = vec!["10.0.0.1-254".to_string()];
    collect_ipv4_preset(ip(10, 0, 0, 33), &mut presets);
    collect_ipv4_preset(ip(127, 0, 0, 1), &mut presets);
    assert_eq!(presets, vec!["10.0.0.1-254".to_string()]);
}

// ----- probe answers -----

#[test]
fn arp_output_gives_the_mac() {
    let out = "? (192.168.1.1) at aa:bb:cc:dd:ee:ff [ether] on en0\n";
    assert_eq!(arp_output_mac(out).as_deref(), Some("AA:BB:CC:DD:EE:FF"));
    assert_eq!(arp_output_mac("? (192.168.1.9) at (incomplete) on en0"), None);
    assert_eq!(arp_output_mac("no entry\n? (10.0.0.1) at"), None);
    assert_eq!(arp_output_mac("nothing here"), None);
}

#[test]
fn nbtstat_output_gives_the_name() {
    let out = "\r\n    NetBIOS Remote Machine Name Table\r\n\r\n       Name               Type         Status\r\n    ---------------------------------------------\r\n    WORKGROUP      <00>  GROUP       Registered\r\n    DESKTOP-42     <00>  UNIQUE      Registered\r\n";
    assert_eq!(nbtstat_output_name(out).as_deref(), Some("DESKTOP-42"));
    assert_eq!(nbtstat_output_name("Host not found."), None);
}

#[test]
fn dns_names_are_cleaned() {
    let address = ip(192, 168, 1, 5);
    assert_eq!(dns_hostname("nas.local.", address).as_deref(), Some("nas.local"));
    assert_eq!(dns_hostname("192.168.1.5", address), None);
    assert_eq!(dns_hostname(" ..", address), None);
}

#[test]
fn hardware_addresses_become_macs() {
    assert_eq!(
        mac_from_hardware_address(&[0x00, 0x1a, 0x11, 0xab, 0xcd, 0xef, 0, 0]).as_deref(),
        Some("00:1A:11:AB:CD:EF")
    );
    assert_eq!(mac_from_hardware_address(&[1, 2, 3, 4, 5]), None);
}

#[test]
fn probing_follows_arp_ping_arp() {
    let mut db = VendorDb::new();
    db.insert("AA:BB:CC".to_string(), "Acme".to_string());
    let address = ip(10, 0, 0, 7);

    let next = probe_step(address, ProbeAction::FirstArp, ProbeAnswer::Mac(None), &db);
    assert!(matches!(next, ProbeAction::Ping));
    let next = probe_step(address, next, ProbeAnswer::Reply(true), &db);
    assert!(matches!(next, ProbeAction::SecondArp));
    let next = probe_step(
        address,
        next,
        ProbeAnswer::Mac(Some("AA:BB:CC:00:11:22".to_string())),
        &db,
    );
    match next {
        ProbeAction::Report(r) => {
            assert_eq!(r.status, DeviceStatus::InUse);
            assert_eq!(r.vendor.as_deref(), Some("Acme"));
        }
        _ => panic!("expected a report"),
    }

    match probe_step(address, ProbeAction::Ping, ProbeAnswer::Reply(false), &db) {
        ProbeAction::Report(r) => {
            assert_eq!(r.status, DeviceStatus::Available);
            assert_eq!(r.mac, None);
        }
        _ => panic!("expected a report"),
    }

    let silent = probe_record(address, None, true, &db);
    assert_eq!(silent.status, DeviceStatus::InUse);
    assert_eq!(silent.vendor, None);
}

// ----- platform and files -----

#[test]
fn tools_have_platform_names() {
    assert_eq!(executable_name_for_platform(Platform::Windows, "ping"), "ping.exe");
    assert_eq!(executable_name_for_platform(Platform::Windows, "route"), "route");
    assert_eq!(executable_name_for_platform(Platform::Other, "arp"), "arp");
    assert_eq!(SystemUtility::NbtStat.executable_name(Platform::Windows), "nbtstat.exe");
    assert_eq!(SystemUtility::Arp.executable_name(Platform::MacOs), "arp");
    let candidates = unix_utility_candidates("arp");
    assert_eq!(candidates.len(), 6);
    assert_eq!(candidates[0], "/usr/sbin/arp");
    assert_eq!(candidates[5], "/opt/homebrew/sbin/arp");
    assert_eq!(unix_utility_candidates("/bin/ping")[2], "/bin/ping");
    assert!(!system_ui_font_candidates(Platform::Windows).is_empty());
    assert!(!system_ui_font_candidates(Platform::Other).is_empty());
}

#[test]
fn files_live_in_the_app_folder() {
    let base = vec![PathComponent::RootDir, normal("home"), normal("kim")];
    let settings = app_settings_path(base.clone());
    assert_eq!(
        settings,
        vec![
            PathComponent::RootDir,
            normal("home"),
            normal("kim"),
            normal("IPScanner"),
            normal("settings.json")
        ]
    );
    let exe_dir = vec![PathComponent::RootDir, normal("opt"), normal("ipscanner")];
    let candidates = vendor_db_paths(Some(exe_dir), base.clone());
    assert_eq!(candidates.len(), 2);
    assert_eq!(candidates[0].last(), Some(&normal("oui.json")));
    assert_eq!(candidates[1][3], normal("IPScanner"));
    assert_eq!(vendor_db_paths(None, base).len(), 1);
}

#[test]
fn export_files_get_an_extension() {
    let plain = vec![normal("results")];
    assert_eq!(ensure_extension(plain, "csv"), vec![normal("results.csv")]);
    let named = vec![normal("results.xlsx")];
    assert_eq!(ensure_extension(named.clone(), "csv"), named);
    let hidden = vec![PathComponent::RootDir, normal(".scan")];
    assert_eq!(
        ensure_extension(hidden, "csv"),
        vec![PathComponent::RootDir, normal(".scan.csv")]
    );
    let parent = vec![normal("a"), PathComponent::ParentDir];
    assert_eq!(ensure_extension(parent.clone(), "csv"), parent);
}

#[test]
fn icon_pixels_are_painted() {
    let mut buffer = vec![0u8; 2 * 2 * 4];
    blend_pixel(&mut buffer, 2, 1, 1, [9, 8, 7, 6]);
    assert_eq!(&buffer[12..16], &[9, 8, 7, 6]);
    assert!(buffer[..12].iter().all(|b| *b == 0));
}

#[test]
fn workers_and_headers_follow_the_state() {
    assert_eq!(worker_thread_count(0), 1);
    assert_eq!(worker_thread_count(37), 37);
    assert_eq!(worker_thread_count(254), 254);
    assert_eq!(worker_thread_count(65_536), 256);
    assert!(wants_hostname(true, DeviceStatus::InUse));
    assert!(!wants_hostname(true, DeviceStatus::Available));
    assert!(!wants_hostname(false, DeviceStatus::InUse));
    assert_eq!(sort_header_suffix(SortColumn::Ip, true, SortColumn::Ip), " ▲");
    assert_eq!(sort_header_suffix(SortColumn::Ip, false, SortColumn::Ip), " ▼");
    assert_eq!(sort_header_suffix(SortColumn::Ip, false, SortColumn::Mac), "");
}
