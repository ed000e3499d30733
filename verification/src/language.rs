//! The interface languages and every text the scanner shows in them.
use vstd::prelude::*;
use vstd::string::*;
use crate::text::{decimal, push_decimal, push_str, string_from_chars};

verus! {

/// The languages of the interface.
#[derive(Clone, Copy, Debug, PartialEq, Eq, Structural)]
pub enum Language {
    Korean,
    English,
    ChineseSimplified,
    French,
    German,
    Hindi,
}

impl Default for Language {
    fn default() -> (r: Self)
        ensures
            r == Language::Korean,
    {
        Language::Korean
    }
}

/// Every language, in the order the selector lists them.
pub const LANGUAGES: [Language; 6] = [
    Language::Korean,
    Language::English,
    Language::ChineseSimplified,
    Language::French,
    Language::German,
    Language::Hindi,
];

/// The texts of `Language::label`, one per language in the order of [`LANGUAGES`].
pub const LABEL_TEXTS: [&'static str; 6] = [
    "대한민국 · 한국어",
    "United States · English",
    "中国 · 简体中文",
    "France · Français",
    "Deutschland · Deutsch",
    "भारत · हिन्दी",
];

/// The texts of `Language::app_subtitle`, one per language in the order of [`LANGUAGES`].
pub const APP_SUBTITLE_TEXTS: [&'static str; 6] = [
    "같은 네트워크 대역의 장비를 빠르게 찾고 이름, 제조사, 결과 파일까지 한 화면에서 관리합니다.",
    "A friendlier network scanner for finding active devices, hostnames, vendors, and exportable results in one place.",
    "更友好的局域网扫描器，可在同一界面查看在线设备、主机名、厂商信息并导出结果。",
    "Un scanner reseau plus convivial pour reperer les appareils actifs, leurs noms, leurs fabricants et exporter les resultats au meme endroit.",
    "Ein benutzerfreundlicherer Netzwerkscanner, um aktive Geraete, Hostnamen, Hersteller und exportierbare Ergebnisse an einem Ort zu sehen.",
    "एक अधिक उपयोगकर्ता-अनुकूल नेटवर्क स्कैनर, जिसमें सक्रिय डिवाइस, होस्टनाम, निर्माता और निर्यात किए जा सकने वाले परिणाम एक ही जगह दिखते हैं।",
];

/// The texts of `Language::language_label`, one per language in the order of [`LANGUAGES`].
pub const LANGUAGE_LABEL_TEXTS: [&'static str; 6] = [
    "국가 / 언어",
    "Country / language",
    "国家 / 语言",
    "Pays / langue",
    "Land / Sprache",
    "देश / भाषा",
];

/// The texts of `Language::range_input_label`, one per language in the order of [`LANGUAGES`].
pub const RANGE_INPUT_LABEL_TEXTS: [&'static str; 6] = [
    "스캔 범위",
    "Scan range",
    "扫描范围",
    "Plage d'analyse",
    "Scanbereich",
    "स्कैन सीमा",
];

/// The texts of `Language::range_hint`, one per language in the order of [`LANGUAGES`].
pub const RANGE_HINT_TEXTS: [&'static str; 6] = [
    "예: 192.168.1 또는 192.168.1.1-254",
    "Example: 192.168.1 or 192.168.1.1-254",
    "例如：192.168.1 或 192.168.1.1-254",
    "Exemple : 192.168.1 ou 192.168.1.1-254",
    "Beispiel: 192.168.1 oder 192.168.1.1-254",
    "उदाहरण: 192.168.1 या 192.168.1.1-254",
];

/// The texts of `Language::presets_label`, one per language in the order of [`LANGUAGES`].
pub const PRESETS_LABEL_TEXTS: [&'static str; 6] = [
    "추천 범위",
    "Suggested range",
    "推荐范围",
    "Plage suggeree",
    "Empfohlener Bereich",
    "सुझाई गई सीमा",
];

/// The texts of `Language::device_names_label`, one per language in the order of [`LANGUAGES`].
pub const DEVICE_NAMES_LABEL_TEXTS: [&'static str; 6] = [
    "기기 이름도 찾기 (조금 느림)",
    "Look up device names too (slower)",
    "同时查找设备名称（较慢）",
    "Rechercher aussi les noms d'appareil (plus lent)",
    "Auch Geraetenamen aufloesen (langsamer)",
    "डिवाइस नाम भी खोजें (थोड़ा धीमा)",
];

/// The texts of `Language::view_mode_label`, one per language in the order of [`LANGUAGES`].
pub const VIEW_MODE_LABEL_TEXTS: [&'static str; 6] = [
    "보기 방식",
    "View mode",
    "视图模式",
    "Mode d'affichage",
    "Ansicht",
    "दृश्य मोड",
];

/// The texts of `Language::map_view_label`, one per language in the order of [`LANGUAGES`].
pub const MAP_VIEW_LABEL_TEXTS: [&'static str; 6] = [
    "한눈에 보기",
    "Map view",
    "网格视图",
    "Vue grille",
    "Rasteransicht",
    "मैप दृश्य",
];

/// The texts of `Language::table_view_label`, one per language in the order of [`LANGUAGES`].
pub const TABLE_VIEW_LABEL_TEXTS: [&'static str; 6] = [
    "목록 보기",
    "Table view",
    "列表视图",
    "Vue tableau",
    "Tabellenansicht",
    "तालिका दृश्य",
];

/// The texts of `Language::start_scan_label`, one per language in the order of [`LANGUAGES`].
pub const START_SCAN_LABEL_TEXTS: [&'static str; 6] = [
    "스캔 시작",
    "Start scan",
    "开始扫描",
    "Demarrer l'analyse",
    "Scan starten",
    "स्कैन शुरू करें",
];

/// The texts of `Language::stop_scan_label`, one per language in the order of [`LANGUAGES`].
pub const STOP_SCAN_LABEL_TEXTS: [&'static str; 6] = [
    "스캔 중지",
    "Stop scan",
    "停止扫描",
    "Arreter l'analyse",
    "Scan stoppen",
    "स्कैन रोकें",
];

/// The texts of `Language::export_results_label`, one per language in the order of [`LANGUAGES`].
pub const EXPORT_RESULTS_LABEL_TEXTS: [&'static str; 6] = [
    "결과 저장",
    "Export results",
    "导出结果",
    "Exporter les resultats",
    "Ergebnisse exportieren",
    "परिणाम निर्यात करें",
];

/// The texts of `Language::idle_status`, one per language in the order of [`LANGUAGES`].
pub const IDLE_STATUS_TEXTS: [&'static str; 6] = [
    "스캔할 범위를 입력하고 시작해 보세요.",
    "Choose a range and start scanning when you're ready.",
    "选择一个范围，然后开始扫描。",
    "Choisissez une plage puis lancez l'analyse.",
    "Waehlen Sie einen Bereich und starten Sie dann den Scan.",
    "एक सीमा चुनें और फिर स्कैन शुरू करें।",
];

/// The texts of `Language::stop_requested_status`, one per language in the order of [`LANGUAGES`].
pub const STOP_REQUESTED_STATUS_TEXTS: [&'static str; 6] = [
    "스캔 중지를 요청했습니다...",
    "Stopping the scan...",
    "正在停止扫描...",
    "Arret de l'analyse...",
    "Scan wird gestoppt...",
    "स्कैन रोका जा रहा है...",
];

/// The texts of `Language::no_targets_status`, one per language in the order of [`LANGUAGES`].
pub const NO_TARGETS_STATUS_TEXTS: [&'static str; 6] = [
    "스캔할 대상이 없습니다.",
    "There are no targets to scan.",
    "没有可扫描的目标。",
    "Aucune cible a analyser.",
    "Es gibt keine Ziele zum Scannen.",
    "स्कैन करने के लिए कोई लक्ष्य नहीं है।",
];

/// The texts of `Language::save_results_title`, one per language in the order of [`LANGUAGES`].
pub const SAVE_RESULTS_TITLE_TEXTS: [&'static str; 6] = [
    "스캔 결과 저장",
    "Save scan results",
    "保存扫描结果",
    "Enregistrer les resultats",
    "Scannergebnisse speichern",
    "स्कैन परिणाम सहेजें",
];

/// The texts of `Language::status_field_label`, one per language in the order of [`LANGUAGES`].
pub const STATUS_FIELD_LABEL_TEXTS: [&'static str; 6] = [
    "상태",
    "Status",
    "状态",
    "Etat",
    "Status",
    "स्थिति",
];

/// The texts of `Language::ip_field_label`, one per language in the order of [`LANGUAGES`].
pub const IP_FIELD_LABEL_TEXTS: [&'static str; 6] = [
    "IP 주소",
    "IP address",
    "IP 地址",
    "Adresse IP",
    "IP-Adresse",
    "IP पता",
];

/// The texts of `Language::mac_field_label`, one per language in the order of [`LANGUAGES`].
pub const MAC_FIELD_LABEL_TEXTS: [&'static str; 6] = [
    "MAC 주소",
    "MAC address",
    "MAC 地址",
    "Adresse MAC",
    "MAC-Adresse",
    "MAC पता",
];

/// The texts of `Language::vendor_field_label`, one per language in the order of [`LANGUAGES`].
pub const VENDOR_FIELD_LABEL_TEXTS: [&'static str; 6] = [
    "제조사",
    "Vendor",
    "厂商",
    "Fabricant",
    "Hersteller",
    "निर्माता",
];

/// The texts of `Language::hostname_field_label`, one per language in the order of [`LANGUAGES`].
pub const HOSTNAME_FIELD_LABEL_TEXTS: [&'static str; 6] = [
    "기기 이름",
    "Hostname",
    "主机名",
    "Nom d'hote",
    "Hostname",
    "होस्टनाम",
];

/// The texts of `Language::selected_device_label`, one per language in the order of [`LANGUAGES`].
pub const SELECTED_DEVICE_LABEL_TEXTS: [&'static str; 6] = [
    "선택한 장비",
    "Selected device",
    "已选择的设备",
    "Appareil selectionne",
    "Ausgewaehltes Geraet",
    "चयनित डिवाइस",
];

/// The texts of `Language::map_legend_pending`, one per language in the order of [`LANGUAGES`].
pub const MAP_LEGEND_PENDING_TEXTS: [&'static str; 6] = [
    "확인 중",
    "Checking",
    "检查中",
    "Verification",
    "Pruefung",
    "जांच जारी",
];

/// The texts of `Language::map_legend_in_use`, one per language in the order of [`LANGUAGES`].
pub const MAP_LEGEND_IN_USE_TEXTS: [&'static str; 6] = [
    "사용 중",
    "In use",
    "使用中",
    "Actif",
    "Belegt",
    "उपयोग में",
];

/// The texts of `Language::map_legend_available`, one per language in the order of [`LANGUAGES`].
pub const MAP_LEGEND_AVAILABLE_TEXTS: [&'static str; 6] = [
    "사용 가능",
    "Available",
    "可用",
    "Disponible",
    "Verfuegbar",
    "उपलब्ध",
];

/// The texts of `Language::empty_title`, one per language in the order of [`LANGUAGES`].
pub const EMPTY_TITLE_TEXTS: [&'static str; 6] = [
    "스캔 준비가 되었습니다",
    "Ready to scan your network",
    "已准备好开始扫描网络",
    "Pret a analyser votre reseau",
    "Bereit fuer den Netzwerkscan",
    "आपका नेटवर्क स्कैन करने के लिए तैयार",
];

/// The texts of `Language::empty_body`, one per language in the order of [`LANGUAGES`].
pub const EMPTY_BODY_TEXTS: [&'static str; 6] = [
    "추천 범위를 선택하거나 직접 입력한 뒤 시작 버튼을 누르면 현재 사용 중인 장비를 보기 좋게 정리해 드립니다.",
    "Pick a suggested range or type your own, then start scanning to see active devices in a cleaner, easier-to-read view.",
    "选择推荐范围或输入自定义范围，然后开始扫描，以更清晰的方式查看活跃设备。",
    "Choisissez une plage suggeree ou saisissez la votre, puis lancez l'analyse pour voir les appareils actifs dans une vue plus claire.",
    "Waehlen Sie einen vorgeschlagenen Bereich oder geben Sie einen eigenen ein, um aktive Geraete in einer uebersichtlicheren Ansicht zu sehen.",
    "सुझाई गई सीमा चुनें या अपनी सीमा लिखें, फिर सक्रिय डिवाइस को अधिक साफ तरीके से देखने के लिए स्कैन शुरू करें।",
];

/// The texts of `Language::empty_tip`, one per language in the order of [`LANGUAGES`].
pub const EMPTY_TIP_TEXTS: [&'static str; 6] = [
    "입력 예시: 192.168.1, 192.168.1.1-254, 192.168.1.0/24",
    "Examples: 192.168.1, 192.168.1.1-254, 192.168.1.0/24",
    "示例：192.168.1、192.168.1.1-254、192.168.1.0/24",
    "Exemples : 192.168.1, 192.168.1.1-254, 192.168.1.0/24",
    "Beispiele: 192.168.1, 192.168.1.1-254, 192.168.1.0/24",
    "उदाहरण: 192.168.1, 192.168.1.1-254, 192.168.1.0/24",
];

/// The texts of `Language::apply_detected_range_label`, one per language in the order of [`LANGUAGES`].
pub const APPLY_DETECTED_RANGE_LABEL_TEXTS: [&'static str; 6] = [
    "추천 범위 적용",
    "Use suggested range",
    "使用推荐范围",
    "Utiliser la plage suggeree",
    "Empfohlenen Bereich verwenden",
    "सुझाई गई सीमा का उपयोग करें",
];

/// The texts of `Language::summary_total_label`, one per language in the order of [`LANGUAGES`].
pub const SUMMARY_TOTAL_LABEL_TEXTS: [&'static str; 6] = [
    "전체 주소",
    "Total targets",
    "目标总数",
    "Cibles totales",
    "Gesamtziele",
    "कुल लक्ष्य",
];

/// The texts of `Language::summary_active_label`, one per language in the order of [`LANGUAGES`].
pub const SUMMARY_ACTIVE_LABEL_TEXTS: [&'static str; 6] = [
    "사용 중 장비",
    "Active devices",
    "活跃设备",
    "Appareils actifs",
    "Aktive Geraete",
    "सक्रिय डिवाइस",
];

/// The texts of `Language::summary_available_label`, one per language in the order of [`LANGUAGES`].
pub const SUMMARY_AVAILABLE_LABEL_TEXTS: [&'static str; 6] = [
    "비어 있는 주소",
    "Available addresses",
    "可用地址",
    "Adresses disponibles",
    "Verfuegbare Adressen",
    "उपलब्ध पते",
];

/// The texts of `Language::summary_progress_label`, one per language in the order of [`LANGUAGES`].
pub const SUMMARY_PROGRESS_LABEL_TEXTS: [&'static str; 6] = [
    "진행 상황",
    "Progress",
    "进度",
    "Progression",
    "Fortschritt",
    "प्रगति",
];

/// The texts of `Language::summary_available_detail`, one per language in the order of [`LANGUAGES`].
pub const SUMMARY_AVAILABLE_DETAIL_TEXTS: [&'static str; 6] = [
    "현재 응답이 없거나 비어 있는 주소",
    "Addresses with no current response",
    "当前没有响应的地址",
    "Adresses sans reponse actuelle",
    "Adressen ohne aktuelle Antwort",
    "वे पते जिनसे अभी कोई प्रतिक्रिया नहीं मिली",
];

/// The texts of `Language::summary_total_detail`, one per language in the order of [`LANGUAGES`].
pub const SUMMARY_TOTAL_DETAIL_TEXTS: [&'static str; 6] = [
    "이번 스캔에 포함된 범위",
    "Addresses included in this scan",
    "本次扫描包含的地址",
    "Adresses incluses dans cette analyse",
    "Adressen in diesem Scan",
    "इस स्कैन में शामिल पते",
];

/// The texts of `Language::parse_targets_required_error`, one per language in the order of [`LANGUAGES`].
pub const PARSE_TARGETS_REQUIRED_ERROR_TEXTS: [&'static str; 6] = [
    "IP 범위를 입력하세요.",
    "Enter an IP range to scan.",
    "请输入要扫描的 IP 范围。",
    "Saisissez une plage IP a analyser.",
    "Geben Sie einen IP-Bereich zum Scannen ein.",
    "स्कैन करने के लिए एक IP सीमा दर्ज करें।",
];

/// The texts of `Language::parse_targets_ipv4_only_error`, one per language in the order of [`LANGUAGES`].
pub const PARSE_TARGETS_IPV4_ONLY_ERROR_TEXTS: [&'static str; 6] = [
    "IPv4 대역만 지원합니다.",
    "Only IPv4 ranges are supported.",
    "仅支持 IPv4 范围。",
    "Seules les plages IPv4 sont prises en charge.",
    "Es werden nur IPv4-Bereiche unterstuetzt.",
    "केवल IPv4 सीमाएं समर्थित हैं।",
];

/// The texts of `Language::parse_targets_cidr_empty_error`, one per language in the order of [`LANGUAGES`].
pub const PARSE_TARGETS_CIDR_EMPTY_ERROR_TEXTS: [&'static str; 6] = [
    "CIDR 범위에서 스캔할 IPv4 호스트가 없습니다.",
    "That CIDR range doesn't contain any scannable IPv4 hosts.",
    "该 CIDR 范围中没有可扫描的 IPv4 主机。",
    "Cette plage CIDR ne contient aucun hote IPv4 analysable.",
    "Dieser CIDR-Bereich enthaelt keine scanbaren IPv4-Hosts.",
    "इस CIDR सीमा में स्कैन करने योग्य कोई IPv4 होस्ट नहीं है।",
];

/// The texts of `Language::parse_targets_invalid_start_ip_error`, one per language in the order of [`LANGUAGES`].
pub const PARSE_TARGETS_INVALID_START_IP_ERROR_TEXTS: [&'static str; 6] = [
    "시작 IP 형식이 올바르지 않습니다.",
    "The starting IP address isn't valid.",
    "起始 IP 地址无效。",
    "L'adresse IP de debut n'est pas valide.",
    "Die Start-IP-Adresse ist ungueltig.",
    "शुरुआती IP पता मान्य नहीं है।",
];

/// The texts of `Language::parse_targets_invalid_end_ip_error`, one per language in the order of [`LANGUAGES`].
pub const PARSE_TARGETS_INVALID_END_IP_ERROR_TEXTS: [&'static str; 6] = [
    "종료 IP 형식이 올바르지 않습니다.",
    "The ending IP address isn't valid.",
    "结束 IP 地址无效。",
    "L'adresse IP de fin n'est pas valide.",
    "Die End-IP-Adresse ist ungueltig.",
    "अंतिम IP पता मान्य नहीं है।",
];

/// The texts of `Language::parse_targets_invalid_last_octet_error`, one per language in the order of [`LANGUAGES`].
pub const PARSE_TARGETS_INVALID_LAST_OCTET_ERROR_TEXTS: [&'static str; 6] = [
    "끝 범위는 마지막 옥텟(0-255) 또는 전체 IP여야 합니다.",
    "The range end must be a last octet (0-255) or a full IP address.",
    "范围结束值必须是最后一个八位字节（0-255）或完整 IP 地址。",
    "La fin de plage doit etre un dernier octet (0-255) ou une adresse IP complete.",
    "Das Bereichsende muss ein letztes Oktett (0-255) oder eine vollstaendige IP-Adresse sein.",
    "सीमा का अंत 0-255 का अंतिम ऑक्टेट या पूरा IP पता होना चाहिए।",
];

/// The texts of `Language::parse_targets_supported_formats_error`, one per language in the order of [`LANGUAGES`].
pub const PARSE_TARGETS_SUPPORTED_FORMATS_ERROR_TEXTS: [&'static str; 6] = [
    "지원 형식: 192.168.1, 192.168.1.1-254, 192.168.1.1-192.168.1.50, 192.168.1.0/24",
    "Supported formats: 192.168.1, 192.168.1.1-254, 192.168.1.1-192.168.1.50, 192.168.1.0/24",
    "支持的格式：192.168.1、192.168.1.1-254、192.168.1.1-192.168.1.50、192.168.1.0/24",
    "Formats pris en charge : 192.168.1, 192.168.1.1-254, 192.168.1.1-192.168.1.50, 192.168.1.0/24",
    "Unterstuetzte Formate: 192.168.1, 192.168.1.1-254, 192.168.1.1-192.168.1.50, 192.168.1.0/24",
    "समर्थित प्रारूप: 192.168.1, 192.168.1.1-254, 192.168.1.1-192.168.1.50, 192.168.1.0/24",
];

/// The texts of `Language::expand_range_invalid_order_error`, one per language in the order of [`LANGUAGES`].
pub const EXPAND_RANGE_INVALID_ORDER_ERROR_TEXTS: [&'static str; 6] = [
    "시작 IP가 종료 IP보다 클 수 없습니다.",
    "The starting IP address can't be greater than the ending IP address.",
    "起始 IP 地址不能大于结束 IP 地址。",
    "L'adresse IP de debut ne peut pas etre superieure a l'adresse IP de fin.",
    "Die Start-IP-Adresse darf nicht groesser als die End-IP-Adresse sein.",
    "शुरुआती IP पता अंतिम IP पते से बड़ा नहीं हो सकता।",
];

/// The texts of `Language::expand_range_too_large_error`, one per language in the order of [`LANGUAGES`].
pub const EXPAND_RANGE_TOO_LARGE_ERROR_TEXTS: [&'static str; 6] = [
    "한 번에 최대 65,536개 IP까지만 스캔할 수 있습니다.",
    "You can scan up to 65,536 IP addresses at a time.",
    "一次最多只能扫描 65,536 个 IP 地址。",
    "Vous pouvez analyser jusqu'a 65 536 adresses IP a la fois.",
    "Sie koennen bis zu 65.536 IP-Adressen auf einmal scannen.",
    "आप एक बार में अधिकतम 65,536 IP पते स्कैन कर सकते हैं।",
];

/// Piece 0 of the texts of `Language::scan_started_status`, one per language in the order of [`LANGUAGES`].
pub const SCAN_STARTED_STATUS_PART0: [&'static str; 6] = [
    "",
    "Scanning ",
    "正在扫描 ",
    "Analyse de ",
    "",
    "",
];

/// Piece 1 of the texts of `Language::scan_started_status`, one per language in the order of [`LANGUAGES`].
pub const SCAN_STARTED_STATUS_PART1: [&'static str; 6] = [
    "개 주소를 검사하는 중입니다...",
    " addresses...",
    " 个地址...",
    " adresses...",
    " Adressen werden gescannt...",
    " पतों को स्कैन किया जा रहा है...",
];

/// Piece 0 of the texts of `Language::scanner_thread_pool_error`, one per language in the order of [`LANGUAGES`].
pub const SCANNER_THREAD_POOL_ERROR_PART0: [&'static str; 6] = [
    "스캐너 스레드 풀을 만들지 못했습니다: ",
    "Couldn't create the scan worker pool: ",
    "无法创建扫描线程池：",
    "Impossible de creer le pool de threads d'analyse : ",
    "Der Scan-Thread-Pool konnte nicht erstellt werden: ",
    "स्कैन वर्कर पूल नहीं बनाया जा सका: ",
];

/// Piece 1 of the texts of `Language::scanner_thread_pool_error`, one per language in the order of [`LANGUAGES`].
pub const SCANNER_THREAD_POOL_ERROR_PART1: [&'static str; 6] = [
    "",
    "",
    "",
    "",
    "",
    "",
];

/// Piece 0 of the texts of `Language::scan_cancelled_status`, one per language in the order of [`LANGUAGES`].
pub const SCAN_CANCELLED_STATUS_PART0: [&'static str; 6] = [
    "스캔이 중지되었습니다. 완료 ",
    "Scan stopped. Finished ",
    "扫描已停止。已完成 ",
    "Analyse arretee. ",
    "Scan gestoppt. ",
    "स्कैन रोक दिया गया। ",
];

/// Piece 1 of the texts of `Language::scan_cancelled_status`, one per language in the order of [`LANGUAGES`].
pub const SCAN_CANCELLED_STATUS_PART1: [&'static str; 6] = [
    " / ",
    " of ",
    " / ",
    " cibles terminees sur ",
    " von ",
    " में से ",
];

/// Piece 2 of the texts of `Language::scan_cancelled_status`, one per language in the order of [`LANGUAGES`].
pub const SCAN_CANCELLED_STATUS_PART2: [&'static str; 6] = [
    "",
    " targets.",
    "",
    ".",
    " Zielen abgeschlossen.",
    " पूरे हुए।",
];

/// Piece 0 of the texts of `Language::scan_completed_status`, one per language in the order of [`LANGUAGES`].
pub const SCAN_COMPLETED_STATUS_PART0: [&'static str; 6] = [
    "스캔 완료: 사용 중 ",
    "Scan complete: ",
    "扫描完成：活跃设备 ",
    "Analyse terminee : ",
    "Scan abgeschlossen: ",
    "स्कैन पूरा हुआ: ",
];

/// Piece 1 of the texts of `Language::scan_completed_status`, one per language in the order of [`LANGUAGES`].
pub const SCAN_COMPLETED_STATUS_PART1: [&'static str; 6] = [
    " / 전체 ",
    " active out of ",
    " / 总数 ",
    " appareils actifs sur ",
    " aktive Geraete von ",
    " में से ",
];

/// Piece 2 of the texts of `Language::scan_completed_status`, one per language in the order of [`LANGUAGES`].
pub const SCAN_COMPLETED_STATUS_PART2: [&'static str; 6] = [
    "",
    " targets.",
    "",
    ".",
    " Zielen.",
    " सक्रिय डिवाइस।",
];

/// Piece 0 of the texts of `Language::saved_results_status`, one per language in the order of [`LANGUAGES`].
pub const SAVED_RESULTS_STATUS_PART0: [&'static str; 6] = [
    "결과를 저장했습니다: ",
    "Results saved to ",
    "结果已保存到 ",
    "Resultats enregistres dans ",
    "Ergebnisse gespeichert unter ",
    "परिणाम यहां सहेजे गए: ",
];

/// Piece 1 of the texts of `Language::saved_results_status`, one per language in the order of [`LANGUAGES`].
pub const SAVED_RESULTS_STATUS_PART1: [&'static str; 6] = [
    "",
    "",
    "",
    "",
    "",
    "",
];

/// Piece 0 of the texts of `Language::save_results_failed_status`, one per language in the order of [`LANGUAGES`].
pub const SAVE_RESULTS_FAILED_STATUS_PART0: [&'static str; 6] = [
    "결과 저장 실패: ",
    "Couldn't save the results: ",
    "无法保存结果：",
    "Impossible d'enregistrer les resultats : ",
    "Ergebnisse konnten nicht gespeichert werden: ",
    "परिणाम सहेजे नहीं जा सके: ",
];

/// Piece 1 of the texts of `Language::save_results_failed_status`, one per language in the order of [`LANGUAGES`].
pub const SAVE_RESULTS_FAILED_STATUS_PART1: [&'static str; 6] = [
    "",
    "",
    "",
    "",
    "",
    "",
];

/// Piece 0 of the texts of `Language::settings_save_failed_status`, one per language in the order of [`LANGUAGES`].
pub const SETTINGS_SAVE_FAILED_STATUS_PART0: [&'static str; 6] = [
    "설정 저장 실패: ",
    "Couldn't save your settings: ",
    "无法保存设置：",
    "Impossible d'enregistrer les parametres : ",
    "Einstellungen konnten nicht gespeichert werden: ",
    "आपकी सेटिंग्स सहेजी नहीं जा सकीं: ",
];

/// Piece 1 of the texts of `Language::settings_save_failed_status`, one per language in the order of [`LANGUAGES`].
pub const SETTINGS_SAVE_FAILED_STATUS_PART1: [&'static str; 6] = [
    "",
    "",
    "",
    "",
    "",
    "",
];

/// Piece 0 of the texts of `Language::scan_summary`, one per language in the order of [`LANGUAGES`].
pub const SCAN_SUMMARY_PART0: [&'static str; 6] = [
    "사용 중 ",
    "Active ",
    "活跃 ",
    "Actifs ",
    "Aktiv ",
    "सक्रिय ",
];

/// Piece 1 of the texts of `Language::scan_summary`, one per language in the order of [`LANGUAGES`].
pub const SCAN_SUMMARY_PART1: [&'static str; 6] = [
    " / 전체 ",
    " / Total ",
    " / 总数 ",
    " / Total ",
    " / Gesamt ",
    " / कुल ",
];

/// Piece 2 of the texts of `Language::scan_summary`, one per language in the order of [`LANGUAGES`].
pub const SCAN_SUMMARY_PART2: [&'static str; 6] = [
    " / 진행 ",
    " / Processed ",
    " / 已处理 ",
    " / Traites ",
    " / Verarbeitet ",
    " / संसाधित ",
];

/// Piece 3 of the texts of `Language::scan_summary`, one per language in the order of [`LANGUAGES`].
pub const SCAN_SUMMARY_PART3: [&'static str; 6] = [
    "",
    "",
    "",
    "",
    "",
    "",
];

/// Piece 0 of the texts of `Language::summary_progress_detail`, one per language in the order of [`LANGUAGES`].
pub const SUMMARY_PROGRESS_DETAIL_PART0: [&'static str; 6] = [
    "",
    "",
    "已处理 ",
    "",
    "",
    "",
];

/// Piece 1 of the texts of `Language::summary_progress_detail`, one per language in the order of [`LANGUAGES`].
pub const SUMMARY_PROGRESS_DETAIL_PART1: [&'static str; 6] = [
    " / ",
    " / ",
    " / ",
    " / ",
    " / ",
    " / ",
];

/// Piece 2 of the texts of `Language::summary_progress_detail`, one per language in the order of [`LANGUAGES`].
pub const SUMMARY_PROGRESS_DETAIL_PART2: [&'static str; 6] = [
    " 완료",
    " processed",
    "",
    " traites",
    " verarbeitet",
    " संसाधित",
];

/// Piece 0 of the texts of `Language::summary_active_detail`, one per language in the order of [`LANGUAGES`].
pub const SUMMARY_ACTIVE_DETAIL_PART0: [&'static str; 6] = [
    "대상 ",
    "Responding devices out of ",
    "",
    "Appareils repondant sur ",
    "Antwortende Geraete von ",
    "",
];

/// Piece 1 of the texts of `Language::summary_active_detail`, one per language in the order of [`LANGUAGES`].
pub const SUMMARY_ACTIVE_DETAIL_PART1: [&'static str; 6] = [
    "개 중 응답함",
    "",
    " 个目标中有响应的设备",
    " cibles",
    " Zielen",
    " लक्ष्यों में प्रतिक्रिया देने वाले डिवाइस",
];

impl Language {
    /// The position of the language in [`LANGUAGES`].
    pub open spec fn slot_spec(self) -> int {
        match self {
            Language::Korean => 0,
            Language::English => 1,
            Language::ChineseSimplified => 2,
            Language::French => 3,
            Language::German => 4,
            Language::Hindi => 5,
        }
    }

    pub fn slot(self) -> (i: usize)
        ensures
            i as int == self.slot_spec(),
            i < 6,
    {
        match self {
            Language::Korean => 0,
            Language::English => 1,
            Language::ChineseSimplified => 2,
            Language::French => 3,
            Language::German => 4,
            Language::Hindi => 5,
        }
    }

    /// Every language, each once.
    pub fn all() -> (r: &'static [Language])
        ensures
            r@ == LANGUAGES@,
            r@ == seq![
                Language::Korean,
                Language::English,
                Language::ChineseSimplified,
                Language::French,
                Language::German,
                Language::Hindi,
            ],
    {
        &LANGUAGES
    }

    /// The program's name, the same in every language.
    pub fn app_title(self) -> (r: &'static str)
        ensures
            r@ == "IPScanner"@,
    {
        "IPScanner"
    }

    /// What stands in an empty cell.
    pub fn no_value(self) -> (r: &'static str)
        ensures
            r@ == "-"@,
    {
        "-"
    }

    pub fn label(self) -> (r: &'static str)
        ensures
            r == LABEL_TEXTS@[self.slot_spec()],
    {
        LABEL_TEXTS[self.slot()]
    }

    pub fn app_subtitle(self) -> (r: &'static str)
        ensures
            r == APP_SUBTITLE_TEXTS@[self.slot_spec()],
    {
        APP_SUBTITLE_TEXTS[self.slot()]
    }

    pub fn language_label(self) -> (r: &'static str)
        ensures
            r == LANGUAGE_LABEL_TEXTS@[self.slot_spec()],
    {
        LANGUAGE_LABEL_TEXTS[self.slot()]
    }

    pub fn range_input_label(self) -> (r: &'static str)
        ensures
            r == RANGE_INPUT_LABEL_TEXTS@[self.slot_spec()],
    {
        RANGE_INPUT_LABEL_TEXTS[self.slot()]
    }

    pub fn range_hint(self) -> (r: &'static str)
        ensures
            r == RANGE_HINT_TEXTS@[self.slot_spec()],
    {
        RANGE_HINT_TEXTS[self.slot()]
    }

    pub fn presets_label(self) -> (r: &'static str)
        ensures
            r == PRESETS_LABEL_TEXTS@[self.slot_spec()],
    {
        PRESETS_LABEL_TEXTS[self.slot()]
    }

    pub fn device_names_label(self) -> (r: &'static str)
        ensures
            r == DEVICE_NAMES_LABEL_TEXTS@[self.slot_spec()],
    {
        DEVICE_NAMES_LABEL_TEXTS[self.slot()]
    }

    pub fn view_mode_label(self) -> (r: &'static str)
        ensures
            r == VIEW_MODE_LABEL_TEXTS@[self.slot_spec()],
    {
        VIEW_MODE_LABEL_TEXTS[self.slot()]
    }

    pub fn map_view_label(self) -> (r: &'static str)
        ensures
            r == MAP_VIEW_LABEL_TEXTS@[self.slot_spec()],
    {
        MAP_VIEW_LABEL_TEXTS[self.slot()]
    }

    pub fn table_view_label(self) -> (r: &'static str)
        ensures
            r == TABLE_VIEW_LABEL_TEXTS@[self.slot_spec()],
    {
        TABLE_VIEW_LABEL_TEXTS[self.slot()]
    }

    pub fn start_scan_label(self) -> (r: &'static str)
        ensures
            r == START_SCAN_LABEL_TEXTS@[self.slot_spec()],
    {
        START_SCAN_LABEL_TEXTS[self.slot()]
    }

    pub fn stop_scan_label(self) -> (r: &'static str)
        ensures
            r == STOP_SCAN_LABEL_TEXTS@[self.slot_spec()],
    {
        STOP_SCAN_LABEL_TEXTS[self.slot()]
    }

    pub fn export_results_label(self) -> (r: &'static str)
        ensures
            r == EXPORT_RESULTS_LABEL_TEXTS@[self.slot_spec()],
    {
        EXPORT_RESULTS_LABEL_TEXTS[self.slot()]
    }

    pub fn idle_status(self) -> (r: &'static str)
        ensures
            r == IDLE_STATUS_TEXTS@[self.slot_spec()],
    {
        IDLE_STATUS_TEXTS[self.slot()]
    }

    pub fn stop_requested_status(self) -> (r: &'static str)
        ensures
            r == STOP_REQUESTED_STATUS_TEXTS@[self.slot_spec()],
    {
        STOP_REQUESTED_STATUS_TEXTS[self.slot()]
    }

    pub fn no_targets_status(self) -> (r: &'static str)
        ensures
            r == NO_TARGETS_STATUS_TEXTS@[self.slot_spec()],
    {
        NO_TARGETS_STATUS_TEXTS[self.slot()]
    }

    pub fn save_results_title(self) -> (r: &'static str)
        ensures
            r == SAVE_RESULTS_TITLE_TEXTS@[self.slot_spec()],
    {
        SAVE_RESULTS_TITLE_TEXTS[self.slot()]
    }

    pub fn status_field_label(self) -> (r: &'static str)
        ensures
            r == STATUS_FIELD_LABEL_TEXTS@[self.slot_spec()],
    {
        STATUS_FIELD_LABEL_TEXTS[self.slot()]
    }

    pub fn ip_field_label(self) -> (r: &'static str)
        ensures
            r == IP_FIELD_LABEL_TEXTS@[self.slot_spec()],
    {
        IP_FIELD_LABEL_TEXTS[self.slot()]
    }

    pub fn mac_field_label(self) -> (r: &'static str)
        ensures
            r == MAC_FIELD_LABEL_TEXTS@[self.slot_spec()],
    {
        MAC_FIELD_LABEL_TEXTS[self.slot()]
    }

    pub fn vendor_field_label(self) -> (r: &'static str)
        ensures
            r == VENDOR_FIELD_LABEL_TEXTS@[self.slot_spec()],
    {
        VENDOR_FIELD_LABEL_TEXTS[self.slot()]
    }

    pub fn hostname_field_label(self) -> (r: &'static str)
        ensures
            r == HOSTNAME_FIELD_LABEL_TEXTS@[self.slot_spec()],
    {
        HOSTNAME_FIELD_LABEL_TEXTS[self.slot()]
    }

    pub fn selected_device_label(self) -> (r: &'static str)
        ensures
            r == SELECTED_DEVICE_LABEL_TEXTS@[self.slot_spec()],
    {
        SELECTED_DEVICE_LABEL_TEXTS[self.slot()]
    }

    pub fn map_legend_pending(self) -> (r: &'static str)
        ensures
            r == MAP_LEGEND_PENDING_TEXTS@[self.slot_spec()],
    {
        MAP_LEGEND_PENDING_TEXTS[self.slot()]
    }

    pub fn map_legend_in_use(self) -> (r: &'static str)
        ensures
            r == MAP_LEGEND_IN_USE_TEXTS@[self.slot_spec()],
    {
        MAP_LEGEND_IN_USE_TEXTS[self.slot()]
    }

    pub fn map_legend_available(self) -> (r: &'static str)
        ensures
            r == MAP_LEGEND_AVAILABLE_TEXTS@[self.slot_spec()],
    {
        MAP_LEGEND_AVAILABLE_TEXTS[self.slot()]
    }

    pub fn empty_title(self) -> (r: &'static str)
        ensures
            r == EMPTY_TITLE_TEXTS@[self.slot_spec()],
    {
        EMPTY_TITLE_TEXTS[self.slot()]
    }

    pub fn empty_body(self) -> (r: &'static str)
        ensures
            r == EMPTY_BODY_TEXTS@[self.slot_spec()],
    {
        EMPTY_BODY_TEXTS[self.slot()]
    }

    pub fn empty_tip(self) -> (r: &'static str)
        ensures
            r == EMPTY_TIP_TEXTS@[self.slot_spec()],
    {
        EMPTY_TIP_TEXTS[self.slot()]
    }

    pub fn apply_detected_range_label(self) -> (r: &'static str)
        ensures
            r == APPLY_DETECTED_RANGE_LABEL_TEXTS@[self.slot_spec()],
    {
        APPLY_DETECTED_RANGE_LABEL_TEXTS[self.slot()]
    }

    pub fn summary_total_label(self) -> (r: &'static str)
        ensures
            r == SUMMARY_TOTAL_LABEL_TEXTS@[self.slot_spec()],
    {
        SUMMARY_TOTAL_LABEL_TEXTS[self.slot()]
    }

    pub fn summary_active_label(self) -> (r: &'static str)
        ensures
            r == SUMMARY_ACTIVE_LABEL_TEXTS@[self.slot_spec()],
    {
        SUMMARY_ACTIVE_LABEL_TEXTS[self.slot()]
    }

    pub fn summary_available_label(self) -> (r: &'static str)
        ensures
            r == SUMMARY_AVAILABLE_LABEL_TEXTS@[self.slot_spec()],
    {
        SUMMARY_AVAILABLE_LABEL_TEXTS[self.slot()]
    }

    pub fn summary_progress_label(self) -> (r: &'static str)
        ensures
            r == SUMMARY_PROGRESS_LABEL_TEXTS@[self.slot_spec()],
    {
        SUMMARY_PROGRESS_LABEL_TEXTS[self.slot()]
    }

    pub fn summary_available_detail(self) -> (r: &'static str)
        ensures
            r == SUMMARY_AVAILABLE_DETAIL_TEXTS@[self.slot_spec()],
    {
        SUMMARY_AVAILABLE_DETAIL_TEXTS[self.slot()]
    }

    pub fn summary_total_detail(self) -> (r: &'static str)
        ensures
            r == SUMMARY_TOTAL_DETAIL_TEXTS@[self.slot_spec()],
    {
        SUMMARY_TOTAL_DETAIL_TEXTS[self.slot()]
    }

    pub fn parse_targets_required_error(self) -> (r: String)
        ensures
            r@ == PARSE_TARGETS_REQUIRED_ERROR_TEXTS@[self.slot_spec()]@,
    {
        String::from_str(PARSE_TARGETS_REQUIRED_ERROR_TEXTS[self.slot()])
    }

    pub fn parse_targets_ipv4_only_error(self) -> (r: String)
        ensures
            r@ == PARSE_TARGETS_IPV4_ONLY_ERROR_TEXTS@[self.slot_spec()]@,
    {
        String::from_str(PARSE_TARGETS_IPV4_ONLY_ERROR_TEXTS[self.slot()])
    }

    pub fn parse_targets_cidr_empty_error(self) -> (r: String)
        ensures
            r@ == PARSE_TARGETS_CIDR_EMPTY_ERROR_TEXTS@[self.slot_spec()]@,
    {
        String::from_str(PARSE_TARGETS_CIDR_EMPTY_ERROR_TEXTS[self.slot()])
    }

    pub fn parse_targets_invalid_start_ip_error(self) -> (r: String)
        ensures
            r@ == PARSE_TARGETS_INVALID_START_IP_ERROR_TEXTS@[self.slot_spec()]@,
    {
        String::from_str(PARSE_TARGETS_INVALID_START_IP_ERROR_TEXTS[self.slot()])
    }

    pub fn parse_targets_invalid_end_ip_error(self) -> (r: String)
        ensures
            r@ == PARSE_TARGETS_INVALID_END_IP_ERROR_TEXTS@[self.slot_spec()]@,
    {
        String::from_str(PARSE_TARGETS_INVALID_END_IP_ERROR_TEXTS[self.slot()])
    }

    pub fn parse_targets_invalid_last_octet_error(self) -> (r: String)
        ensures
            r@ == PARSE_TARGETS_INVALID_LAST_OCTET_ERROR_TEXTS@[self.slot_spec()]@,
    {
        String::from_str(PARSE_TARGETS_INVALID_LAST_OCTET_ERROR_TEXTS[self.slot()])
    }

    pub fn parse_targets_supported_formats_error(self) -> (r: String)
        ensures
            r@ == PARSE_TARGETS_SUPPORTED_FORMATS_ERROR_TEXTS@[self.slot_spec()]@,
    {
        String::from_str(PARSE_TARGETS_SUPPORTED_FORMATS_ERROR_TEXTS[self.slot()])
    }

    pub fn expand_range_invalid_order_error(self) -> (r: String)
        ensures
            r@ == EXPAND_RANGE_INVALID_ORDER_ERROR_TEXTS@[self.slot_spec()]@,
    {
        String::from_str(EXPAND_RANGE_INVALID_ORDER_ERROR_TEXTS[self.slot()])
    }

    pub fn expand_range_too_large_error(self) -> (r: String)
        ensures
            r@ == EXPAND_RANGE_TOO_LARGE_ERROR_TEXTS@[self.slot_spec()]@,
    {
        String::from_str(EXPAND_RANGE_TOO_LARGE_ERROR_TEXTS[self.slot()])
    }

    /// The text of `scan_started_status`.
    pub open spec fn scan_started_status_text(self, total_targets: nat) -> Seq<char> {
        SCAN_STARTED_STATUS_PART0@[self.slot_spec()]@ + decimal(total_targets) + SCAN_STARTED_STATUS_PART1@[self.slot_spec()]@
    }

    pub fn scan_started_status(self, total_targets: usize) -> (r: String)
        ensures
            r@ == self.scan_started_status_text(total_targets as nat),
    {
        let i = self.slot();
        let mut v: Vec<char> = Vec::new();
        push_str(&mut v, SCAN_STARTED_STATUS_PART0[i]);
        push_decimal(&mut v, total_targets as u64);
        push_str(&mut v, SCAN_STARTED_STATUS_PART1[i]);
        proof {
            assert(v@ =~= self.scan_started_status_text(total_targets as nat));
        }
        string_from_chars(&v)
    }

    /// The text of `scanner_thread_pool_error`.
    pub open spec fn scanner_thread_pool_error_text(self, err: Seq<char>) -> Seq<char> {
        SCANNER_THREAD_POOL_ERROR_PART0@[self.slot_spec()]@ + err + SCANNER_THREAD_POOL_ERROR_PART1@[self.slot_spec()]@
    }

    pub fn scanner_thread_pool_error(self, err: &str) -> (r: String)
        ensures
            r@ == self.scanner_thread_pool_error_text(err@),
    {
        let i = self.slot();
        let mut v: Vec<char> = Vec::new();
        push_str(&mut v, SCANNER_THREAD_POOL_ERROR_PART0[i]);
        push_str(&mut v, err);
        push_str(&mut v, SCANNER_THREAD_POOL_ERROR_PART1[i]);
        proof {
            assert(v@ =~= self.scanner_thread_pool_error_text(err@));
        }
        string_from_chars(&v)
    }

    /// The text of `scan_cancelled_status`.
    pub open spec fn scan_cancelled_status_text(self, processed: nat, total_targets: nat) -> Seq<char> {
        if self == Language::Hindi {
            SCAN_CANCELLED_STATUS_PART0@[self.slot_spec()]@ + decimal(total_targets) + SCAN_CANCELLED_STATUS_PART1@[self.slot_spec()]@ + decimal(processed) + SCAN_CANCELLED_STATUS_PART2@[self.slot_spec()]@
        } else {
            SCAN_CANCELLED_STATUS_PART0@[self.slot_spec()]@ + decimal(processed) + SCAN_CANCELLED_STATUS_PART1@[self.slot_spec()]@ + decimal(total_targets) + SCAN_CANCELLED_STATUS_PART2@[self.slot_spec()]@
        }
    }

    pub fn scan_cancelled_status(self, processed: usize, total_targets: usize) -> (r: String)
        ensures
            r@ == self.scan_cancelled_status_text(processed as nat, total_targets as nat),
    {
        let i = self.slot();
        let mut v: Vec<char> = Vec::new();
        if self == Language::Hindi {
            push_str(&mut v, SCAN_CANCELLED_STATUS_PART0[i]);
            push_decimal(&mut v, total_targets as u64);
            push_str(&mut v, SCAN_CANCELLED_STATUS_PART1[i]);
            push_decimal(&mut v, processed as u64);
            push_str(&mut v, SCAN_CANCELLED_STATUS_PART2[i]);
        } else {
            push_str(&mut v, SCAN_CANCELLED_STATUS_PART0[i]);
            push_decimal(&mut v, processed as u64);
            push_str(&mut v, SCAN_CANCELLED_STATUS_PART1[i]);
            push_decimal(&mut v, total_targets as u64);
            push_str(&mut v, SCAN_CANCELLED_STATUS_PART2[i]);
        }
        proof {
            assert(v@ =~= self.scan_cancelled_status_text(processed as nat, total_targets as nat));
        }
        string_from_chars(&v)
    }

    /// The text of `scan_completed_status`.
    pub open spec fn scan_completed_status_text(self, in_use: nat, total_targets: nat) -> Seq<char> {
        if self == Language::Hindi {
            SCAN_COMPLETED_STATUS_PART0@[self.slot_spec()]@ + decimal(total_targets) + SCAN_COMPLETED_STATUS_PART1@[self.slot_spec()]@ + decimal(in_use) + SCAN_COMPLETED_STATUS_PART2@[self.slot_spec()]@
        } else {
            SCAN_COMPLETED_STATUS_PART0@[self.slot_spec()]@ + decimal(in_use) + SCAN_COMPLETED_STATUS_PART1@[self.slot_spec()]@ + decimal(total_targets) + SCAN_COMPLETED_STATUS_PART2@[self.slot_spec()]@
        }
    }

    pub fn scan_completed_status(self, in_use: usize, total_targets: usize) -> (r: String)
        ensures
            r@ == self.scan_completed_status_text(in_use as nat, total_targets as nat),
    {
        let i = self.slot();
        let mut v: Vec<char> = Vec::new();
        if self == Language::Hindi {
            push_str(&mut v, SCAN_COMPLETED_STATUS_PART0[i]);
            push_decimal(&mut v, total_targets as u64);
            push_str(&mut v, SCAN_COMPLETED_STATUS_PART1[i]);
            push_decimal(&mut v, in_use as u64);
            push_str(&mut v, SCAN_COMPLETED_STATUS_PART2[i]);
        } else {
            push_str(&mut v, SCAN_COMPLETED_STATUS_PART0[i]);
            push_decimal(&mut v, in_use as u64);
            push_str(&mut v, SCAN_COMPLETED_STATUS_PART1[i]);
            push_decimal(&mut v, total_targets as u64);
            push_str(&mut v, SCAN_COMPLETED_STATUS_PART2[i]);
        }
        proof {
            assert(v@ =~= self.scan_completed_status_text(in_use as nat, total_targets as nat));
        }
        string_from_chars(&v)
    }

    /// The text of `saved_results_status`.
    pub open spec fn saved_results_status_text(self, path: Seq<char>) -> Seq<char> {
        SAVED_RESULTS_STATUS_PART0@[self.slot_spec()]@ + path + SAVED_RESULTS_STATUS_PART1@[self.slot_spec()]@
    }

    pub fn saved_results_status(self, path: &str) -> (r: String)
        ensures
            r@ == self.saved_results_status_text(path@),
    {
        let i = self.slot();
        let mut v: Vec<char> = Vec::new();
        push_str(&mut v, SAVED_RESULTS_STATUS_PART0[i]);
        push_str(&mut v, path);
        push_str(&mut v, SAVED_RESULTS_STATUS_PART1[i]);
        proof {
            assert(v@ =~= self.saved_results_status_text(path@));
        }
        string_from_chars(&v)
    }

    /// The text of `save_results_failed_status`.
    pub open spec fn save_results_failed_status_text(self, err: Seq<char>) -> Seq<char> {
        SAVE_RESULTS_FAILED_STATUS_PART0@[self.slot_spec()]@ + err + SAVE_RESULTS_FAILED_STATUS_PART1@[self.slot_spec()]@
    }

    pub fn save_results_failed_status(self, err: &str) -> (r: String)
        ensures
            r@ == self.save_results_failed_status_text(err@),
    {
        let i = self.slot();
        let mut v: Vec<char> = Vec::new();
        push_str(&mut v, SAVE_RESULTS_FAILED_STATUS_PART0[i]);
        push_str(&mut v, err);
        push_str(&mut v, SAVE_RESULTS_FAILED_STATUS_PART1[i]);
        proof {
            assert(v@ =~= self.save_results_failed_status_text(err@));
        }
        string_from_chars(&v)
    }

    /// The text of `settings_save_failed_status`.
    pub open spec fn settings_save_failed_status_text(self, err: Seq<char>) -> Seq<char> {
        SETTINGS_SAVE_FAILED_STATUS_PART0@[self.slot_spec()]@ + err + SETTINGS_SAVE_FAILED_STATUS_PART1@[self.slot_spec()]@
    }

    pub fn settings_save_failed_status(self, err: &str) -> (r: String)
        ensures
            r@ == self.settings_save_failed_status_text(err@),
    {
        let i = self.slot();
        let mut v: Vec<char> = Vec::new();
        push_str(&mut v, SETTINGS_SAVE_FAILED_STATUS_PART0[i]);
        push_str(&mut v, err);
        push_str(&mut v, SETTINGS_SAVE_FAILED_STATUS_PART1[i]);
        proof {
            assert(v@ =~= self.settings_save_failed_status_text(err@));
        }
        string_from_chars(&v)
    }

    /// The text of `scan_summary`.
    pub open spec fn scan_summary_text(self, in_use: nat, total_targets: nat, processed: nat) -> Seq<char> {
        SCAN_SUMMARY_PART0@[self.slot_spec()]@ + decimal(in_use) + SCAN_SUMMARY_PART1@[self.slot_spec()]@ + decimal(total_targets) + SCAN_SUMMARY_PART2@[self.slot_spec()]@ + decimal(processed) + SCAN_SUMMARY_PART3@[self.slot_spec()]@
    }

    pub fn scan_summary(self, in_use: usize, total_targets: usize, processed: usize) -> (r: String)
        ensures
            r@ == self.scan_summary_text(in_use as nat, total_targets as nat, processed as nat),
    {
        let i = self.slot();
        let mut v: Vec<char> = Vec::new();
        push_str(&mut v, SCAN_SUMMARY_PART0[i]);
        push_decimal(&mut v, in_use as u64);
        push_str(&mut v, SCAN_SUMMARY_PART1[i]);
        push_decimal(&mut v, total_targets as u64);
        push_str(&mut v, SCAN_SUMMARY_PART2[i]);
        push_decimal(&mut v, processed as u64);
        push_str(&mut v, SCAN_SUMMARY_PART3[i]);
        proof {
            assert(v@ =~= self.scan_summary_text(in_use as nat, total_targets as nat, processed as nat));
        }
        string_from_chars(&v)
    }

    /// The text of `summary_progress_detail`.
    pub open spec fn summary_progress_detail_text(self, processed: nat, total_targets: nat) -> Seq<char> {
        SUMMARY_PROGRESS_DETAIL_PART0@[self.slot_spec()]@ + decimal(processed) + SUMMARY_PROGRESS_DETAIL_PART1@[self.slot_spec()]@ + decimal(total_targets) + SUMMARY_PROGRESS_DETAIL_PART2@[self.slot_spec()]@
    }

    pub fn summary_progress_detail(self, processed: usize, total_targets: usize) -> (r: String)
        ensures
            r@ == self.summary_progress_detail_text(processed as nat, total_targets as nat),
    {
        let i = self.slot();
        let mut v: Vec<char> = Vec::new();
        push_str(&mut v, SUMMARY_PROGRESS_DETAIL_PART0[i]);
        push_decimal(&mut v, processed as u64);
        push_str(&mut v, SUMMARY_PROGRESS_DETAIL_PART1[i]);
        push_decimal(&mut v, total_targets as u64);
        push_str(&mut v, SUMMARY_PROGRESS_DETAIL_PART2[i]);
        proof {
            assert(v@ =~= self.summary_progress_detail_text(processed as nat, total_targets as nat));
        }
        string_from_chars(&v)
    }

    /// The text of `summary_active_detail`.
    pub open spec fn summary_active_detail_text(self, total_targets: nat) -> Seq<char> {
        SUMMARY_ACTIVE_DETAIL_PART0@[self.slot_spec()]@ + decimal(total_targets) + SUMMARY_ACTIVE_DETAIL_PART1@[self.slot_spec()]@
    }

    pub fn summary_active_detail(self, total_targets: usize) -> (r: String)
        ensures
            r@ == self.summary_active_detail_text(total_targets as nat),
    {
        let i = self.slot();
        let mut v: Vec<char> = Vec::new();
        push_str(&mut v, SUMMARY_ACTIVE_DETAIL_PART0[i]);
        push_decimal(&mut v, total_targets as u64);
        push_str(&mut v, SUMMARY_ACTIVE_DETAIL_PART1[i]);
        proof {
            assert(v@ =~= self.summary_active_detail_text(total_targets as nat));
        }
        string_from_chars(&v)
    }

    /// The column titles of an exported table: address, status, MAC, vendor, host name.
    pub fn export_headers(self) -> (r: [&'static str; 5])
        ensures
            r@ == seq![
                IP_FIELD_LABEL_TEXTS@[self.slot_spec()],
                STATUS_FIELD_LABEL_TEXTS@[self.slot_spec()],
                MAC_FIELD_LABEL_TEXTS@[self.slot_spec()],
                VENDOR_FIELD_LABEL_TEXTS@[self.slot_spec()],
                HOSTNAME_FIELD_LABEL_TEXTS@[self.slot_spec()],
            ],
    {
        [
            self.ip_field_label(),
            self.status_field_label(),
            self.mac_field_label(),
            self.vendor_field_label(),
            self.hostname_field_label(),
        ]
    }
}

} // verus!
