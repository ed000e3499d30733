//! What differs between the systems the scanner runs on: the names of the system tools,
//! where to look for them, and which fonts cover the interface languages.
use vstd::prelude::*;
use crate::text::{chars_of, push_str, string_from_chars};

verus! {

/// The family of operating system.
#[derive(Clone, Copy, Debug, PartialEq, Eq, Structural)]
pub enum Platform {
    Windows,
    MacOs,
    Other,
}

/// The system tools the scanner runs.
#[derive(Clone, Copy, Debug, PartialEq, Eq, Structural)]
pub enum SystemUtility {
    Ping,
    Arp,
    NbtStat,
}

/// The file name of a tool on a platform: Windows adds `.exe` to `ping`, `arp` and `nbtstat`.
pub open spec fn executable_name_spec(platform: Platform, base: Seq<char>) -> Seq<char> {
    if platform == Platform::Windows {
        if base == "ping"@ {
            "ping.exe"@
        } else if base == "arp"@ {
            "arp.exe"@
        } else if base == "nbtstat"@ {
            "nbtstat.exe"@
        } else {
            base
        }
    } else {
        base
    }
}

/// Only on Windows do tool names change, and there `ping`, `arp` and `nbtstat` get `.exe`
/// appended; every other name is used as it is.
pub proof fn tool_names_gain_exe_on_windows_only(platform: Platform, base: Seq<char>)
    ensures
        platform != Platform::Windows ==> executable_name_spec(platform, base) == base,
        platform == Platform::Windows && (base == "ping"@ || base == "arp"@ || base == "nbtstat"@)
            ==> executable_name_spec(platform, base) == base + ".exe"@,
        platform == Platform::Windows && !(base == "ping"@ || base == "arp"@ || base == "nbtstat"@)
            ==> executable_name_spec(platform, base) == base,
{
    reveal_strlit("ping");
    reveal_strlit("arp");
    reveal_strlit("nbtstat");
    reveal_strlit(".exe");
    reveal_strlit("ping.exe");
    reveal_strlit("arp.exe");
    reveal_strlit("nbtstat.exe");
    assert("ping"@ + ".exe"@ =~= "ping.exe"@);
    assert("arp"@ + ".exe"@ =~= "arp.exe"@);
    assert("nbtstat"@ + ".exe"@ =~= "nbtstat.exe"@);
}

fn same_text(a: &str, b: &str) -> (r: bool)
    ensures
        r == (a@ == b@),
{
    let x = chars_of(a);
    let y = chars_of(b);
    if x.len() != y.len() {
        return false;
    }
    for i in 0..x.len()
        invariant
            x@ == a@,
            y@ == b@,
            x.len() == y.len(),
            forall|k: int| 0 <= k < i ==> x@[k] == y@[k],
    {
        if x[i] != y[i] {
            assert(a@[i as int] != b@[i as int]);
            return false;
        }
    }
    assert(x@ =~= y@);
    true
}

/// The file name of a tool on a platform.
pub fn executable_name_for_platform(platform: Platform, base: &'static str) -> (r: &'static str)
    ensures
        r@ == executable_name_spec(platform, base@),
{
    if platform != Platform::Windows {
        return base;
    }
    if same_text(base, "ping") {
        "ping.exe"
    } else if same_text(base, "arp") {
        "arp.exe"
    } else if same_text(base, "nbtstat") {
        "nbtstat.exe"
    } else {
        base
    }
}

impl SystemUtility {
    /// The bare name of the tool.
    pub open spec fn base_name(self) -> Seq<char> {
        match self {
            SystemUtility::Ping => "ping"@,
            SystemUtility::Arp => "arp"@,
            SystemUtility::NbtStat => "nbtstat"@,
        }
    }

    /// The file name of the tool on a platform.
    pub fn executable_name(self, platform: Platform) -> (r: &'static str)
        ensures
            r@ == executable_name_spec(platform, self.base_name()),
    {
        match self {
            SystemUtility::Ping => executable_name_for_platform(platform, "ping"),
            SystemUtility::Arp => executable_name_for_platform(platform, "arp"),
            SystemUtility::NbtStat => executable_name_for_platform(platform, "nbtstat"),
        }
    }
}

/// The directories searched for a tool outside Windows, in order.
pub const UNIX_TOOL_DIRECTORIES: [&'static str; 6] = [
    "/usr/sbin",
    "/usr/bin",
    "/bin",
    "/sbin",
    "/opt/homebrew/bin",
    "/opt/homebrew/sbin",
];

/// The texts of a list of strings.
pub open spec fn path_texts(v: Seq<String>) -> Seq<Seq<char>> {
    v.map_values(|s: String| s@)
}

/// `dir` joined with `name` as `Path::join` joins them on a Unix system: an absolute
/// `name` stands for itself, else a `/` stands between them.
pub open spec fn unix_join(dir: Seq<char>, name: Seq<char>) -> Seq<char> {
    if name.len() > 0 && name[0] == '/' {
        name
    } else {
        dir + seq!['/'] + name
    }
}

/// The paths where a tool may lie outside Windows: the tool's name in each of
/// [`UNIX_TOOL_DIRECTORIES`], in order.
pub fn unix_utility_candidates(executable: &str) -> (r: Vec<String>)
    ensures
        path_texts(r@) == Seq::new(6, |i: int| unix_join(UNIX_TOOL_DIRECTORIES@[i]@, executable@)),
{
    let name = chars_of(executable);
    let absolute = name.len() > 0 && name[0] == '/';
    let mut r: Vec<String> = Vec::new();
    for i in 0..6
        invariant
            name@ == executable@,
            absolute == (executable@.len() > 0 && executable@[0] == '/'),
            path_texts(r@) == Seq::new(
                i as nat,
                |k: int| unix_join(UNIX_TOOL_DIRECTORIES@[k]@, executable@),
            ),
    {
        let dir = UNIX_TOOL_DIRECTORIES[i];
        assert(dir == UNIX_TOOL_DIRECTORIES@[i as int]);
        let mut v: Vec<char> = Vec::new();
        if !absolute {
            push_str(&mut v, dir);
            v.push('/');
        }
        push_str(&mut v, executable);
        assert(v@ =~= unix_join(UNIX_TOOL_DIRECTORIES@[i as int]@, executable@));
        let ghost prev = path_texts(r@);
        let path = string_from_chars(&v);
        r.push(path);
        assert(path_texts(r@) =~= prev.push(v@));
        assert(path_texts(r@) =~= Seq::new(
            (i + 1) as nat,
            |k: int| unix_join(UNIX_TOOL_DIRECTORIES@[k]@, executable@),
        ));
    }
    r
}

/// Fonts that cover the interface languages on Windows: (name, file).
pub const WINDOWS_FONTS: [(&'static str, &'static str); 10] = [
    ("microsoft-yahei", "C:\\Windows\\Fonts\\msyh.ttc"),
    ("microsoft-yahei-bold", "C:\\Windows\\Fonts\\msyhbd.ttc"),
    ("simhei", "C:\\Windows\\Fonts\\simhei.ttf"),
    ("simsun", "C:\\Windows\\Fonts\\simsun.ttc"),
    ("malgun", "C:\\Windows\\Fonts\\malgun.ttf"),
    ("malgun-light", "C:\\Windows\\Fonts\\malgunsl.ttf"),
    ("nanum-gothic", "C:\\Windows\\Fonts\\NanumGothic.ttf"),
    ("deng", "C:\\Windows\\Fonts\\Deng.ttf"),
    ("nirmala", "C:\\Windows\\Fonts\\Nirmala.ttf"),
    ("segoe-ui", "C:\\Windows\\Fonts\\segoeui.ttf"),
];

/// Fonts that cover the interface languages on macOS: (name, file).
pub const MACOS_FONTS: [(&'static str, &'static str); 5] = [
    ("apple-sd-gothic", "/System/Library/Fonts/Supplemental/Apple SD Gothic Neo.ttc"),
    ("pingfang", "/System/Library/Fonts/PingFang.ttc"),
    ("hiragino-sans", "/System/Library/Fonts/Supplemental/Hiragino Sans GB.ttc"),
    ("kohinoor-devanagari", "/System/Library/Fonts/Supplemental/Kohinoor Devanagari.ttc"),
    ("sf-pro", "/System/Library/Fonts/SFNS.ttf"),
];

/// Fonts that cover the interface languages on other systems: (name, file).
pub const OTHER_FONTS: [(&'static str, &'static str); 3] = [
    ("noto-sans-cjk", "/usr/share/fonts/opentype/noto/NotoSansCJK-Regular.ttc"),
    ("noto-devanagari", "/usr/share/fonts/truetype/noto/NotoSansDevanagari-Regular.ttf"),
    ("dejavu-sans", "/usr/share/fonts/truetype/dejavu/DejaVuSans.ttf"),
];

/// The fonts tried, in order, for the interface on a platform.
pub fn system_ui_font_candidates(platform: Platform) -> (r: &'static [(&'static str, &'static str)])
    ensures
        r@ == (match platform {
            Platform::Windows => WINDOWS_FONTS@,
            Platform::MacOs => MACOS_FONTS@,
            Platform::Other => OTHER_FONTS@,
        }),
{
    match platform {
        Platform::Windows => &WINDOWS_FONTS,
        Platform::MacOs => &MACOS_FONTS,
        Platform::Other => &OTHER_FONTS,
    }
}

} // verus!
