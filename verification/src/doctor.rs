//! The environment report: what was found, and what it means for the daemon.
use crate::fixed::{decimal_text, parse_fixed, parse_fixed_value, Fixed, ONE};
use crate::process::opt_string_view;
use crate::psi::GLOBAL_PSI;
use crate::text::{
    contains, dec, dec_string, find_char, find_line, first_with_prefix, has_part, has_prefix,
    index_of, is_digit, last_with_prefix, law_decimal_places, law_decimal_round_trip,
    law_first_with_prefix, law_last_with_prefix, law_prefixes, law_reading_numbers,
    lemma_first_with_prefix, line_list, lines, lowercase, nth_word, pad, padded, parse_bounded,
    parse_u32, parse_u64, same, slice_string, split, split_list, starts_with, texts, to_lowercase,
    to_uppercase, trim, trim_start, trimmed, uppercase, without_prefix, word, word_list, words,
};
use vstd::prelude::*;

verus! {

// -------------------------------------------------------------------- marks

/// Something is in order.
pub open spec fn good_text(s: Seq<char>) -> Seq<char> {
    "\x1b[32m✓\x1b[0m "@ + s
}

/// Something is not quite in order.
pub open spec fn warn_text(s: Seq<char>) -> Seq<char> {
    "\x1b[33m⚠\x1b[0m "@ + s
}

/// Something does not apply.
pub open spec fn skip_text(s: Seq<char>) -> Seq<char> {
    "\x1b[90m✗\x1b[0m "@ + s
}

/// A heading.
pub open spec fn bold_text(s: Seq<char>) -> Seq<char> {
    "\x1b[1m"@ + s + "\x1b[0m"@
}

/// Something is in order.
pub fn good(s: &str) -> (r: String)
    ensures
        r@ == good_text(s@),
{
    let mut t = "\x1b[32m✓\x1b[0m ".to_owned();
    t.append(s);
    t
}

/// Something is not quite in order.
pub fn warn(s: &str) -> (r: String)
    ensures
        r@ == warn_text(s@),
{
    let mut t = "\x1b[33m⚠\x1b[0m ".to_owned();
    t.append(s);
    t
}

/// Something does not apply.
pub fn skip(s: &str) -> (r: String)
    ensures
        r@ == skip_text(s@),
{
    let mut t = "\x1b[90m✗\x1b[0m ".to_owned();
    t.append(s);
    t
}

/// A heading.
pub fn bold(s: &str) -> (r: String)
    ensures
        r@ == bold_text(s@),
{
    let mut t = "\x1b[1m".to_owned();
    t.append(s);
    t.append("\x1b[0m");
    t
}

fn indented_line(s: String) -> (r: String)
    ensures
        r@ == "  "@ + s@,
{
    let mut t = "  ".to_owned();
    t.append(s.as_str());
    t
}

// ---------------------------------------------------------------------- GPU

/// Who made the GPU.
#[derive(Debug, Clone, Copy, PartialEq, Eq, Structural)]
pub enum GpuVendor {
    Intel,
    Amd,
    Nvidia,
    Unknown,
}

/// A node under `/sys/class/drm`.
#[derive(Debug)]
pub struct Card {
    pub name: String,
    pub vendor: String,
    pub uevent: String,
}

/// The GPU that was found.
#[derive(Debug)]
pub struct GpuInfo {
    pub vendor: GpuVendor,
    pub name: String,
}

/// Whether a node is a card, and none of its connectors.
pub open spec fn is_card(name: Seq<char>) -> bool {
    starts_with(name, "card"@) && !contains(name, "-"@)
}

/// The driver that an event file names.
pub open spec fn driver_of(uevent: Seq<char>) -> Seq<char> {
    match first_with_prefix(lines(uevent), "DRIVER="@) {
        Some(l) => l.skip("DRIVER="@.len() as int),
        None => "unknown"@,
    }
}

/// The vendor that an id stands for.
pub open spec fn vendor_of(id: Seq<char>) -> GpuVendor {
    if id == "0x8086"@ {
        GpuVendor::Intel
    } else if id == "0x1002"@ {
        GpuVendor::Amd
    } else if id == "0x10de"@ {
        GpuVendor::Nvidia
    } else {
        GpuVendor::Unknown
    }
}

/// What a card is called.
pub open spec fn card_label(id: Seq<char>, driver: Seq<char>) -> Seq<char> {
    match vendor_of(id) {
        GpuVendor::Intel => "Intel iGPU ("@ + driver + ")"@,
        GpuVendor::Amd => "AMD GPU ("@ + driver + ")"@,
        GpuVendor::Nvidia => "NVIDIA GPU ("@ + driver + ")"@,
        GpuVendor::Unknown => "Unknown GPU (vendor "@ + id + ")"@,
    }
}

/// The first card.
pub open spec fn first_card(cards: Seq<Card>) -> Option<Card>
    decreases cards.len(),
{
    if cards.len() == 0 {
        None
    } else if is_card(cards[0].name@) {
        Some(cards[0])
    } else {
        first_card(cards.drop_first())
    }
}

/// Tells what the first card is.
pub fn detect_gpu(cards: &Vec<Card>) -> (r: Option<GpuInfo>)
    ensures
        match first_card(cards@) {
            Some(c) => {
                &&& r is Some
                &&& r->Some_0.vendor == vendor_of(trim(c.vendor@))
                &&& r->Some_0.name@ == card_label(trim(c.vendor@), driver_of(c.uevent@))
            },
            None => r is None,
        },
{
    let mut i: usize = 0;
    assert(cards@.skip(0) =~= cards@);
    while i < cards.len()
        invariant
            i <= cards.len(),
            first_card(cards@.skip(i as int)) == first_card(cards@),
        decreases cards.len() - i,
    {
        assert(cards@.skip(i as int).drop_first() =~= cards@.skip(i as int + 1));
        let c = &cards[i];
        if has_prefix(c.name.as_str(), "card") && !has_part(c.name.as_str(), "-") {
            let id = trimmed(c.vendor.as_str());
            proof {
                lemma_first_with_prefix(lines(c.uevent@), "DRIVER="@);
            }
            let driver = match find_line(c.uevent.as_str(), "DRIVER=") {
                Some(l) => match without_prefix(l.as_str(), "DRIVER=") {
                    Some(d) => d,
                    None => "unknown".to_owned(),
                },
                None => "unknown".to_owned(),
            };
            let vendor = if same(id.as_str(), "0x8086") {
                GpuVendor::Intel
            } else if same(id.as_str(), "0x1002") {
                GpuVendor::Amd
            } else if same(id.as_str(), "0x10de") {
                GpuVendor::Nvidia
            } else {
                GpuVendor::Unknown
            };
            let mut name;
            match vendor {
                GpuVendor::Intel => {
                    name = "Intel iGPU (".to_owned();
                    name.append(driver.as_str());
                },
                GpuVendor::Amd => {
                    name = "AMD GPU (".to_owned();
                    name.append(driver.as_str());
                },
                GpuVendor::Nvidia => {
                    name = "NVIDIA GPU (".to_owned();
                    name.append(driver.as_str());
                },
                GpuVendor::Unknown => {
                    name = "Unknown GPU (vendor ".to_owned();
                    name.append(id.as_str());
                },
            }
            name.append(")");
            return Some(GpuInfo { vendor, name });
        }
        i = i + 1;
    }
    None
}

// --------------------------------------------------------------------- swap

/// The swap devices.
#[derive(Debug)]
pub struct SwapInfo {
    pub has_zram: bool,
    pub devices: Vec<String>,
}

/// The devices that rows of `/proc/swaps` name.
pub open spec fn swap_devices(rows: Seq<Seq<char>>) -> Seq<Seq<char>>
    decreases rows.len(),
{
    if rows.len() == 0 {
        Seq::empty()
    } else {
        match word(rows.last(), 0) {
            Some(d) => swap_devices(rows.drop_last()).push(d),
            None => swap_devices(rows.drop_last()),
        }
    }
}

/// Lists the swap devices from what `/proc/swaps` holds.
pub fn detect_swap(swaps: Option<&str>) -> (r: SwapInfo)
    ensures
        texts(r.devices@) == match swaps {
            Some(c) => swap_devices(crate::zram::table_rows(c@)),
            None => Seq::empty(),
        },
        r.has_zram == exists|i: int|
            0 <= i < r.devices@.len() && contains((#[trigger] r.devices@[i])@, "zram"@),
{
    let mut devices: Vec<String> = Vec::new();
    let mut has_zram = false;
    assert(texts(devices@) =~= Seq::<Seq<char>>::empty());
    let c = match swaps {
        Some(c) => c,
        None => {
            return SwapInfo { has_zram, devices };
        },
    };
    let ls = line_list(c);
    let ghost all = lines(c@);
    let ghost rows = crate::zram::table_rows(c@);
    let mut i: usize = 1;
    assert(rows.take(0) =~= Seq::<Seq<char>>::empty());
    while i < ls.len()
        invariant
            1 <= i,
            texts(ls@) == all,
            all == lines(c@),
            rows == crate::zram::table_rows(c@),
            i <= ls.len() || ls.len() == 0,
            ls.len() > 0 ==> texts(devices@) == swap_devices(rows.take(i - 1)),
            ls.len() == 0 ==> devices@.len() == 0,
            has_zram == exists|k: int|
                0 <= k < devices@.len() && contains((#[trigger] devices@[k])@, "zram"@),
        decreases ls.len() - i,
    {
        assert(texts(ls@)[i as int] == ls@[i as int]@);
        assert(rows =~= all.skip(1));
        assert(rows[i - 1] == ls@[i as int]@);
        assert(rows.take(i as int).drop_last() =~= rows.take(i - 1));
        let ghost done = devices@;
        if let Some(d) = nth_word(ls[i].as_str(), 0) {
            let zram = has_part(d.as_str(), "zram");
            let ghost dv = d@;
            devices.push(d);
            assert(texts(devices@) =~= texts(done).push(dv));
            proof {
                assert(devices@[done.len() as int]@ == dv);
                if has_zram {
                    let k = choose|k: int|
                        0 <= k < done.len() && contains((#[trigger] done[k])@, "zram"@);
                    assert(contains(devices@[k]@, "zram"@));
                }
                if exists|k: int|
                    0 <= k < devices@.len() && contains((#[trigger] devices@[k])@, "zram"@) {
                    let k = choose|k: int|
                        0 <= k < devices@.len() && contains((#[trigger] devices@[k])@, "zram"@);
                    if k < done.len() {
                        assert(contains(done[k]@, "zram"@));
                    }
                }
            }
            has_zram = has_zram || zram;
        }
        i = i + 1;
    }
    proof {
        if ls.len() > 0 {
            assert(rows =~= all.skip(1));
            assert(rows.take(i - 1) =~= rows);
        } else {
            assert(texts(devices@) =~= swap_devices(rows));
        }
    }
    SwapInfo { has_zram, devices }
}

// ------------------------------------------------------------------ desktop

/// What the session says of itself.
#[derive(Debug)]
pub struct SessionFacts {
    /// The desktop that the environment names.
    pub desktop: String,
    pub wayland: bool,
    pub x11: bool,
    /// The version of a running Plasma shell.
    pub plasma: Option<String>,
    /// The version of a running GNOME shell.
    pub gnome: Option<String>,
}

/// The desktop that was found.
#[derive(Debug)]
pub struct DesktopInfo {
    pub de: String,
    pub compositor: String,
    pub session: String,
}

/// The kind of session.
pub open spec fn session_word(wayland: bool, x11: bool) -> Seq<char> {
    if wayland {
        "wayland"@
    } else if x11 {
        "x11"@
    } else {
        "headless"@
    }
}

/// A version, or a question mark.
pub open spec fn version_or_unknown(v: Option<String>) -> Seq<char> {
    match v {
        Some(s) => s@,
        None => "?"@,
    }
}

/// The desktop and its compositor, by what the environment names in upper case.
pub open spec fn desktop_named(f: SessionFacts, upper: Seq<char>) -> (Seq<char>, Seq<char>) {
    if contains(upper, "KDE"@) || f.plasma is Some {
        (
            "KDE Plasma "@ + version_or_unknown(f.plasma),
            if f.wayland {
                "KWin Wayland"@
            } else {
                "KWin X11"@
            },
        )
    } else if contains(upper, "GNOME"@) || f.gnome is Some {
        (
            "GNOME Shell "@ + version_or_unknown(f.gnome),
            if f.wayland {
                "Mutter (Wayland)"@
            } else {
                "Mutter (X11)"@
            },
        )
    } else if contains(upper, "COSMIC"@) {
        ("COSMIC DE"@, "cosmic-comp"@)
    } else {
        (f.desktop@, "unknown ("@ + session_word(f.wayland, f.x11) + ")"@)
    }
}

fn version_text(v: &Option<String>) -> (r: &str)
    ensures
        r@ == version_or_unknown(*v),
{
    match v {
        Some(s) => s.as_str(),
        None => "?",
    }
}

/// Names the desktop; `upper` is what the environment names, in upper case.
pub fn name_desktop(f: &SessionFacts, upper: &str) -> (r: DesktopInfo)
    ensures
        (r.de@, r.compositor@) == desktop_named(*f, upper@),
        r.session@ == session_word(f.wayland, f.x11),
{
    let session = if f.wayland {
        "wayland"
    } else if f.x11 {
        "x11"
    } else {
        "headless"
    };
    if has_part(upper, "KDE") || f.plasma.is_some() {
        let mut de = "KDE Plasma ".to_owned();
        de.append(version_text(&f.plasma));
        let compositor = if f.wayland {
            "KWin Wayland"
        } else {
            "KWin X11"
        };
        return DesktopInfo {
            de,
            compositor: compositor.to_owned(),
            session: session.to_owned(),
        };
    }
    if has_part(upper, "GNOME") || f.gnome.is_some() {
        let mut de = "GNOME Shell ".to_owned();
        de.append(version_text(&f.gnome));
        let compositor = if f.wayland {
            "Mutter (Wayland)"
        } else {
            "Mutter (X11)"
        };
        return DesktopInfo {
            de,
            compositor: compositor.to_owned(),
            session: session.to_owned(),
        };
    }
    if has_part(upper, "COSMIC") {
        return DesktopInfo {
            de: "COSMIC DE".to_owned(),
            compositor: "cosmic-comp".to_owned(),
            session: session.to_owned(),
        };
    }
    let mut compositor = "unknown (".to_owned();
    compositor.append(session);
    compositor.append(")");
    DesktopInfo { de: f.desktop.clone(), compositor, session: session.to_owned() }
}

/// Names the desktop.
pub fn detect_desktop(f: &SessionFacts) -> (r: DesktopInfo)
    ensures
        (r.de@, r.compositor@) == desktop_named(*f, uppercase(f.desktop@)),
        r.session@ == session_word(f.wayland, f.x11),
{
    name_desktop(f, to_uppercase(f.desktop.as_str()).as_str())
}

/// The first word of the words that begins with a digit.
pub open spec fn first_number_word(ws: Seq<Seq<char>>) -> Option<Seq<char>>
    decreases ws.len(),
{
    if ws.len() == 0 {
        None
    } else if ws[0].len() > 0 && is_digit(ws[0][0]) {
        Some(ws[0])
    } else {
        first_number_word(ws.drop_first())
    }
}

/// The version in what a program prints: its first word that begins with a
/// digit.
pub fn get_version(output: &str) -> (r: String)
    ensures
        r@ == match first_number_word(words(output@)) {
            Some(w) => w,
            None => "installed"@,
        },
{
    let ws = word_list(output);
    let ghost all = words(output@);
    let mut i: usize = 0;
    assert(all.skip(0) =~= all);
    while i < ws.len()
        invariant
            i <= ws.len(),
            texts(ws@) == all,
            all == words(output@),
            first_number_word(all.skip(i as int)) == first_number_word(all),
        decreases ws.len() - i,
    {
        assert(texts(ws@)[i as int] == ws@[i as int]@);
        assert(all.skip(i as int).drop_first() =~= all.skip(i as int + 1));
        let w = ws[i].as_str();
        if !w.is_empty() {
            let c = w.get_char(0);
            if 48 <= c as u32 && c as u32 <= 57 {
                return w.to_owned();
            }
        }
        i = i + 1;
    }
    "installed".to_owned()
}

/// The version of the service manager, from what it prints: the second word of
/// its first line.
pub open spec fn systemd_version_of(output: Seq<char>) -> Option<nat> {
    if lines(output).len() == 0 {
        None
    } else {
        match word(lines(output)[0], 1) {
            Some(w) => parse_bounded(w, u32::MAX as nat),
            None => None,
        }
    }
}

/// The version of the service manager, from what it prints.
pub fn systemd_version(output: &str) -> (r: Option<u32>)
    ensures
        match r {
            Some(v) => systemd_version_of(output@) == Some(v as nat),
            None => systemd_version_of(output@) is None,
        },
{
    let ls = line_list(output);
    assert(texts(ls@).len() == ls@.len());
    if ls.len() == 0 {
        return None;
    }
    assert(texts(ls@)[0] == ls@[0]@);
    match nth_word(ls[0].as_str(), 1) {
        Some(w) => parse_u32(w.as_str()),
        None => None,
    }
}

// ----------------------------------------------------------------- pressure

/// How pressure can be watched.
#[derive(Debug)]
pub struct PsiFacts {
    /// The kernel reports pressure.
    pub available: bool,
    /// The file that the daemon reads.
    pub source: String,
    /// A trigger can be armed on that file.
    pub source_armable: bool,
    /// A trigger can be armed on the global file.
    pub global_armable: bool,
    pub systemd: Option<u32>,
}

/// Why a trigger cannot be armed on the session's file.
pub open spec fn arm_hint(systemd: Option<u32>) -> Seq<char> {
    match systemd {
        Some(v) => if v < 254 {
            "systemd "@ + dec(v as nat) + " < 254 leaves it root-owned"@
        } else {
            "cgroup file not writable"@
        },
        None => "cgroup file not writable"@,
    }
}

/// The lines about pressure.
pub open spec fn psi_report(f: PsiFacts) -> Seq<Seq<char>> {
    if !f.available {
        seq!["  "@ + warn_text("PSI unavailable — kernel CONFIG_PSI not enabled"@)]
    } else {
        let global = f.source@ == GLOBAL_PSI@;
        (if global {
            seq![
                "  "@ + good_text("PSI monitoring ("@ + GLOBAL_PSI@ + ", global)"@),
                "  "@ + warn_text(
                    "per-cgroup PSI unusable — daemon reads system-wide pressure"@,
                ),
            ]
        } else {
            seq!["  "@ + good_text("PSI monitoring ("@ + f.source@ + ", per-session cgroup)"@)]
        }) + (if f.source_armable {
            seq!["  "@ + good_text("PSI kernel trigger armable (zero-CPU idle)"@)]
        } else if !global && f.global_armable {
            seq![
                "  "@ + warn_text(
                    "cgroup PSI trigger not armable ("@ + arm_hint(f.systemd)
                        + ") — daemon falls back to global trigger"@,
                ),
            ]
        } else {
            seq!["  "@ + warn_text("PSI trigger not armable — daemon falls back to 5s polling"@)]
        })
    }
}

/// Reports how pressure is watched, and whether the daemon can sleep until the
/// kernel wakes it.
pub fn report_psi(f: &PsiFacts) -> (r: Vec<String>)
    ensures
        texts(r@) == psi_report(*f),
{
    let mut out: Vec<String> = Vec::new();
    if !f.available {
        out.push(indented_line(warn("PSI unavailable — kernel CONFIG_PSI not enabled")));
        assert(texts(out@) =~= psi_report(*f));
        return out;
    }
    let global = same(f.source.as_str(), GLOBAL_PSI);
    if global {
        let mut s = "PSI monitoring (".to_owned();
        s.append(GLOBAL_PSI);
        s.append(", global)");
        out.push(indented_line(good(s.as_str())));
        out.push(
            indented_line(warn("per-cgroup PSI unusable — daemon reads system-wide pressure")),
        );
    } else {
        let mut s = "PSI monitoring (".to_owned();
        s.append(f.source.as_str());
        s.append(", per-session cgroup)");
        out.push(indented_line(good(s.as_str())));
    }
    if f.source_armable {
        out.push(indented_line(good("PSI kernel trigger armable (zero-CPU idle)")));
    } else if !global && f.global_armable {
        let hint = match f.systemd {
            Some(v) => if v < 254 {
                let mut h = "systemd ".to_owned();
                h.append(dec_string(v as u64).as_str());
                h.append(" < 254 leaves it root-owned");
                h
            } else {
                "cgroup file not writable".to_owned()
            },
            None => "cgroup file not writable".to_owned(),
        };
        let mut s = "cgroup PSI trigger not armable (".to_owned();
        s.append(hint.as_str());
        s.append(") — daemon falls back to global trigger");
        out.push(indented_line(warn(s.as_str())));
    } else {
        out.push(indented_line(warn("PSI trigger not armable — daemon falls back to 5s polling")));
    }
    assert(texts(out@) =~= psi_report(*f));
    out
}

// ------------------------------------------------------------------ plugins

/// A plugin and how it stands.
#[derive(Debug)]
pub struct PluginStatus {
    pub name: String,
    pub running: bool,
    pub installed: bool,
}

/// The plugins that there are.
pub fn plugin_names() -> (r: Vec<&'static str>)
    ensures
        r@ == seq![
            "mgd-gpu-intel",
            "mgd-gpu-amd",
            "mgd-kde",
            "mgd-gnome",
            "mgd-cosmic",
            "mgd-zram",
        ],
{
    let mut v: Vec<&'static str> = Vec::new();
    v.push("mgd-gpu-intel");
    v.push("mgd-gpu-amd");
    v.push("mgd-kde");
    v.push("mgd-gnome");
    v.push("mgd-cosmic");
    v.push("mgd-zram");
    v
}

/// Whether a plugin is of use here. `desktop` is in lower case.
pub open spec fn of_use(
    name: Seq<char>,
    vendor: GpuVendor,
    desktop: Seq<char>,
    has_zram: bool,
) -> bool {
    if name == "mgd-gpu-intel"@ {
        vendor == GpuVendor::Intel
    } else if name == "mgd-gpu-amd"@ {
        vendor == GpuVendor::Amd
    } else if name == "mgd-kde"@ {
        contains(desktop, "kde"@) || contains(desktop, "plasma"@)
    } else if name == "mgd-gnome"@ {
        contains(desktop, "gnome"@)
    } else if name == "mgd-cosmic"@ {
        contains(desktop, "cosmic"@)
    } else if name == "mgd-zram"@ {
        has_zram
    } else {
        true
    }
}

/// Whether a plugin is of use here. `desktop` is in lower case.
pub fn is_applicable(name: &str, vendor: GpuVendor, desktop: &str, has_zram: bool) -> (r: bool)
    ensures
        r == of_use(name@, vendor, desktop@, has_zram),
{
    if same(name, "mgd-gpu-intel") {
        vendor == GpuVendor::Intel
    } else if same(name, "mgd-gpu-amd") {
        vendor == GpuVendor::Amd
    } else if same(name, "mgd-kde") {
        has_part(desktop, "kde") || has_part(desktop, "plasma")
    } else if same(name, "mgd-gnome") {
        has_part(desktop, "gnome")
    } else if same(name, "mgd-cosmic") {
        has_part(desktop, "cosmic")
    } else if same(name, "mgd-zram") {
        has_zram
    } else {
        true
    }
}

/// The line about a plugin.
pub open spec fn plugin_line(p: PluginStatus, applicable: bool) -> Seq<char> {
    let name = padded(p.name@, 18);
    if !applicable {
        skip_text(name + " (not applicable on this system)"@)
    } else if p.running {
        good_text(name + " running"@)
    } else if p.installed {
        warn_text(name + " installed but not running"@)
    } else {
        warn_text(name + " not installed (run ./install.sh)"@)
    }
}

/// The line about a plugin.
pub fn report_plugin(p: &PluginStatus, applicable: bool) -> (r: String)
    ensures
        r@ == plugin_line(*p, applicable),
{
    let mut s = pad(p.name.as_str(), 18);
    if !applicable {
        s.append(" (not applicable on this system)");
        return skip(s.as_str());
    }
    if p.running {
        s.append(" running");
        return good(s.as_str());
    }
    if p.installed {
        s.append(" installed but not running");
        return warn(s.as_str());
    }
    s.append(" not installed (run ./install.sh)");
    warn(s.as_str())
}

/// Whether a GPU plugin that is of use here is running.
pub open spec fn gpu_plugin_runs(
    plugins: Seq<PluginStatus>,
    vendor: GpuVendor,
    desktop: Seq<char>,
    has_zram: bool,
) -> bool {
    exists|i: int|
        0 <= i < plugins.len() && is_running_gpu_plugin(
            #[trigger] plugins[i],
            vendor,
            desktop,
            has_zram,
        )
}

/// Whether this is a GPU plugin that is of use here, and running.
pub open spec fn is_running_gpu_plugin(
    p: PluginStatus,
    vendor: GpuVendor,
    desktop: Seq<char>,
    has_zram: bool,
) -> bool {
    p.running && (p.name@ == "mgd-gpu-intel"@ || p.name@ == "mgd-gpu-amd"@) && of_use(
        p.name@,
        vendor,
        desktop,
        has_zram,
    )
}

/// The last value that a word of the answer gives for a key.
pub open spec fn last_value(ws: Seq<Seq<char>>, key: Seq<char>) -> Option<Seq<char>> {
    match last_with_prefix(ws, key) {
        Some(w) => Some(w.skip(key.len() as int)),
        None => None,
    }
}

/// The number that the last value of a key writes; zero without one.
pub open spec fn last_number(ws: Seq<Seq<char>>, key: Seq<char>) -> nat {
    match last_value(ws, key) {
        Some(v) => match parse_bounded(v, u64::MAX as nat) {
            Some(n) => n,
            None => 0,
        },
        None => 0,
    }
}

/// The line about what the daemon knows of GPU memory.
pub open spec fn gpu_cache_line(answer: Seq<char>) -> Seq<char> {
    let ws = words(answer);
    let pids = last_number(ws, "gpu_pids="@);
    let total = last_number(ws, "total_kb="@);
    if pids == 0 {
        warn_text("GPU cache empty — plugin connected but no observations yet"@)
    } else {
        good_text(
            "GPU cache: "@ + dec(pids) + " PID(s), "@ + dec(total / 1024) + " MB resident, last obs "@
                + match last_value(ws, "newest_obs="@) {
                Some(v) => v,
                None => "none"@,
            },
        )
    }
}

fn find_last_value(ws: &Vec<String>, key: &str) -> (r: Option<String>)
    ensures
        match r {
            Some(v) => last_value(texts(ws@), key@) == Some(v@),
            None => last_value(texts(ws@), key@) is None,
        },
{
    let ghost all = texts(ws@);
    let mut i: usize = ws.len();
    assert(all.take(i as int) =~= all);
    while i > 0
        invariant
            i <= ws.len(),
            all == texts(ws@),
            last_with_prefix(all.take(i as int), key@) == last_with_prefix(all, key@),
        decreases i,
    {
        assert(all.take(i as int).drop_last() =~= all.take(i - 1));
        assert(all[i - 1] == ws@[i - 1]@);
        if let Some(v) = without_prefix(ws[i - 1].as_str(), key) {
            return Some(v);
        }
        i = i - 1;
    }
    None
}

fn find_last_number(ws: &Vec<String>, key: &str) -> (r: u64)
    ensures
        r == last_number(texts(ws@), key@),
{
    match find_last_value(ws, key) {
        Some(v) => match parse_u64(v.as_str()) {
            Some(n) => n,
            None => 0,
        },
        None => 0,
    }
}

/// The line about what the daemon knows of GPU memory, from its answer to
/// `gpu-info`.
pub fn report_gpu_cache(answer: &str) -> (r: String)
    ensures
        r@ == gpu_cache_line(answer@),
{
    let ws = word_list(answer);
    let pids: u64 = find_last_number(&ws, "gpu_pids=");
    let total: u64 = find_last_number(&ws, "total_kb=");
    let newest = match find_last_value(&ws, "newest_obs=") {
        Some(v) => v,
        None => "none".to_owned(),
    };
    if pids == 0 {
        return warn("GPU cache empty — plugin connected but no observations yet");
    }
    let mut s = "GPU cache: ".to_owned();
    s.append(dec_string(pids).as_str());
    s.append(" PID(s), ");
    s.append(dec_string(total / 1024).as_str());
    s.append(" MB resident, last obs ");
    s.append(newest.as_str());
    good(s.as_str())
}

// -------------------------------------------------------------- calibration

/// What active calibration has left.
#[derive(Debug)]
pub struct CalibrationInfo {
    pub calibrated_at: Option<String>,
    pub target_available_pct: Option<u32>,
    pub swap_onset_mb: Option<u64>,
    pub psi_recovery_secs: Option<u64>,
}

/// How many leading characters are digits or spaces.
pub open spec fn digit_run(s: Seq<char>) -> nat
    decreases s.len(),
{
    if s.len() > 0 && (is_digit(s[0]) || s[0] == ' ') {
        1 + digit_run(s.drop_first())
    } else {
        0
    }
}

/// The target that a line gives: nothing where it does not speak of it, and
/// possibly no number where it does.
pub open spec fn target_in_line(line: Seq<char>) -> Option<Option<nat>> {
    let t = trim(line);
    if starts_with(t, "target_available_pct"@) {
        let pieces = split(t.skip("target_available_pct"@.len() as int), '=');
        if pieces.len() > 1 {
            Some(
                parse_bounded(
                    trim(pieces[1].take(digit_run(pieces[1]) as int)),
                    u32::MAX as nat,
                ),
            )
        } else {
            None
        }
    } else {
        None
    }
}

/// The target that the last line on it gives.
pub open spec fn last_target(ls: Seq<Seq<char>>) -> Option<nat>
    decreases ls.len(),
{
    if ls.len() == 0 {
        None
    } else {
        match target_in_line(ls.last()) {
            Some(v) => v,
            None => last_target(ls.drop_last()),
        }
    }
}

proof fn lemma_digit_run(s: Seq<char>, n: int)
    requires
        0 <= n <= s.len(),
        forall|i: int| 0 <= i < n ==> is_digit(#[trigger] s[i]) || s[i] == ' ',
        n < s.len() ==> !is_digit(s[n]) && s[n] != ' ',
    ensures
        digit_run(s) == n,
    decreases s.len(),
{
    if n > 0 {
        assert(is_digit(s[0]) || s[0] == ' ');
        assert forall|i: int| 0 <= i < n - 1 implies is_digit(#[trigger] s.drop_first()[i])
            || s.drop_first()[i] == ' ' by {
            assert(is_digit(s[i + 1]) || s[i + 1] == ' ');
        }
        lemma_digit_run(s.drop_first(), n - 1);
    }
}

fn leading_digits(s: &str) -> (r: String)
    ensures
        r@ == s@.take(digit_run(s@) as int),
{
    let cs = crate::text::chars(s);
    let mut i: usize = 0;
    while i < cs.len() && ((48 <= cs[i] as u32 && cs[i] as u32 <= 57) || cs[i] == ' ')
        invariant
            i <= cs.len(),
            cs@ == s@,
            forall|k: int| 0 <= k < i ==> is_digit(#[trigger] cs@[k]) || cs@[k] == ' ',
        decreases cs.len() - i,
    {
        i = i + 1;
    }
    proof {
        lemma_digit_run(s@, i as int);
        assert(cs@.subrange(0, i as int) =~= s@.take(i as int));
    }
    slice_string(&cs, 0, i)
}

/// The target in the file that active calibration has written.
fn read_target(toml: &str) -> (r: Option<u32>)
    ensures
        match r {
            Some(n) => last_target(lines(toml@)) == Some(n as nat),
            None => last_target(lines(toml@)) is None,
        },
{
    let ls = line_list(toml);
    let ghost all = lines(toml@);
    let mut i: usize = ls.len();
    assert(texts(ls@).len() == ls@.len());
    assert(all.take(i as int) =~= all);
    while i > 0
        invariant
            i <= ls.len(),
            texts(ls@) == all,
            all == lines(toml@),
            last_target(all.take(i as int)) == last_target(all),
        decreases i,
    {
        assert(all.take(i as int).drop_last() =~= all.take(i - 1));
        assert(texts(ls@)[i - 1] == ls@[i - 1]@);
        let t = trimmed(ls[i - 1].as_str());
        if let Some(rest) = without_prefix(t.as_str(), "target_available_pct") {
            let pieces = split_list(rest.as_str(), '=');
            assert(texts(pieces@).len() == pieces@.len());
            if pieces.len() > 1 {
                assert(texts(pieces@)[1] == pieces@[1]@);
                return parse_u32(trimmed(leading_digits(pieces[1].as_str()).as_str()).as_str());
            }
        }
        i = i - 1;
    }
    None
}

/// What active calibration has noted of the machine: when, where swapping
/// began, and how long the recovery took.
pub type MachineData = (Option<String>, Option<u64>, Option<u64>);

/// What `serde_json::from_str` reads from a text, where it reads it as a value:
/// what `Value::as_str` gives at the key `text`, and what `Value::as_u64` gives
/// at the keys `first` and `second`.
pub uninterp spec fn json_fields(
    data: Seq<char>,
    text: Seq<char>,
    first: Seq<char>,
    second: Seq<char>,
) -> Option<(Option<Seq<char>>, Option<u64>, Option<u64>)>;

/// What the machine data say, where they can be read.
pub open spec fn machine_data(data: Seq<char>) -> Option<
    (Option<Seq<char>>, Option<u64>, Option<u64>),
> {
    json_fields(data, "calibrated_at"@, "swap_onset_mb"@, "psi_recovery_secs"@)
}

/// Calls `serde_json::from_str` for a JSON value and takes the fields at three
/// keys out of it. What comes out depends on the text and the keys alone.
#[verifier::external_body]
fn read_machine_data(data: &str, text: &str, first: &str, second: &str) -> (r: Option<MachineData>)
    ensures
        match r {
            Some(m) => json_fields(data@, text@, first@, second@) == Some(
                (opt_string_view(m.0), m.1, m.2),
            ),
            None => json_fields(data@, text@, first@, second@) is None,
        },
{
    let v: serde_json::Value = serde_json::from_str(data).ok()?;
    Some((v[text].as_str().map(String::from), v[first].as_u64(), v[second].as_u64()))
}

/// Puts together what is known of active calibration: what the machine data
/// say, and the target in the written file.
pub fn calibration_info(machine: Option<MachineData>, toml: Option<&str>) -> (r: CalibrationInfo)
    ensures
        match machine {
            Some(m) => opt_string_view(r.calibrated_at) == opt_string_view(m.0)
                && r.swap_onset_mb == m.1 && r.psi_recovery_secs == m.2,
            None => r.calibrated_at is None && r.swap_onset_mb is None
                && r.psi_recovery_secs is None,
        },
        target_known(r.target_available_pct, toml),
{
    let target_available_pct = match toml {
        Some(t) => read_target(t),
        None => None,
    };
    match machine {
        Some((calibrated_at, swap_onset_mb, psi_recovery_secs)) => CalibrationInfo {
            calibrated_at,
            target_available_pct,
            swap_onset_mb,
            psi_recovery_secs,
        },
        None => CalibrationInfo {
            calibrated_at: None,
            target_available_pct,
            swap_onset_mb: None,
            psi_recovery_secs: None,
        },
    }
}

/// Whether `t` is the target that the file gives, if there is a file.
pub open spec fn target_known(t: Option<u32>, toml: Option<&str>) -> bool {
    match (t, toml) {
        (Some(n), Some(data)) => last_target(lines(data@)) == Some(n as nat),
        (None, Some(data)) => last_target(lines(data@)) is None,
        (Some(_), None) => false,
        (None, None) => true,
    }
}

/// Reads what active calibration has left: its machine data and the file with
/// the target, each where it could be read.
pub fn read_calibration(json: Option<&str>, toml: Option<&str>) -> (r: CalibrationInfo)
    ensures
        ({
            let known = match json {
                Some(data) => machine_data(data@),
                None => None,
            };
            match known {
                Some(m) => opt_string_view(r.calibrated_at) == m.0 && r.swap_onset_mb == m.1
                    && r.psi_recovery_secs == m.2,
                None => r.calibrated_at is None && r.swap_onset_mb is None
                    && r.psi_recovery_secs is None,
            }
        }),
        target_known(r.target_available_pct, toml),
{
    let machine = match json {
        Some(data) => read_machine_data(
            data,
            "calibrated_at",
            "swap_onset_mb",
            "psi_recovery_secs",
        ),
        None => None,
    };
    calibration_info(machine, toml)
}

/// The number that a line gives for a key, up to a comment.
pub open spec fn num_in_line(line: Seq<char>, key: Seq<char>) -> Option<nat> {
    let t = trim(line);
    if starts_with(t, key) {
        let rest = trim_start(t.skip(key.len() as int));
        if starts_with(rest, "="@) {
            parse_fixed_value(trim(split(rest.skip(1), '#')[0]))
        } else {
            None
        }
    } else {
        None
    }
}

/// The first number that the lines give for a key.
pub open spec fn first_num(ls: Seq<Seq<char>>, key: Seq<char>) -> Option<nat>
    decreases ls.len(),
{
    if ls.len() == 0 {
        None
    } else if num_in_line(ls[0], key) is Some {
        num_in_line(ls[0], key)
    } else {
        first_num(ls.drop_first(), key)
    }
}

proof fn lemma_first_piece(s: Seq<char>, c: char)
    ensures
        split(s, c).len() > 0,
        split(s, c)[0] == s.take(index_of(s, c) as int),
        index_of(s, c) <= s.len(),
{
    lemma_index_bound(s, c);
    if index_of(s, c) >= s.len() {
        assert(s.take(s.len() as int) =~= s);
    }
}

proof fn lemma_index_bound(s: Seq<char>, c: char)
    ensures
        index_of(s, c) <= s.len(),
    decreases s.len(),
{
    if s.len() > 0 {
        lemma_index_bound(s.drop_first(), c);
    }
}

fn left_trimmed(s: &str) -> (r: String)
    ensures
        r@ == trim_start(s@),
{
    let cs = crate::text::chars(s);
    let mut i: usize = 0;
    assert(cs@.skip(0) =~= cs@);
    while i < cs.len() && crate::text::space_char(cs[i])
        invariant
            i <= cs.len(),
            cs@ == s@,
            trim_start(cs@.skip(i as int)) == trim_start(s@),
        decreases cs.len() - i,
    {
        assert(cs@.skip(i as int).drop_first() =~= cs@.skip(i as int + 1));
        i = i + 1;
    }
    let n: usize = cs.len();
    assert(cs@.subrange(i as int, n as int) =~= cs@.skip(i as int));
    slice_string(&cs, i, n)
}

fn num_of_line(line: &str, key: &str) -> (r: Option<Fixed>)
    ensures
        match r {
            Some(f) => num_in_line(line@, key@) == Some(f.0 as nat),
            None => num_in_line(line@, key@) is None,
        },
{
    let t = trimmed(line);
    match without_prefix(t.as_str(), key) {
        None => None,
        Some(behind) => {
            let rest = left_trimmed(behind.as_str());
            proof {
                reveal_strlit("=");
            }
            match without_prefix(rest.as_str(), "=") {
                None => None,
                Some(value) => {
                    proof {
                        lemma_first_piece(value@, '#');
                    }
                    let v = value.as_str();
                    let n = find_char(v, '#');
                    assert(value@.subrange(0, n as int) =~= value@.take(n as int));
                    parse_fixed(trimmed(v.substring_char(0, n)).as_str())
                },
            }
        },
    }
}

/// The first number that a flat file gives for a key.
pub fn toml_num(data: &str, key: &str) -> (r: Option<Fixed>)
    ensures
        match r {
            Some(f) => first_num(lines(data@), key@) == Some(f.0 as nat),
            None => first_num(lines(data@), key@) is None,
        },
{
    let ls = line_list(data);
    let ghost all = lines(data@);
    let mut i: usize = 0;
    assert(all.skip(0) =~= all);
    while i < ls.len()
        invariant
            i <= ls.len(),
            texts(ls@) == all,
            all == lines(data@),
            first_num(all.skip(i as int), key@) == first_num(all, key@),
        decreases ls.len() - i,
    {
        assert(texts(ls@)[i as int] == ls@[i as int]@);
        assert(all.skip(i as int).drop_first() =~= all.skip(i as int + 1));
        if let Some(f) = num_of_line(ls[i].as_str(), key) {
            return Some(f);
        }
        i = i + 1;
    }
    None
}

/// A label and a value, in columns.
pub open spec fn labelled(label: Seq<char>, value: Seq<char>) -> Seq<char> {
    "  "@ + padded(label, 30) + " "@ + value
}

fn labelled_line(label: &str, value: &str) -> (r: String)
    ensures
        r@ == labelled(label@, value@),
{
    let mut s = "  ".to_owned();
    s.append(pad(label, 30).as_str());
    s.append(" ");
    s.append(value);
    s
}

/// The lines about active calibration.
pub open spec fn calibration_report(c: CalibrationInfo) -> Seq<Seq<char>> {
    match c.calibrated_at {
        Some(at) => seq!["  Using calibration from timestamp "@ + at@]
            + (match c.target_available_pct {
            Some(p) => seq![labelled("target_available_pct:"@, dec(p as nat) + "%"@)],
            None => Seq::empty(),
        }) + (match c.swap_onset_mb {
            Some(mb) => seq![labelled("swap_onset_mb:"@, dec(mb as nat) + " MB"@)],
            None => Seq::empty(),
        }) + (match c.psi_recovery_secs {
            Some(t) => seq![labelled("psi_recovery_secs:"@, dec(t as nat) + "s"@)],
            None => Seq::empty(),
        }),
        None => seq![
            "  "@ + warn_text(
                "No calibration data — using built-in conservative defaults (15% target)"@,
            ),
            "  Run: mgctl calibrate"@,
        ],
    }
}

fn with_unit(n: u64, unit: &str) -> (r: String)
    ensures
        r@ == dec(n as nat) + unit@,
{
    let mut s = dec_string(n);
    s.append(unit);
    s
}

/// The lines about active calibration.
pub fn report_calibration(c: &CalibrationInfo) -> (r: Vec<String>)
    ensures
        texts(r@) == calibration_report(*c),
{
    let mut out: Vec<String> = Vec::new();
    match &c.calibrated_at {
        Some(at) => {
            let mut s = "  Using calibration from timestamp ".to_owned();
            s.append(at.as_str());
            out.push(s);
            if let Some(p) = c.target_available_pct {
                out.push(labelled_line("target_available_pct:", with_unit(p as u64, "%").as_str()));
            }
            if let Some(mb) = c.swap_onset_mb {
                out.push(labelled_line("swap_onset_mb:", with_unit(mb, " MB").as_str()));
            }
            if let Some(t) = c.psi_recovery_secs {
                out.push(labelled_line("psi_recovery_secs:", with_unit(t, "s").as_str()));
            }
        },
        None => {
            out.push(
                indented_line(
                    warn(
                        "No calibration data — using built-in conservative defaults (15% target)",
                    ),
                ),
            );
            out.push("  Run: mgctl calibrate".to_owned());
        },
    }
    assert(texts(out@) =~= calibration_report(*c));
    out
}

/// What passive calibration has left: a suggestion, with its place, or what was
/// observed so far.
#[derive(Debug)]
pub struct PassiveFacts {
    pub suggestion_path: String,
    pub suggestion: Option<String>,
    pub state: Option<String>,
}

/// A number, or zero.
pub open spec fn num_or_zero(n: Option<nat>) -> nat {
    match n {
        Some(v) => v,
        None => 0,
    }
}

/// The lines about passive calibration.
pub open spec fn passive_report(f: PassiveFacts) -> Seq<Seq<char>> {
    match f.suggestion {
        Some(data) => seq![
            "  "@ + good_text("passive [psi] suggestion ready → "@ + f.suggestion_path@),
        ] + (match first_num(lines(data@), "elevated_pct"@) {
            Some(v) => seq![labelled("suggested elevated_pct:"@, decimal_text(v, 1) + "%"@)],
            None => Seq::empty(),
        }) + (match first_num(lines(data@), "full_critical_pct"@) {
            Some(v) => seq![labelled("suggested full_critical_pct:"@, decimal_text(v, 1) + "%"@)],
            None => Seq::empty(),
        }) + seq![
            "  Review the file, paste into ~/.config/mgd/priorities.toml, then: mgctl reload"@,
        ],
        None => match f.state {
            Some(data) => seq![
                "  "@ + warn_text(
                    "passive [psi] calibration accumulating — "@ + decimal_text(
                        num_or_zero(first_num(lines(data@), "observed_secs"@)) / 3600,
                        1,
                    ) + "h observed, "@ + dec(
                        num_or_zero(first_num(lines(data@), "stall_events"@)) / ONE as nat,
                    ) + " stall episodes (suggests after 24h + 10 episodes)"@,
                ),
            ],
            None => seq![
                "  "@ + skip_text(
                    "passive [psi] calibration: no data yet (collected while mgd runs)"@,
                ),
            ],
        },
    }
}

fn percent_text(f: Fixed) -> (r: String)
    ensures
        r@ == decimal_text(f.0 as nat, 1) + "%"@,
{
    let mut s = f.text(1);
    s.append("%");
    s
}

/// The lines about passive calibration.
pub fn report_passive_calibration(f: &PassiveFacts) -> (r: Vec<String>)
    ensures
        texts(r@) == passive_report(*f),
{
    let mut out: Vec<String> = Vec::new();
    if let Some(data) = &f.suggestion {
        let mut s = "passive [psi] suggestion ready → ".to_owned();
        s.append(f.suggestion_path.as_str());
        out.push(indented_line(good(s.as_str())));
        if let Some(v) = toml_num(data.as_str(), "elevated_pct") {
            out.push(labelled_line("suggested elevated_pct:", percent_text(v).as_str()));
        }
        if let Some(v) = toml_num(data.as_str(), "full_critical_pct") {
            out.push(labelled_line("suggested full_critical_pct:", percent_text(v).as_str()));
        }
        out.push(
            "  Review the file, paste into ~/.config/mgd/priorities.toml, then: mgctl reload".to_owned(),
        );
        assert(texts(out@) =~= passive_report(*f));
        return out;
    }
    if let Some(data) = &f.state {
        let observed: u64 = match toml_num(data.as_str(), "observed_secs") {
            Some(v) => v.0,
            None => 0,
        };
        let events: u64 = match toml_num(data.as_str(), "stall_events") {
            Some(v) => v.0,
            None => 0,
        };
        let mut s = "passive [psi] calibration accumulating — ".to_owned();
        s.append(Fixed(observed / 3600).text(1).as_str());
        s.append("h observed, ");
        s.append(dec_string(events / ONE).as_str());
        s.append(" stall episodes (suggests after 24h + 10 episodes)");
        out.push(indented_line(warn(s.as_str())));
        assert(texts(out@) =~= passive_report(*f));
        return out;
    }
    out.push(
        indented_line(skip("passive [psi] calibration: no data yet (collected while mgd runs)")),
    );
    assert(texts(out@) =~= passive_report(*f));
    out
}

// ------------------------------------------------------------- capabilities

/// A program that needs capabilities, and what the tool that lists them said.
#[derive(Debug)]
pub struct CapFacts {
    pub binary: String,
    pub label: String,
    /// Missing where the tool failed.
    pub listed: Option<String>,
}

/// The line about a program's capabilities.
pub open spec fn cap_line(f: CapFacts) -> Seq<char> {
    match f.listed {
        Some(out) => if trim(out@).len() == 0 {
            "  "@ + warn_text(f.label@ + " — no capabilities set"@)
        } else {
            "  "@ + good_text(
                f.label@ + " — "@ + if words(trim(out@)).len() > 0 {
                    words(trim(out@)).last()
                } else {
                    "?"@
                },
            )
        },
        None => "  "@ + skip_text(f.binary@ + " not found"@),
    }
}

/// The line about a program's capabilities.
pub fn check_cap(f: &CapFacts) -> (r: String)
    ensures
        r@ == cap_line(*f),
{
    match &f.listed {
        Some(out) => {
            let t = trimmed(out.as_str());
            let mut s = f.label.clone();
            if t.as_str().is_empty() {
                s.append(" — no capabilities set");
                return indented_line(warn(s.as_str()));
            }
            s.append(" — ");
            let ws = word_list(t.as_str());
            assert(texts(ws@).len() == ws@.len());
            if ws.len() > 0 {
                assert(texts(ws@)[ws@.len() - 1] == ws@[ws@.len() - 1]@);
                s.append(ws[ws.len() - 1].as_str());
            } else {
                s.append("?");
            }
            indented_line(good(s.as_str()))
        },
        None => {
            let mut s = f.binary.clone();
            s.append(" not found");
            indented_line(skip(s.as_str()))
        },
    }
}

// --------------------------------------------------------------- the report

/// All that the report is made from.
#[derive(Debug)]
pub struct DoctorFacts {
    pub cards: Vec<Card>,
    pub swaps: Option<String>,
    pub session: SessionFacts,
    pub psi: PsiFacts,
    pub daemon_running: bool,
    pub plugins: Vec<PluginStatus>,
    /// The daemon's answer to `gpu-info`.
    pub gpu_info: Option<String>,
    pub calibration: CalibrationInfo,
    pub passive: PassiveFacts,
    pub caps: Vec<CapFacts>,
}

/// `  LABEL: value`, in columns.
pub open spec fn environment_line(label: Seq<char>, value: Seq<char>) -> Seq<char> {
    "  "@ + padded(label, 12) + " "@ + value
}

fn environment_text(label: &str, value: &str) -> (r: String)
    ensures
        r@ == environment_line(label@, value@),
{
    let mut s = "  ".to_owned();
    s.append(pad(label, 12).as_str());
    s.append(" ");
    s.append(value);
    s
}

/// The lines about swap.
pub open spec fn swap_report(devices: Seq<Seq<char>>) -> Seq<Seq<char>> {
    if devices.len() == 0 {
        seq![environment_line("Swap:"@, "none"@)]
    } else {
        devices.map_values(|d: Seq<char>| environment_line("Swap:"@, d))
    }
}

/// What `/proc/swaps` gives.
pub open spec fn devices_in(swaps: Option<String>) -> Seq<Seq<char>> {
    match swaps {
        Some(c) => swap_devices(crate::zram::table_rows(c@)),
        None => Seq::empty(),
    }
}

/// What the first card is called.
pub open spec fn gpu_name(cards: Seq<Card>) -> Seq<char> {
    match first_card(cards) {
        Some(c) => card_label(trim(c.vendor@), driver_of(c.uevent@)),
        None => "not detected"@,
    }
}

/// Who made the first card.
pub open spec fn gpu_vendor(cards: Seq<Card>) -> GpuVendor {
    match first_card(cards) {
        Some(c) => vendor_of(trim(c.vendor@)),
        None => GpuVendor::Unknown,
    }
}

/// The section about the environment.
pub open spec fn environment_section(f: DoctorFacts) -> Seq<Seq<char>> {
    let desktop = desktop_named(f.session, uppercase(f.session.desktop@));
    seq![
        bold_text("Environment:"@),
        environment_line("GPU:"@, gpu_name(f.cards@)),
    ] + swap_report(devices_in(f.swaps)) + seq![
        environment_line(
            "Desktop:"@,
            desktop.0 + " ("@ + session_word(f.session.wayland, f.session.x11) + ")"@,
        ),
        environment_line("Compositor:"@, desktop.1),
        Seq::empty(),
    ]
}

/// The section about the daemon.
pub open spec fn core_section(f: DoctorFacts) -> Seq<Seq<char>> {
    seq![bold_text("Core features:"@)] + psi_report(f.psi) + seq![
        "  "@ + if f.daemon_running {
            good_text("mgd daemon running"@)
        } else {
            warn_text("mgd daemon not running (start: systemctl --user start mgd)"@)
        },
        Seq::empty(),
    ]
}

/// Whether some swap device is a compressed one.
pub open spec fn any_zram(devices: Seq<Seq<char>>) -> bool {
    exists|i: int| 0 <= i < devices.len() && contains(#[trigger] devices[i], "zram"@)
}

/// The section about the plugins. `desktop` is in lower case.
pub open spec fn plugin_section(f: DoctorFacts, desktop: Seq<char>) -> Seq<Seq<char>> {
    let vendor = gpu_vendor(f.cards@);
    let zram = any_zram(devices_in(f.swaps));
    seq![bold_text("Plugins:"@)] + f.plugins@.map_values(
        |p: PluginStatus| "  "@ + plugin_line(p, of_use(p.name@, vendor, desktop, zram)),
    ) + (if f.daemon_running && gpu_plugin_runs(f.plugins@, vendor, desktop, zram)
        && f.gpu_info is Some {
        seq!["  "@ + gpu_cache_line(f.gpu_info->Some_0@)]
    } else {
        Seq::empty()
    }) + seq![Seq::empty()]
}

/// The sections about thresholds and privileges.
pub open spec fn closing_sections(f: DoctorFacts) -> Seq<Seq<char>> {
    seq![bold_text("Thresholds:"@)] + calibration_report(f.calibration) + passive_report(f.passive)
        + seq![Seq::empty(), bold_text("Privileges:"@)] + f.caps@.map_values(
        |c: CapFacts| cap_line(c),
    ) + seq![Seq::empty(), bold_text("To re-run after changes:  mgctl doctor"@)]
}

/// The whole report.
pub open spec fn doctor_report(f: DoctorFacts) -> Seq<Seq<char>> {
    let desktop = desktop_named(f.session, uppercase(f.session.desktop@)).0;
    seq![bold_text("mgd doctor — environment report"@), Seq::empty()] + environment_section(f)
        + core_section(f) + plugin_section(f, lowercase(desktop)) + closing_sections(f)
}

fn blank() -> (r: String)
    ensures
        r@ == Seq::<char>::empty(),
{
    let s = String::new();
    assert(s@ =~= Seq::<char>::empty());
    s
}

fn report_environment(f: &DoctorFacts, gpu: &Option<GpuInfo>, swap: &SwapInfo, de: &DesktopInfo) -> (r:
    Vec<String>)
    requires
        match first_card(f.cards@) {
            Some(c) => gpu is Some && gpu->Some_0.name@ == card_label(
                trim(c.vendor@),
                driver_of(c.uevent@),
            ),
            None => gpu is None,
        },
        texts(swap.devices@) == devices_in(f.swaps),
        (de.de@, de.compositor@) == desktop_named(f.session, uppercase(f.session.desktop@)),
        de.session@ == session_word(f.session.wayland, f.session.x11),
    ensures
        texts(r@) == environment_section(*f),
{
    let mut out: Vec<String> = Vec::new();
    out.push(bold("Environment:"));
    let name = match gpu {
        Some(g) => g.name.as_str(),
        None => "not detected",
    };
    out.push(environment_text("GPU:", name));
    let ghost devices = devices_in(f.swaps);
    assert(texts(swap.devices@).len() == swap.devices@.len());
    if swap.devices.len() == 0 {
        out.push(environment_text("Swap:", "none"));
    } else {
        let mut i: usize = 0;
        while i < swap.devices.len()
            invariant
                i <= swap.devices.len(),
                texts(swap.devices@) == devices,
                out@.len() == 2 + i,
                out@[0]@ == bold_text("Environment:"@),
                out@[1]@ == environment_line("GPU:"@, gpu_name(f.cards@)),
                forall|k: int|
                    2 <= k < 2 + i ==> (#[trigger] out@[k])@ == environment_line(
                        "Swap:"@,
                        devices[k - 2],
                    ),
            decreases swap.devices.len() - i,
        {
            assert(texts(swap.devices@)[i as int] == swap.devices@[i as int]@);
            out.push(environment_text("Swap:", swap.devices[i].as_str()));
            i = i + 1;
        }
    }
    let mut d = de.de.clone();
    d.append(" (");
    d.append(de.session.as_str());
    d.append(")");
    out.push(environment_text("Desktop:", d.as_str()));
    out.push(environment_text("Compositor:", de.compositor.as_str()));
    out.push(blank());
    assert(texts(out@) =~= environment_section(*f));
    out
}

fn report_core(f: &DoctorFacts) -> (r: Vec<String>)
    ensures
        texts(r@) == core_section(*f),
{
    let mut out: Vec<String> = Vec::new();
    out.push(bold("Core features:"));
    let mut psi = report_psi(&f.psi);
    let ghost lines = psi@;
    let ghost head = out@;
    out.append(&mut psi);
    assert(texts(out@) =~= texts(head) + texts(lines));
    if f.daemon_running {
        out.push(indented_line(good("mgd daemon running")));
    } else {
        out.push(
            indented_line(warn("mgd daemon not running (start: systemctl --user start mgd)")),
        );
    }
    out.push(blank());
    assert(texts(head) =~= seq![bold_text("Core features:"@)]);
    assert(texts(out@) =~= core_section(*f));
    out
}

/// The section about the plugins. `desktop` is in lower case.
fn report_plugins(f: &DoctorFacts, vendor: GpuVendor, has_zram: bool, desktop: &str) -> (r: Vec<
    String,
>)
    requires
        vendor == gpu_vendor(f.cards@),
        has_zram == any_zram(devices_in(f.swaps)),
    ensures
        texts(r@) == plugin_section(*f, desktop@),
{
    let mut out: Vec<String> = Vec::new();
    out.push(bold("Plugins:"));
    let mut gpu_runs = false;
    let mut i: usize = 0;
    while i < f.plugins.len()
        invariant
            i <= f.plugins.len(),
            out@.len() == 1 + i,
            out@[0]@ == bold_text("Plugins:"@),
            forall|k: int|
                1 <= k < 1 + i ==> (#[trigger] out@[k])@ == "  "@ + plugin_line(
                    f.plugins@[k - 1],
                    of_use(f.plugins@[k - 1].name@, vendor, desktop@, has_zram),
                ),
            gpu_runs == exists|k: int|
                0 <= k < i && is_running_gpu_plugin(
                    #[trigger] f.plugins@[k],
                    vendor,
                    desktop@,
                    has_zram,
                ),
        decreases f.plugins.len() - i,
    {
        let p = &f.plugins[i];
        let applicable = is_applicable(p.name.as_str(), vendor, desktop, has_zram);
        if applicable && p.running && (same(p.name.as_str(), "mgd-gpu-intel") || same(
            p.name.as_str(),
            "mgd-gpu-amd",
        )) {
            assert(is_running_gpu_plugin(f.plugins@[i as int], vendor, desktop@, has_zram));
            gpu_runs = true;
        }
        out.push(indented_line(report_plugin(p, applicable)));
        i = i + 1;
    }
    if f.daemon_running && gpu_runs {
        if let Some(answer) = &f.gpu_info {
            out.push(indented_line(report_gpu_cache(answer.as_str())));
        }
    }
    out.push(blank());
    assert(texts(out@) =~= plugin_section(*f, desktop@));
    out
}

fn report_closing(f: &DoctorFacts) -> (r: Vec<String>)
    ensures
        texts(r@) == closing_sections(*f),
{
    let mut out: Vec<String> = Vec::new();
    out.push(bold("Thresholds:"));
    assert(texts(out@) =~= seq![bold_text("Thresholds:"@)]);
    let ghost h0 = out@;
    let mut active = report_calibration(&f.calibration);
    let ghost a = active@;
    out.append(&mut active);
    assert(texts(out@) =~= texts(h0) + texts(a));
    let ghost h1 = out@;
    let mut passive = report_passive_calibration(&f.passive);
    let ghost p = passive@;
    out.append(&mut passive);
    assert(texts(out@) =~= texts(h1) + texts(p));
    out.push(blank());
    out.push(bold("Privileges:"));
    let ghost h2 = out@;
    assert(texts(h2) =~= seq![bold_text("Thresholds:"@)] + calibration_report(f.calibration)
        + passive_report(f.passive) + seq![Seq::empty(), bold_text("Privileges:"@)]);
    let mut i: usize = 0;
    while i < f.caps.len()
        invariant
            i <= f.caps.len(),
            out@.len() == h2.len() + i,
            forall|k: int| 0 <= k < h2.len() ==> #[trigger] out@[k] == h2[k],
            forall|k: int|
                h2.len() <= k < h2.len() + i ==> (#[trigger] out@[k])@ == cap_line(
                    f.caps@[k - h2.len()],
                ),
        decreases f.caps.len() - i,
    {
        out.push(check_cap(&f.caps[i]));
        i = i + 1;
    }
    out.push(blank());
    out.push(bold("To re-run after changes:  mgctl doctor"));
    assert(texts(out@) =~= texts(h2) + f.caps@.map_values(|c: CapFacts| cap_line(c)) + seq![
        Seq::empty(),
        bold_text("To re-run after changes:  mgctl doctor"@),
    ]);
    out
}

/// Puts the report together, line by line.
pub fn doctor_lines(f: &DoctorFacts) -> (r: Vec<String>)
    ensures
        texts(r@) == doctor_report(*f),
{
    let gpu = detect_gpu(&f.cards);
    let swaps = match &f.swaps {
        Some(s) => Some(s.as_str()),
        None => None,
    };
    let swap = detect_swap(swaps);
    let de = detect_desktop(&f.session);
    let vendor = match &gpu {
        Some(g) => g.vendor,
        None => GpuVendor::Unknown,
    };
    let lower = to_lowercase(de.de.as_str());
    proof {
        let ds = texts(swap.devices@);
        if swap.has_zram {
            let i = choose|i: int|
                0 <= i < swap.devices@.len() && contains((#[trigger] swap.devices@[i])@, "zram"@);
            assert(contains(ds[i], "zram"@));
        }
        if any_zram(ds) {
            let i = choose|i: int| 0 <= i < ds.len() && contains(#[trigger] ds[i], "zram"@);
            assert(contains(swap.devices@[i]@, "zram"@));
        }
    }
    let mut out: Vec<String> = Vec::new();
    out.push(bold("mgd doctor — environment report"));
    out.push(blank());
    let ghost h0 = out@;
    let mut part = report_environment(f, &gpu, &swap, &de);
    let ghost p0 = part@;
    out.append(&mut part);
    let ghost h1 = out@;
    assert(texts(h1) =~= texts(h0) + texts(p0));
    let mut part = report_core(f);
    let ghost p1 = part@;
    out.append(&mut part);
    let ghost h2 = out@;
    assert(texts(h2) =~= texts(h1) + texts(p1));
    let mut part = report_plugins(f, vendor, swap.has_zram, lower.as_str());
    let ghost p2 = part@;
    out.append(&mut part);
    let ghost h3 = out@;
    assert(texts(h3) =~= texts(h2) + texts(p2));
    let mut part = report_closing(f);
    let ghost p3 = part@;
    out.append(&mut part);
    assert(texts(out@) =~= texts(h3) + texts(p3));
    assert(texts(h0) =~= seq![bold_text("mgd doctor — environment report"@), Seq::empty()]);
    out
}

// ------------------------------------------------------------------- laws

/// The first card counts: a directory whose name starts with `card`, and that is no
/// connector.
pub proof fn law_first_card_counts(cards: Seq<Card>, i: int)
    requires
        0 <= i < cards.len(),
        starts_with(cards[i].name@, "card"@) && !contains(cards[i].name@, "-"@),
        forall|j: int|
            0 <= j < i ==> !starts_with((#[trigger] cards[j]).name@, "card"@) || contains(
                cards[j].name@,
                "-"@,
            ),
    ensures
        first_card(cards) == Some(cards[i]),
    decreases i,
{
    if i > 0 {
        let rest = cards.drop_first();
        assert(!is_card(cards[0].name@));
        assert forall|j: int| 0 <= j < i - 1 implies !starts_with(
            (#[trigger] rest[j]).name@,
            "card"@,
        ) || contains(rest[j].name@, "-"@) by {
            assert(rest[j] == cards[j + 1]);
        }
        law_first_card_counts(rest, i - 1);
    }
}

/// Without a card, nothing is found.
pub proof fn law_no_card(cards: Seq<Card>)
    requires
        forall|j: int|
            0 <= j < cards.len() ==> !starts_with((#[trigger] cards[j]).name@, "card"@) || contains(
                cards[j].name@,
                "-"@,
            ),
    ensures
        first_card(cards) is None,
    decreases cards.len(),
{
    if cards.len() > 0 {
        let rest = cards.drop_first();
        assert(!is_card(cards[0].name@));
        assert forall|j: int| 0 <= j < rest.len() implies !starts_with(
            (#[trigger] rest[j]).name@,
            "card"@,
        ) || contains(rest[j].name@, "-"@) by {
            assert(rest[j] == cards[j + 1]);
        }
        law_no_card(rest);
    }
}

/// What a card is called: by its vendor and the driver behind `DRIVER=`.
pub proof fn law_names_of_cards(
    cards: &Vec<Card>,
    i: int,
    uevent: Seq<Seq<char>>,
    d: int,
    driver: Seq<char>,
    r: Option<GpuInfo>,
)
    requires
        call_ensures(detect_gpu, (cards,), r),
        first_card(cards@) == Some(cards@[i]),
        uevent == lines(cards@[i].uevent@),
        0 <= d < uevent.len(),
        uevent[d] == "DRIVER="@ + driver,
        forall|j: int| 0 <= j < d ==> !starts_with(#[trigger] uevent[j], "DRIVER="@),
    ensures
        r is Some,
        trim(cards@[i].vendor@) == "0x8086"@ ==> r->0.vendor == GpuVendor::Intel && r->0.name@
            == "Intel iGPU ("@ + driver + ")"@,
        trim(cards@[i].vendor@) == "0x1002"@ ==> r->0.vendor == GpuVendor::Amd && r->0.name@
            == "AMD GPU ("@ + driver + ")"@,
        trim(cards@[i].vendor@) == "0x10de"@ ==> r->0.vendor == GpuVendor::Nvidia && r->0.name@
            == "NVIDIA GPU ("@ + driver + ")"@,
        r->0.vendor == GpuVendor::Unknown ==> r->0.name@ == "Unknown GPU (vendor "@ + trim(
            cards@[i].vendor@,
        ) + ")"@,
{
    reveal_strlit("0x8086");
    reveal_strlit("0x1002");
    reveal_strlit("0x10de");
    assert("0x8086"@[2] == '8' && "0x1002"@[2] == '1' && "0x10de"@[2] == '1');
    assert("0x1002"@[4] == '0' && "0x10de"@[4] == 'd');
    law_prefixes(driver, "DRIVER="@);
    law_first_with_prefix(uevent, "DRIVER="@, d);
    assert(uevent[d].skip("DRIVER="@.len() as int) =~= driver);
}

/// The swap devices are the first words of the rows, in order.
pub proof fn law_swap_devices_by_row(rows: Seq<Seq<char>>, row: Seq<char>)
    ensures
        swap_devices(Seq::empty()).len() == 0,
        words(row).len() > 0 ==> swap_devices(rows.push(row)) == swap_devices(rows).push(
            words(row)[0],
        ),
        words(row).len() == 0 ==> swap_devices(rows.push(row)) == swap_devices(rows),
{
    assert(rows.push(row).drop_last() =~= rows);
}

/// What the desktop is called: by what the session says of itself, or by the shells
/// that are there.
pub proof fn law_names_of_desktops(f: &SessionFacts, upper: &str, r: DesktopInfo)
    requires
        call_ensures(name_desktop, (f, upper), r),
    ensures
        f.wayland ==> r.session@ == "wayland"@,
        !f.wayland && f.x11 ==> r.session@ == "x11"@,
        !f.wayland && !f.x11 ==> r.session@ == "headless"@,
        ({
            let plasma = contains(upper@, "KDE"@) || f.plasma is Some;
            let gnome = !plasma && (contains(upper@, "GNOME"@) || f.gnome is Some);
            let cosmic = !plasma && !gnome && contains(upper@, "COSMIC"@);
            &&& plasma ==> starts_with(r.de@, "KDE Plasma "@)
            &&& plasma && f.wayland ==> r.compositor@ == "KWin Wayland"@
            &&& plasma && !f.wayland ==> r.compositor@ == "KWin X11"@
            &&& plasma && f.plasma is Some ==> r.de@ == "KDE Plasma "@ + (f.plasma->0)@
            &&& gnome ==> starts_with(r.de@, "GNOME Shell "@)
            &&& gnome && f.wayland ==> r.compositor@ == "Mutter (Wayland)"@
            &&& gnome && !f.wayland ==> r.compositor@ == "Mutter (X11)"@
            &&& gnome && f.gnome is Some ==> r.de@ == "GNOME Shell "@ + (f.gnome->0)@
            &&& cosmic ==> r.de@ == "COSMIC DE"@ && r.compositor@ == "cosmic-comp"@
            &&& !plasma && !gnome && !cosmic ==> r.de@ == f.desktop@
        }),
{
    law_prefixes(version_or_unknown(f.plasma), "KDE Plasma "@);
    law_prefixes(version_or_unknown(f.gnome), "GNOME Shell "@);
}

/// The version is the first word that starts with a digit.
pub proof fn law_version_starts_with_a_digit(output: &str, i: int, r: String)
    requires
        call_ensures(get_version, (output,), r),
        0 <= i < words(output@).len(),
        words(output@)[i].len() > 0,
        48 <= words(output@)[i][0] as u32 <= 57,
        forall|j: int|
            #![trigger words(output@)[j]]
            0 <= j < i && words(output@)[j].len() > 0 ==> !(48 <= words(output@)[j][0] as u32
                <= 57),
    ensures
        r@ == words(output@)[i],
{
    lemma_first_number_word(words(output@), i);
}

proof fn lemma_first_number_word(ws: Seq<Seq<char>>, i: int)
    requires
        0 <= i < ws.len(),
        ws[i].len() > 0,
        48 <= ws[i][0] as u32 <= 57,
        forall|j: int|
            0 <= j < i && (#[trigger] ws[j]).len() > 0 ==> !(48 <= ws[j][0] as u32 <= 57),
    ensures
        first_number_word(ws) == Some(ws[i]),
    decreases i,
{
    if i > 0 {
        assert(!(ws[0].len() > 0 && is_digit(ws[0][0])));
        let rest = ws.drop_first();
        assert forall|j: int| 0 <= j < i - 1 && (#[trigger] rest[j]).len() > 0 implies !(48
            <= rest[j][0] as u32 <= 57) by {
            assert(rest[j] == ws[j + 1]);
        }
        lemma_first_number_word(rest, i - 1);
    }
}

/// The version of the service manager is the second word of what it prints.
pub proof fn law_version_of_the_service_manager(output: &str, r: Option<u32>, n: u32)
    requires
        call_ensures(systemd_version, (output,), r),
        lines(output@).len() > 0,
        words(lines(output@)[0]).len() > 1,
        words(lines(output@)[0])[1] == dec(n as nat),
    ensures
        r == Some(n),
{
    law_decimal_round_trip(n as nat);
    law_reading_numbers(dec(n as nat), u32::MAX as nat, n as nat);
}

/// Which plugins are of use: those for the card and the desktop that are there.
pub proof fn law_which_plugins_are_of_use(
    vendor: GpuVendor,
    desktop: &str,
    has_zram: bool,
    intel: bool,
    amd: bool,
    kde: bool,
    gnome: bool,
    cosmic: bool,
    zram: bool,
)
    requires
        call_ensures(is_applicable, ("mgd-gpu-intel", vendor, desktop, has_zram), intel),
        call_ensures(is_applicable, ("mgd-gpu-amd", vendor, desktop, has_zram), amd),
        call_ensures(is_applicable, ("mgd-kde", vendor, desktop, has_zram), kde),
        call_ensures(is_applicable, ("mgd-gnome", vendor, desktop, has_zram), gnome),
        call_ensures(is_applicable, ("mgd-cosmic", vendor, desktop, has_zram), cosmic),
        call_ensures(is_applicable, ("mgd-zram", vendor, desktop, has_zram), zram),
    ensures
        intel <==> vendor == GpuVendor::Intel,
        amd <==> vendor == GpuVendor::Amd,
        kde <==> contains(desktop@, "kde"@) || contains(desktop@, "plasma"@),
        gnome <==> contains(desktop@, "gnome"@),
        cosmic <==> contains(desktop@, "cosmic"@),
        zram <==> has_zram,
{
    reveal_strlit("mgd-gpu-intel");
    reveal_strlit("mgd-gpu-amd");
    reveal_strlit("mgd-kde");
    reveal_strlit("mgd-gnome");
    reveal_strlit("mgd-cosmic");
    reveal_strlit("mgd-zram");
    assert("mgd-gpu-intel"@.len() == 13);
    assert("mgd-gpu-amd"@.len() == 11);
    assert("mgd-kde"@.len() == 7);
    assert("mgd-gnome"@.len() == 9);
    assert("mgd-cosmic"@.len() == 10);
    assert("mgd-zram"@.len() == 8);
}

/// How a plugin is shown.
pub proof fn law_how_plugins_are_shown(p: &PluginStatus, applicable: bool, r: String)
    requires
        call_ensures(report_plugin, (p, applicable), r),
    ensures
        ({
            let name = padded(p.name@, 18);
            &&& !applicable ==> r@ == skip_text(name + " (not applicable on this system)"@)
            &&& applicable && p.running ==> r@ == good_text(name + " running"@)
            &&& applicable && !p.running && p.installed ==> r@ == warn_text(
                name + " installed but not running"@,
            )
            &&& applicable && !p.running && !p.installed ==> r@ == warn_text(
                name + " not installed (run ./install.sh)"@,
            )
        }),
{
}

/// The last value of a key counts.
pub proof fn law_last_value_of_a_key(ws: Seq<Seq<char>>, key: Seq<char>, value: Seq<char>, i: int)
    requires
        0 <= i < ws.len(),
        ws[i] == key + value,
        forall|j: int| i < j < ws.len() ==> !starts_with(#[trigger] ws[j], key),
    ensures
        last_value(ws, key) == Some(value),
        parse_bounded(value, u64::MAX as nat) matches Some(n) ==> last_number(ws, key) == n,
        parse_bounded(value, u64::MAX as nat) is None ==> last_number(ws, key) == 0,
{
    law_prefixes(value, key);
    law_last_with_prefix(ws, key, i);
    assert(ws[i].skip(key.len() as int) =~= value);
}

/// The last line with a target counts, also where it holds no number.
pub proof fn law_last_target_counts(ls: Seq<Seq<char>>, line: Seq<char>)
    ensures
        last_target(Seq::empty()) is None,
        target_in_line(line) matches Some(t) ==> last_target(ls.push(line)) == t,
        target_in_line(line) is None ==> last_target(ls.push(line)) == last_target(ls),
{
    assert(ls.push(line).drop_last() =~= ls);
}

/// Digits and blanks are taken up to the first other character.
pub proof fn law_run_of_digits(s: Seq<char>)
    ensures
        digit_run(s) <= s.len(),
        forall|i: int|
            0 <= i < digit_run(s) ==> (#[trigger] s[i]) == ' ' || 48 <= s[i] as u32 <= 57,
        digit_run(s) < s.len() ==> s[digit_run(s) as int] != ' ' && !(48 <= s[digit_run(
            s,
        ) as int] as u32 <= 57),
    decreases s.len(),
{
    if s.len() > 0 && (is_digit(s[0]) || s[0] == ' ') {
        let rest = s.drop_first();
        law_run_of_digits(rest);
        assert forall|i: int| 0 <= i < digit_run(s) implies (#[trigger] s[i]) == ' ' || 48
            <= s[i] as u32 <= 57 by {
            if i > 0 {
                assert(s[i] == rest[i - 1]);
            }
        }
        if digit_run(s) < s.len() {
            assert(s[digit_run(s) as int] == rest[digit_run(rest) as int]);
        }
    }
}

/// The first line with a number for a key counts.
pub proof fn law_first_number_of_a_key(ls: Seq<Seq<char>>, key: Seq<char>, i: int)
    requires
        0 <= i < ls.len(),
        num_in_line(ls[i], key) is Some,
        forall|j: int| 0 <= j < i ==> num_in_line(#[trigger] ls[j], key) is None,
    ensures
        first_num(ls, key) == num_in_line(ls[i], key),
    decreases i,
{
    if i > 0 {
        let rest = ls.drop_first();
        assert(num_in_line(ls[0], key) is None);
        assert forall|j: int| 0 <= j < i - 1 implies num_in_line(
            #[trigger] rest[j],
            key,
        ) is None by {
            assert(rest[j] == ls[j + 1]);
        }
        law_first_number_of_a_key(rest, key, i - 1);
    }
}

/// What is said of pressure: nothing but that it is missing, or where it is read from
/// and how the daemon is woken.
pub proof fn law_what_is_said_of_pressure(f: &PsiFacts, r: Vec<String>)
    requires
        call_ensures(report_psi, (f,), r),
    ensures
        !f.available ==> r@.len() == 1,
        f.available && f.source@ == "/proc/pressure/memory"@ ==> r@.len() == 3,
        f.available && f.source@ != "/proc/pressure/memory"@ ==> r@.len() == 2,
        f.available && f.source_armable ==> r@.last()@ == "  "@ + good_text(
            "PSI kernel trigger armable (zero-CPU idle)"@,
        ),
        f.available && !f.source_armable && (f.source@ == "/proc/pressure/memory"@
            || !f.global_armable) ==> r@.last()@ == "  "@ + warn_text(
            "PSI trigger not armable — daemon falls back to 5s polling"@,
        ),
{
    assert(texts(r@).len() == r@.len());
    if r@.len() > 0 {
        assert(texts(r@)[r@.len() - 1] == r@[r@.len() - 1]@);
    }
}

/// What is said of the card's memory: the processes and whole megabytes, where there
/// is any.
pub proof fn law_what_is_said_of_graphics_memory(answer: &str, r: String)
    requires
        call_ensures(report_gpu_cache, (answer,), r),
    ensures
        last_number(words(answer@), "gpu_pids="@) == 0 ==> r@ == warn_text(
            "GPU cache empty — plugin connected but no observations yet"@,
        ),
        last_number(words(answer@), "gpu_pids="@) > 0 ==> starts_with(
            r@,
            "\x1b[32m✓\x1b[0m "@ + "GPU cache: "@ + dec(last_number(words(answer@), "gpu_pids="@)),
        ),
{
    let n = last_number(words(answer@), "gpu_pids="@);
    let total = last_number(words(answer@), "total_kb="@);
    let newest = match last_value(words(answer@), "newest_obs="@) {
        Some(v) => v,
        None => "none"@,
    };
    lemma_starts_with_three(
        "\x1b[32m✓\x1b[0m "@,
        "GPU cache: "@,
        dec(n),
        " PID(s), "@,
        dec(total / 1024),
        " MB resident, last obs "@,
        newest,
    );
}

proof fn lemma_starts_with_three(
    a: Seq<char>,
    b: Seq<char>,
    c: Seq<char>,
    d: Seq<char>,
    e: Seq<char>,
    f: Seq<char>,
    g: Seq<char>,
)
    ensures
        starts_with(a + (b + c + d + e + f + g), a + b + c),
{
    let rest = d + e + f + g;
    law_prefixes(rest, a + b + c);
    assert(a + (b + c + d + e + f + g) =~= (a + b + c) + rest);
}

} // verus!
