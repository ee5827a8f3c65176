//! Tuning constants and command-line handling.

use vstd::prelude::*;

use crate::text::{concat3, parse_unsigned, same_text};

verus! {

pub const BT_STALE_MS: u64 = 15_000;
pub const AP_STALE_MS: u64 = 30_000;
pub const CLIENT_STALE_MS: u64 = 15_000;
pub const DROP_MS: u64 = 120_000;
pub const BT_PREVEMA_EVERY: u32 = 5;
pub const AP_PREVEMA_EVERY: u32 = 3;
pub const CLIENT_PREVEMA_EVERY: u32 = 5;
pub const SUBGHZ_PREVEMA_EVERY: u32 = 5;
pub const TICK_MS: u64 = 500;
pub const AP_SCAN_INTERVAL_MS: u64 = 10_000;
pub const SUBGHZ_STEP_DELAY_US: u64 = 500;
pub const SHUTDOWN_GRACE_MS: u64 = 200;
pub const DEFAULT_CLI_DURATION_SECS: u64 = 10;

/// Which band a headless scan covers.
#[derive(Debug, Clone, Copy, PartialEq, Eq, Structural)]
pub enum ScanTarget {
    Bt,
    Wifi,
    SubGhz,
}

/// A headless scan: its band and how long it runs.
#[derive(Debug, Clone, Copy, PartialEq, Eq, Structural)]
pub struct CliMode {
    pub scan: ScanTarget,
    pub duration_secs: u64,
}

/// Runtime configuration.
pub struct Config {
    pub wifi_iface: String,
    pub mon_iface: String,
    pub bt_iface: Option<String>,
    pub names_path: String,
    pub is_root: bool,
    pub cli: Option<CliMode>,
    pub demo: bool,
}

/// The scan target a `--scan` value names.
pub open spec fn scan_target_named(v: Seq<char>) -> Option<ScanTarget> {
    if v == "bt"@ || v == "bluetooth"@ {
        Some(ScanTarget::Bt)
    } else if v == "wifi"@ || v == "wlan"@ {
        Some(ScanTarget::Wifi)
    } else if v == "subghz"@ || v == "sub-ghz"@ || v == "sub_ghz"@ {
        Some(ScanTarget::SubGhz)
    } else {
        None
    }
}

/// Flags that take no value and are handled elsewhere.
pub open spec fn is_plain_flag(a: Seq<char>) -> bool {
    a == "--help"@ || a == "-h"@ || a == "--version"@ || a == "-V"@ || a == "--demo"@
}

/// The outcome of reading `args` from position `i` on, with the scan target
/// and duration seen so far.
pub open spec fn cli_from(
    args: Seq<Seq<char>>,
    i: nat,
    scan: Option<ScanTarget>,
    duration: u64,
) -> Result<Option<CliMode>, Seq<char>>
    decreases args.len() - i,
{
    if i >= args.len() {
        match scan {
            Some(t) => Ok(Some(CliMode { scan: t, duration_secs: duration })),
            None => Ok(None),
        }
    } else {
        let a = args[i as int];
        if a == "--scan"@ {
            if i + 1 >= args.len() {
                Err("--scan requires a value (bt|wifi|subghz)"@)
            } else {
                let v = args[i + 1 as int];
                match scan_target_named(v) {
                    Some(t) => cli_from(args, i + 2, Some(t), duration),
                    None => Err("unknown scan target '"@ + v + "'"@),
                }
            }
        } else if a == "--duration"@ {
            if i + 1 >= args.len() {
                Err("--duration requires a value (seconds)"@)
            } else {
                let v = args[i + 1 as int];
                match parse_unsigned(v, 10, u64::MAX as nat) {
                    Some(d) => cli_from(args, i + 2, scan, d as u64),
                    None => Err("--duration: '"@ + v + "' is not a positive integer"@),
                }
            }
        } else if is_plain_flag(a) {
            cli_from(args, i + 1, scan, duration)
        } else {
            Err("unknown argument '"@ + a + "'"@)
        }
    }
}

/// The headless mode `args` asks for (the program name first): `--scan`
/// and `--duration` with their values, left to right, later ones winning.
pub open spec fn cli_spec(args: Seq<Seq<char>>) -> Result<Option<CliMode>, Seq<char>> {
    cli_from(args, 1, None, DEFAULT_CLI_DURATION_SECS)
}

fn scan_target_of(v: &str) -> (r: Option<ScanTarget>)
    ensures
        r == scan_target_named(v@),
{
    if same_text(v, "bt") || same_text(v, "bluetooth") {
        Some(ScanTarget::Bt)
    } else if same_text(v, "wifi") || same_text(v, "wlan") {
        Some(ScanTarget::Wifi)
    } else if same_text(v, "subghz") || same_text(v, "sub-ghz") || same_text(v, "sub_ghz") {
        Some(ScanTarget::SubGhz)
    } else {
        None
    }
}

/// Reads the headless-mode options from the command line.
pub fn parse_cli(args: &[String]) -> (r: Result<Option<CliMode>, String>)
    ensures
        match r {
            Ok(m) => cli_spec(args.deep_view()) == Ok::<Option<CliMode>, Seq<char>>(m),
            Err(e) => cli_spec(args.deep_view()) == Err::<Option<CliMode>, Seq<char>>(e@),
        },
{
    let ghost dv = args.deep_view();
    let mut scan: Option<ScanTarget> = None;
    let mut duration_secs: u64 = DEFAULT_CLI_DURATION_SECS;
    let mut i: usize = 1;
    while i < args.len()
        invariant
            dv == args.deep_view(),
            1 <= i,
            cli_spec(dv) == cli_from(dv, i as nat, scan, duration_secs),
        decreases args@.len() - i,
    {
        let a = args[i].as_str();
        assert(a@ == dv[i as int]);
        if same_text(a, "--scan") {
            if i + 1 >= args.len() {
                return Err(String::from_str("--scan requires a value (bt|wifi|subghz)"));
            }
            let v = args[i + 1].as_str();
            assert(v@ == dv[i + 1]);
            match scan_target_of(v) {
                Some(t) => {
                    scan = Some(t);
                },
                None => {
                    return Err(concat3("unknown scan target '", v, "'"));
                },
            }
            i = i + 2;
        } else if same_text(a, "--duration") {
            if i + 1 >= args.len() {
                return Err(String::from_str("--duration requires a value (seconds)"));
            }
            let v = args[i + 1].as_str();
            assert(v@ == dv[i + 1]);
            let vc = crate::text::chars_of(v);
            match crate::text::parse_unsigned_chars(&vc, 10, u64::MAX) {
                Some(d) => {
                    duration_secs = d;
                },
                None => {
                    return Err(concat3("--duration: '", v, "' is not a positive integer"));
                },
            }
            i = i + 2;
        } else if same_text(a, "--help") || same_text(a, "-h") || same_text(a, "--version")
            || same_text(a, "-V") || same_text(a, "--demo") {
            i = i + 1;
        } else {
            return Err(concat3("unknown argument '", a, "'"));
        }
    }
    Ok(
        match scan {
            Some(t) => Some(CliMode { scan: t, duration_secs }),
            None => None,
        },
    )
}

/// Whether any argument is `--help` or `-h`.
pub fn wants_help(args: &[String]) -> (r: bool)
    ensures
        r == exists|i: int|
            0 <= i < args@.len() && (#[trigger] args@[i]@ == "--help"@ || args@[i]@ == "-h"@),
{
    let mut i: usize = 0;
    while i < args.len()
        invariant
            i <= args@.len(),
            forall|k: int| 0 <= k < i ==> !(#[trigger] args@[k]@ == "--help"@ || args@[k]@ == "-h"@),
        decreases args@.len() - i,
    {
        if same_text(args[i].as_str(), "--help") || same_text(args[i].as_str(), "-h") {
            return true;
        }
        i = i + 1;
    }
    false
}

/// Whether any argument is `--version` or `-V`.
pub fn wants_version(args: &[String]) -> (r: bool)
    ensures
        r == exists|i: int|
            0 <= i < args@.len() && (#[trigger] args@[i]@ == "--version"@ || args@[i]@ == "-V"@),
{
    let mut i: usize = 0;
    while i < args.len()
        invariant
            i <= args@.len(),
            forall|k: int|
                0 <= k < i ==> !(#[trigger] args@[k]@ == "--version"@ || args@[k]@ == "-V"@),
        decreases args@.len() - i,
    {
        if same_text(args[i].as_str(), "--version") || same_text(args[i].as_str(), "-V") {
            return true;
        }
        i = i + 1;
    }
    false
}

/// Whether any argument is `--demo`.
pub fn wants_demo(args: &[String]) -> (r: bool)
    ensures
        r == exists|i: int| 0 <= i < args@.len() && #[trigger] args@[i]@ == "--demo"@,
{
    let mut i: usize = 0;
    while i < args.len()
        invariant
            i <= args@.len(),
            forall|k: int| 0 <= k < i ==> #[trigger] args@[k]@ != "--demo"@,
        decreases args@.len() - i,
    {
        if same_text(args[i].as_str(), "--demo") {
            return true;
        }
        i = i + 1;
    }
    false
}

impl Config {
    /// The configuration for the command line `args`, the `WIFI_IFACE` and
    /// `BT_IFACE` settings, the names file and whether the process runs as
    /// root: the WiFi interface defaults to `wlo1`, the monitor interface
    /// is its name followed by `mon`. The error is the command-line
    /// problem.
    pub fn from_parts(
        args: &[String],
        wifi_iface: Option<String>,
        bt_iface: Option<String>,
        names_path: String,
        is_root: bool,
    ) -> (r: Result<Config, String>)
        ensures
            match r {
                Ok(c) => {
                    &&& cli_spec(args.deep_view()) == Ok::<Option<CliMode>, Seq<char>>(c.cli)
                    &&& c.wifi_iface@ == (match wifi_iface {
                        Some(w) => w@,
                        None => "wlo1"@,
                    })
                    &&& c.mon_iface@ == c.wifi_iface@ + "mon"@
                    &&& c.bt_iface == bt_iface
                    &&& c.names_path == names_path
                    &&& c.is_root == is_root
                    &&& c.demo == exists|i: int|
                        0 <= i < args@.len() && #[trigger] args@[i]@ == "--demo"@
                },
                Err(e) => cli_spec(args.deep_view()) == Err::<Option<CliMode>, Seq<char>>(e@),
            },
    {
        let cli = match parse_cli(args) {
            Ok(c) => c,
            Err(e) => return Err(e),
        };
        let wifi = match wifi_iface {
            Some(w) => w,
            None => String::from_str("wlo1"),
        };
        let mut mon = wifi.clone();
        mon.append("mon");
        let demo = wants_demo(args);
        Ok(Config { wifi_iface: wifi, mon_iface: mon, bt_iface, names_path, is_root, cli, demo })
    }
}

} // verus!
