//! Naming and reporting the JSON export of a tab.

use vstd::prelude::*;

use crate::text::{chars_of, concat3, decimal, push_decimal, string_of, trim, trim_chars};
use crate::tui::Tab;

verus! {

/// The name of a tab in export files and their `scan_type`.
pub open spec fn tab_slug(tab: Tab) -> Seq<char> {
    match tab {
        Tab::Bt => "bt"@,
        Tab::Wifi => "wifi"@,
        Tab::SubGhz => "subghz"@,
    }
}

/// The name of `tab` in exports.
pub fn scan_type(tab: Tab) -> (r: &'static str)
    ensures
        r@ == tab_slug(tab),
{
    match tab {
        Tab::Bt => "bt",
        Tab::Wifi => "wifi",
        Tab::SubGhz => "subghz",
    }
}

/// The timestamp of an export file: the trimmed output of `date` when
/// there is some, else the Unix time in seconds, else nothing.
pub open spec fn stamp_of(date_output: Option<Seq<char>>, unix_secs: Option<u64>) -> Seq<char> {
    match date_output {
        Some(d) if trim(d).len() > 0 => trim(d),
        _ => match unix_secs {
            Some(n) => decimal(n as nat),
            None => seq![],
        },
    }
}

/// The timestamp for an export file name, from the output of `date`
/// (`None` when it could not be run or printed no text) and the Unix time
/// (`None` when the clock is before 1970).
pub fn export_stamp(date_output: Option<&str>, unix_secs: Option<u64>) -> (r: String)
    ensures
        r@ == stamp_of(crate::oui::opt_str(date_output), unix_secs),
{
    match date_output {
        Some(d) => {
            let t = trim_chars(&chars_of(d));
            if t.len() > 0 {
                return string_of(&t);
            }
        },
        None => {},
    }
    let mut s = String::new();
    match unix_secs {
        Some(n) => {
            push_decimal(&mut s, n);
            assert(s@ =~= decimal(n as nat));
        },
        None => {},
    }
    s
}

/// `airprowl-<tab>-<stamp>.json`.
pub open spec fn file_name(tab: Seq<char>, stamp: Seq<char>) -> Seq<char> {
    "airprowl-"@ + tab + "-"@ + stamp + ".json"@
}

/// The file an export of the tab named `tab` (see [`scan_type`]) at the
/// time `stamp` goes to.
pub fn export_filename(tab: &str, stamp: &str) -> (r: String)
    ensures
        r@ == file_name(tab@, stamp@),
{
    let mut s = concat3("airprowl-", tab, "-");
    s.append(stamp);
    s.append(".json");
    s
}

/// The status after `count` devices were written to `file`.
pub fn exported_message(count: usize, file: &str) -> (r: String)
    ensures
        r@ == "Exported "@ + decimal(count as nat) + " devices → "@ + file@,
{
    let mut s = "Exported ".to_owned();
    push_decimal(&mut s, count as u64);
    s.append(" devices → ");
    s.append(file);
    s
}

/// The status after an export failed while writing the file.
pub fn write_failed_message(err: &str) -> (r: String)
    ensures
        r@ == "Export failed (write): "@ + err@,
{
    crate::text::concat2("Export failed (write): ", err)
}

/// The status after an export failed while serialising.
pub fn serialize_failed_message(err: &str) -> (r: String)
    ensures
        r@ == "Export failed (serialize): "@ + err@,
{
    crate::text::concat2("Export failed (serialize): ", err)
}

} // verus!
