//! The monitor-mode interface used for client sniffing: the commands that
//! create it, bring it up and remove it again.

use vstd::prelude::*;

use crate::config::Config;
use crate::text::{chars_of, contains_chars, contains_seq};
use crate::tui::texts;

verus! {

/// What runs a command with root rights: nothing when already root, else
/// non-interactive `sudo`.
pub open spec fn sudo_prefix(is_root: bool) -> Seq<Seq<char>> {
    if is_root {
        seq![]
    } else {
        seq!["sudo"@, "-n"@]
    }
}

/// The command that adds the monitor interface `mon` on top of `iface`.
pub open spec fn add_cmd(is_root: bool, iface: Seq<char>, mon: Seq<char>) -> Seq<Seq<char>> {
    sudo_prefix(is_root) + seq!["iw"@, "dev"@, iface, "interface"@, "add"@, mon, "type"@, "monitor"@]
}

/// The command that sets the link of `mon` to `state` (`up` or `down`).
pub open spec fn link_cmd(is_root: bool, mon: Seq<char>, state: Seq<char>) -> Seq<Seq<char>> {
    sudo_prefix(is_root) + seq!["ip"@, "link"@, "set"@, mon, state]
}

/// The command that deletes the interface `mon`.
pub open spec fn del_cmd(is_root: bool, mon: Seq<char>) -> Seq<Seq<char>> {
    sudo_prefix(is_root) + seq!["iw"@, "dev"@, mon, "del"@]
}

fn prefixed(is_root: bool) -> (r: Vec<String>)
    ensures
        texts(r@) == sudo_prefix(is_root),
{
    let mut v: Vec<String> = Vec::new();
    if !is_root {
        v.push("sudo".to_owned());
        v.push("-n".to_owned());
    }
    assert(texts(v@) =~= sudo_prefix(is_root));
    v
}

/// The command line that adds the monitor interface of `config`.
pub fn add_monitor_command(config: &Config) -> (r: Vec<String>)
    ensures
        texts(r@) == add_cmd(config.is_root, config.wifi_iface@, config.mon_iface@),
{
    let mut v = prefixed(config.is_root);
    v.push("iw".to_owned());
    v.push("dev".to_owned());
    v.push(config.wifi_iface.clone());
    v.push("interface".to_owned());
    v.push("add".to_owned());
    v.push(config.mon_iface.clone());
    v.push("type".to_owned());
    v.push("monitor".to_owned());
    assert(texts(v@) =~= add_cmd(config.is_root, config.wifi_iface@, config.mon_iface@));
    v
}

/// The command line that sets the link of `mon` up (`up` true) or down.
pub fn link_command(is_root: bool, mon: &str, up: bool) -> (r: Vec<String>)
    ensures
        texts(r@) == link_cmd(
            is_root,
            mon@,
            if up {
                "up"@
            } else {
                "down"@
            },
        ),
{
    let mut v = prefixed(is_root);
    v.push("ip".to_owned());
    v.push("link".to_owned());
    v.push("set".to_owned());
    v.push(mon.to_owned());
    v.push(
        if up {
            "up".to_owned()
        } else {
            "down".to_owned()
        },
    );
    assert(texts(v@) =~= link_cmd(
        is_root,
        mon@,
        if up {
            "up"@
        } else {
            "down"@
        },
    ));
    v
}

/// The command line that deletes the interface `mon`.
pub fn delete_command(is_root: bool, mon: &str) -> (r: Vec<String>)
    ensures
        texts(r@) == del_cmd(is_root, mon@),
{
    let mut v = prefixed(is_root);
    v.push("iw".to_owned());
    v.push("dev".to_owned());
    v.push(mon.to_owned());
    v.push("del".to_owned());
    assert(texts(v@) =~= del_cmd(is_root, mon@));
    v
}

/// Whether `iw dev` output `listing` already mentions the interface `mon`.
pub fn monitor_listed(listing: &str, mon: &str) -> (r: bool)
    ensures
        r == contains_seq(listing@, mon@),
{
    contains_chars(&chars_of(listing), &chars_of(mon))
}

/// A monitor interface in use, with what is needed to remove it.
pub struct MonitorHandle {
    pub sniff_iface: String,
    pub is_root: bool,
}

impl MonitorHandle {
    /// The handle for sniffing on the monitor interface of `config`.
    pub fn for_config(config: &Config) -> (r: Self)
        ensures
            r.sniff_iface@ == config.mon_iface@,
            r.is_root == config.is_root,
    {
        MonitorHandle { sniff_iface: config.mon_iface.clone(), is_root: config.is_root }
    }

    /// The commands that remove the interface again: link down, then delete.
    pub fn teardown_commands(&self) -> (r: Vec<Vec<String>>)
        ensures
            r@.len() == 2,
            texts(r@[0]@) == link_cmd(self.is_root, self.sniff_iface@, "down"@),
            texts(r@[1]@) == del_cmd(self.is_root, self.sniff_iface@),
    {
        let down = link_command(self.is_root, self.sniff_iface.as_str(), false);
        let del = delete_command(self.is_root, self.sniff_iface.as_str());
        let mut v: Vec<Vec<String>> = Vec::new();
        v.push(down);
        v.push(del);
        v
    }
}

/// The status shown when no monitor interface could be had, with the
/// reason.
pub fn no_monitor_message(reason: &str) -> (r: String)
    ensures
        r@ == "No monitor mode — "@ + reason@ + ". AP scanning only."@,
{
    crate::text::concat3("No monitor mode — ", reason, ". AP scanning only.")
}

} // verus!
