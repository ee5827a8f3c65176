//! From what the Bluetooth daemon reports of a device to the updates the
//! device table takes.

use vstd::prelude::*;

use crate::events::BtUpdate;
use crate::oui::opt_string;
use crate::text::{char_is_hex, chars_of, is_hex};

verus! {

/// The ASCII uppercase form of a hexadecimal digit.
pub open spec fn hex_upcase(c: char) -> char {
    if 'a' <= c && c <= 'f' {
        ((c as u32 - 32) as u8) as char
    } else {
        c
    }
}

/// The hexadecimal digits of `s`, in order and in uppercase; everything
/// else dropped.
pub open spec fn hex_only(s: Seq<char>) -> Seq<char>
    decreases s.len(),
{
    if s.len() == 0 {
        seq![]
    } else if is_hex(s.last()) {
        hex_only(s.drop_last()).push(hex_upcase(s.last()))
    } else {
        hex_only(s.drop_last())
    }
}

fn hex_only_chars(s: &str) -> (r: Vec<char>)
    ensures
        r@ == hex_only(s@),
{
    let v = chars_of(s);
    let mut r: Vec<char> = Vec::new();
    let mut i: usize = 0;
    while i < v.len()
        invariant
            i <= v@.len(),
            v@ == s@,
            r@ == hex_only(v@.take(i as int)),
        decreases v@.len() - i,
    {
        let c = v[i];
        assert(v@.take(i + 1).drop_last() =~= v@.take(i as int));
        if char_is_hex(c) {
            if 'a' <= c && c <= 'f' {
                r.push(((c as u32 - 32) as u8) as char);
            } else {
                r.push(c);
            }
        }
        i = i + 1;
    }
    assert(v@.take(v@.len() as int) =~= v@);
    r
}

/// The name a device goes by: none when the reported name is empty or is
/// only the device address again (the daemon falls back to the address
/// when a device advertises no name).
pub open spec fn clean_name(name: Seq<char>, addr: Seq<char>) -> Option<Seq<char>> {
    if name.len() == 0 || hex_only(name) == hex_only(addr) {
        None
    } else {
        Some(name)
    }
}

/// The reported `name` of the device at `addr`, unless it is empty or
/// spells the address (same hexadecimal digits, case aside).
pub fn clean_bt_name(name: String, addr: &str) -> (r: Option<String>)
    ensures
        opt_string(r) == clean_name(name@, addr@),
{
    if name.as_str().is_empty() {
        return None;
    }
    let a = hex_only_chars(name.as_str());
    let b = hex_only_chars(addr);
    let mut same = a.len() == b.len();
    let mut i: usize = 0;
    assert(a@.take(0) =~= b@.take(0));
    while same && i < a.len()
        invariant
            i <= a@.len(),
            same ==> a@.len() == b@.len(),
            same == (a@.len() == b@.len() && a@.take(i as int) == b@.take(i as int)),
        decreases a@.len() - i,
    {
        if a[i] != b[i] {
            same = false;
            assert(a@.take(i + 1)[i as int] != b@.take(i + 1)[i as int]);
        } else {
            assert(a@.take(i + 1) =~= b@.take(i + 1));
        }
        i = i + 1;
    }
    if same {
        assert(a@ =~= a@.take(a@.len() as int));
        assert(b@ =~= b@.take(b@.len() as int));
        None
    } else {
        proof {
            if a@ == b@ {
                assert(a@.take(i as int) == b@.take(i as int));
            }
        }
        Some(name)
    }
}

/// The manufacturer (company) identifier a device goes by: the smallest
/// key of its manufacturer data.
pub open spec fn least_key(keys: Seq<u16>) -> Option<u16>
    decreases keys.len(),
{
    if keys.len() == 0 {
        None
    } else {
        match least_key(keys.drop_last()) {
            None => Some(keys.last()),
            Some(m) => if keys.last() < m {
                Some(keys.last())
            } else {
                Some(m)
            },
        }
    }
}

/// The smallest of `keys`, if there is one.
pub fn company_id_of(keys: &[u16]) -> (r: Option<u16>)
    ensures
        r == least_key(keys@),
        r matches Some(m) ==> keys@.contains(m) && forall|i: int|
            0 <= i < keys@.len() ==> m <= #[trigger] keys@[i],
{
    let mut best: Option<u16> = None;
    let mut i: usize = 0;
    while i < keys.len()
        invariant
            i <= keys@.len(),
            best == least_key(keys@.take(i as int)),
            best is None <==> i == 0,
            best matches Some(m) ==> keys@.take(i as int).contains(m) && forall|j: int|
                0 <= j < i ==> m <= #[trigger] keys@[j],
        decreases keys@.len() - i,
    {
        let k = keys[i];
        assert(keys@.take(i + 1).drop_last() =~= keys@.take(i as int));
        assert(keys@.take(i + 1).last() == k);
        best = match best {
            None => Some(k),
            Some(m) => if k < m {
                Some(k)
            } else {
                Some(m)
            },
        };
        proof {
            let m = best->0;
            if m == k {
                assert(keys@.take(i + 1)[i as int] == k);
            } else {
                let t = keys@.take(i as int);
                let j = choose|j: int| 0 <= j < t.len() && t[j] == m;
                assert(keys@.take(i + 1)[j] == m);
            }
        }
        i = i + 1;
    }
    assert(keys@.take(keys@.len() as int) =~= keys@);
    best
}

/// A property change the daemon reports for a known device.
pub enum BtChange {
    Rssi(i16),
    TxPower(i16),
    Name(String),
    Alias(String),
    Icon(String),
    /// The keys of the new manufacturer data.
    ManufacturerData(Vec<u16>),
    Other,
}

/// The update a property change of the device at `address` gives, if it
/// gives one: signal and transmit power always; a name or alias only when
/// it is a real name; an icon only when it is not empty; manufacturer data
/// only when it has a key, its smallest key being the company.
pub fn update_for_change(address: String, change: BtChange) -> (r: Option<BtUpdate>)
    ensures
        r matches Some(u) ==> u.address@ == address@ && !u.is_random,
        match change {
            BtChange::Rssi(v) => r matches Some(u) && u.rssi == Some(v) && u.tx_power is None
                && u.name is None && u.icon is None && u.company_id is None,
            BtChange::TxPower(v) => r matches Some(u) && u.tx_power == Some(v) && u.rssi is None
                && u.name is None && u.icon is None && u.company_id is None,
            BtChange::Name(n) | BtChange::Alias(n) => match clean_name(n@, address@) {
                None => r is None,
                Some(c) => r matches Some(u) && opt_string(u.name) == Some(c) && u.rssi is None
                    && u.tx_power is None && u.icon is None && u.company_id is None,
            },
            BtChange::Icon(s) => if s@.len() == 0 {
                r is None
            } else {
                r matches Some(u) && opt_string(u.icon) == Some(s@) && u.rssi is None
                    && u.tx_power is None && u.name is None && u.company_id is None
            },
            BtChange::ManufacturerData(keys) => match least_key(keys@) {
                None => r is None,
                Some(c) => r matches Some(u) && u.company_id == Some(c) && u.rssi is None
                    && u.tx_power is None && u.name is None && u.icon is None,
            },
            BtChange::Other => r is None,
        },
{
    match change {
        BtChange::Rssi(v) => {
            let mut u = BtUpdate::for_address(address);
            u.rssi = Some(v);
            Some(u)
        },
        BtChange::TxPower(v) => {
            let mut u = BtUpdate::for_address(address);
            u.tx_power = Some(v);
            Some(u)
        },
        BtChange::Name(n) | BtChange::Alias(n) => {
            let name = clean_bt_name(n, address.as_str());
            match name {
                None => None,
                Some(c) => {
                    let mut u = BtUpdate::for_address(address);
                    u.name = Some(c);
                    Some(u)
                },
            }
        },
        BtChange::Icon(s) => {
            if s.as_str().is_empty() {
                None
            } else {
                let mut u = BtUpdate::for_address(address);
                u.icon = Some(s);
                Some(u)
            }
        },
        BtChange::ManufacturerData(keys) => {
            match company_id_of(keys.as_slice()) {
                None => None,
                Some(c) => {
                    let mut u = BtUpdate::for_address(address);
                    u.company_id = Some(c);
                    Some(u)
                },
            }
        },
        BtChange::Other => None,
    }
}

/// What the daemon tells of a newly discovered device.
pub struct BtDiscovery {
    pub address: String,
    pub name: Option<String>,
    pub alias: Option<String>,
    pub rssi: Option<i16>,
    pub tx_power: Option<i16>,
    pub is_random: bool,
    pub icon: Option<String>,
    /// The keys of its manufacturer data, when it has any.
    pub manufacturer_keys: Option<Vec<u16>>,
}

/// The name of a discovery: its name, else its alias, as long as it is a
/// real name.
pub open spec fn discovery_name(d: BtDiscovery) -> Option<Seq<char>> {
    let raw = match d.name {
        Some(n) => Some(n@),
        None => opt_string(d.alias),
    };
    match raw {
        Some(n) => clean_name(n, d.address@),
        None => None,
    }
}

/// The update for a newly discovered device: its name (else alias) when
/// it is a real name, its signal and power, whether its address is random,
/// its icon unless empty, and the smallest manufacturer key as company.
pub fn update_for_discovery(d: BtDiscovery) -> (u: BtUpdate)
    ensures
        u.address@ == d.address@,
        opt_string(u.name) == discovery_name(d),
        u.rssi == d.rssi,
        u.tx_power == d.tx_power,
        u.is_random == d.is_random,
        opt_string(u.icon) == match opt_string(d.icon) {
            Some(s) => if s.len() == 0 {
                None
            } else {
                Some(s)
            },
            None => None,
        },
        u.company_id == match d.manufacturer_keys {
            Some(k) => least_key(k@),
            None => None,
        },
{
    let BtDiscovery { address, name, alias, rssi, tx_power, is_random, icon, manufacturer_keys } =
        d;
    let raw = match name {
        Some(n) => Some(n),
        None => alias,
    };
    let name = match raw {
        Some(n) => clean_bt_name(n, address.as_str()),
        None => None,
    };
    let icon = match icon {
        Some(s) => if s.as_str().is_empty() {
            None
        } else {
            Some(s)
        },
        None => None,
    };
    let company_id = match manufacturer_keys {
        Some(k) => company_id_of(k.as_slice()),
        None => None,
    };
    BtUpdate { address, name, rssi, tx_power, is_random, icon, company_id }
}

} // verus!
