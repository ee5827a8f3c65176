# airprowl

A real-time wireless scanner for Linux: Bluetooth devices through BlueZ,
WiFi access points through NetworkManager, WiFi clients through a
monitor-mode capture, and Sub-GHz activity through a Yard Stick One dongle,
shown in a terminal view or printed as JSON by a headless scan.

The decision-making core is a Verus-verified library; the program around it
does the I/O.

## Layout

- `src/` — the verified library.
  - `text` — character helpers: trimming, words, lines, decimal text.
  - `oui`, `ble` — vendor databases (IEEE prefixes, Bluetooth SIG company
    identifiers) and the vendor labels shown for devices.
  - `names` — custom device names and their JSON file form.
  - `config` — command-line options and tuning constants.
  - `events` — what the scanners report.
  - `table`, `store`, `session` — the device tables, how each report updates
    a device, pausing, the drop of silent devices, and which devices a tab
    lists.
  - `radiotap`, `sniffer` — the radiotap header of captured frames and the
    client sightings taken from 802.11 frames.
  - `ap_scan` — NetworkManager's terse listing and interface warnings.
  - `bluetooth` — BlueZ device properties turned into updates.
  - `subghz` — the dongle's command frames, RSSI replies, band names and
    the frequency sweep.
  - `monitor` — the commands that set up and remove the monitor interface.
  - `tui` — the view state and the key handling state machine.
  - `order` — stable ordering of lists by integer-sequence keys.
  - `signal`, `util`, `export` — compact ages, colours, the clock,
    cell-exact columns, export file names and messages.
  - `laws` — properties that span several operations.
- `tests/` — tests of the library on concrete values.
- `app/` — the program: `main`, the scanners' I/O, drawing with ratatui,
  floating-point signal arithmetic, JSON export records.

## Data files

The vendor databases are read at start-up from `data/oui-prefixes.txt`
(falling back to `/usr/share/nmap/nmap-mac-prefixes`) and
`data/ble-companies.txt` next to the program. Custom names live in
`names.json` next to the program.
