# IPScanner

A desktop scanner for the devices of a local IPv4 network, with its logic verified by Verus.

- `src/` is the verified library `ipscanner`:
  - `targets`: what a typed range means (single address, `a.b.c.d-e`, `a.b.c.d-a.b.c.e`,
    CIDR through ipnet), its errors, and the completion of short inputs.
  - `ipv4`, `text`: addresses, their text form, and the text operations the parsers use.
  - `mac`, `probe`: MAC addresses as ARP tools print them, the vendor (OUI) table, what the
    answers of `arp`, `nbtstat`, DNS and `SendARP` mean, and the steps of probing a host.
  - `records`, `scan`: result records, their table order, and the state of the window as
    the user and the scan workers change it.
  - `language`, `settings`, `presets`, `platform`, `paths`, `icon`: interface texts in six
    languages, remembered settings, suggested ranges, platform details, file locations and
    icon pixels.
- `app/` is the program around it: the egui window, worker threads, system tools, files,
  serde copies of the settings, CSV/XLSX export and the floating-point icon drawing.
- `tests/` exercises the library on concrete values.
