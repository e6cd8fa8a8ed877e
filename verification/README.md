# android-tether

USB tethering for macOS: a bridge from an Android phone to a `utun` interface,
with encrypted DNS. The library holds the protocols and the decisions, written
in Verus and proved against their contracts. The program around it opens the
USB device, the interface and the sockets, and does what the library decides.

## Layout

- `src/` – the verified library
  - `rndis`, `proto_driver`, `proto_rndis` – control messages and data packets of
    the device
  - `frame`, `arp`, `dhcp`, `checksum`, `net_types`, `bytes`, `text` – frames,
    packets, addresses and their texts
  - `dns_proxy`, `dnscrypt`, `crypto` – catching DNS queries, and asking providers
  - `usb_device`, `usb_io` – choosing interfaces and endpoints, and taking in data
  - `config`, `daemon`, `ipc`, `stats`, `utun`, `session` – the configuration, the
    background service, commands, counters, the interface, and a session's course
- `tests/` – tests of the library
- `app/` – the program

## What is proved

Every function states what it returns, byte for byte where it writes bytes, and
each error with the inputs on which it comes. The laws that span functions stand
as public `lemma_` functions beside them. Some of them:

- frames that go out as RNDIS packets come back as they were, in their order
  (`rndis::lemma_stream_roundtrip`)
- with encrypted DNS no query goes to the phone (`session::lemma_no_dns_leaks`),
  wherever it is addressed to (`dns_proxy::lemma_destination_is_ignored`)
- what stands on the command line goes before the configuration file
  (`config::lemma_command_line_wins`)
- a setting under the header of its section takes effect, in whatever case the
  header is written (`config::lemma_setting_under_header`,
  `config::lemma_case_does_not_matter`)
- a new interface gets the smallest unit that connects
  (`utun::lemma_smallest_unit_is_chosen`)
- the gateway's hardware address is that of the first sender
  (`usb_io::lemma_gateway_from_first_sender`), and until one has been heard all
  frames go to everyone (`session::lemma_first_frames`)
- the end of a session removes what its beginning has set
  (`session::lemma_teardown_undoes_setup`)
- a DHCP exchange ends after a hundred waits at the latest
  (`dhcp::lemma_exchange_ends`)
- the headers of DHCP messages and of DNS replies have valid checksums

## What is trusted

The functions of `dryoc` in `crypto`, and `str::to_lowercase` in `config`. The
comments there say what is claimed of each.
