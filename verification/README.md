# ss_proxy

A two-hop SOCKS5 relay. A local gate accepts SOCKS5 clients and pairs each
with a pre-opened connection (`Hk`) to a remote gate; the remote gate learns
the website from the scrambled CONNECT request, resolves it over DNS, opens
the website connection (`World`) and relays bytes both ways.

Layout:

- `src/` — the verified library (Verus).
  - `ss/mod.rs`: connection roles and statuses, the byte scrambling `u8r`.
  - `ss/line/`: one connection's state machine and buffers; what it must do
    on its socket is returned as `Action`s.
  - `ss/gate/`: the connection table: pairing, decoupling, clearing,
    delivery between pairs, DNS requests and results.
  - `ss/dns_manager.rs`: DNS query building and reply decoding through
    `simple_dns`.
  - `ss/network_event.rs`: which handlers a socket event calls for.
  - `log.rs`: the line format of the shared log file.
- `app/` — the program around it: sockets and polling (`mio`), log files
  (`chrono`), and the event loop that carries out the library's actions.
- `tests/` — tests of the library.
