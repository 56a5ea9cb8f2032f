# postbud

Self-hosted transactional mail: an HTTP API in front, Postfix behind.
postbud accepts mail, keeps it until it is delivered, remembers what
happened to it, and never writes to an address that has already bounced.

This repository holds the policy as a verified library and the program
around it.

## Layout

- `src/` — the library, written in Verus. Every decision postbud takes is
  here, with a contract proved against a mathematical model of its inputs:
  - `address`, `authz` — address normalization and which tenant may send
    as which domain;
  - `retry`, `relay`, `worker` — the retry schedule, what each SMTP answer
    means for a message, and how a delivery attempt is recorded;
  - `dsn`, `classification`, `ledger` — reading bounces, which of them
    suppress an address, and the rules around the grant table;
  - `relayqueue`, `showq`, `queuereport` — reading the relay's queue;
  - `dmarc`, `poller` — unwrapping and reading DMARC aggregate reports,
    and collecting them from a mailbox;
  - `dnscheck`, `rdns`, `registry` — judging a sending domain's and the
    relay's DNS, and the rows an operator publishes;
  - `api`, `submit`, `oidc`, `apikey` — who the HTTP surface lets in, with
    which role, and what a request must carry;
  - `silence`, `volume` — the signals that something has gone quiet or
    loud;
  - `settings` — how environment settings are read once fetched;
  - `text` — the string and number handling the rest is written in.
  Laws that relate several functions stand as public proof functions
  beside the functions they speak of.
- `tests/` — tests of the library on concrete values.
- `app/` — the `postbud` binary: the CLI, the HTTP server, the database,
  SMTP, IMAP and DNS. It fetches inputs, hands them to the library as
  plain values, and carries out what the library decides.
