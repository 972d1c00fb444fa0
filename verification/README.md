# pinterest_parser

Downloads images from Pinterest through a ChromeDriver session, in three modes:
`auth` (logs in first), `limited` (no account, at most 30 pins) and `relay`
(no account; takes up to 30 pins from a page, then moves on to the page of one of them).

The decisions are a verified library (`src/`, checked by Verus):

- `harvest`: the per-page collector. It takes pins round by round, drops repeated
  links, turns thumbnail addresses into large-image addresses, and says which scrolls
  and pauses to perform between rounds, including what to do when a page stalls.
- `relay`: the page-to-page relay built on the collector.
- `naming`: the file name of each downloaded image.
- `session`: the guest cap and the driver service address.
- `text`: decimal notation, zero padding and substring replacement on strings.

`app/main.rs` is the program around it: command line, browser driver, HTTP downloads
and files. It performs the work the library asks for and hands back what it read.
