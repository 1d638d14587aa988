# gem

A terminal browser for the Gemini protocol, built around a library whose
logic is verified with Verus.

- `src/` is the library:
  - `gemini/`: gemtext lines (`gemtext.rs`), pages and their display lines
    (`mod.rs`), response headers and status codes (`response.rs`);
  - `ui/`: key presses and the inputs and keys they stand for, the events of
    one poll of the terminal, the messages of the interface;
  - `app.rs`: the browser state and the request lines it sends;
  - `validation.rs`: trust on first use of server certificates, the store
    of trusted fingerprints and the text file it is kept in;
  - `decimal.rs`, `text.rs`: decimal integers, trimming, line splitting.
- `app/` is the program: the cursive interface, the terminal event thread,
  TLS connections with rustls and the certificate store's file.
- `tests/` runs the library on concrete values.
