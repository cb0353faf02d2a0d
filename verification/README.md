# newcamd_lib

The core of a client for the newcamd 525 protocol, verified with Verus. The
library does no I/O: it turns requests into frames, frames into packets, and
packets into answers. Programs hand it bytes and send what it returns.

## Layout

- `src/protocol.rs`, `src/frame.rs`: payloads, messages and frames.
- `src/cipher.rs`, `src/crypto.rs`, `src/key.rs`, `src/md5_crypt.rs`: triple DES
  in cipher block chaining, message encryption, key derivation, hashed passwords.
- `src/handshake.rs`, `src/client.rs`: the login, and the state of a session.
- `src/ecm_reader.rs`: ECM sections out of a transport stream.
- `src/arguments.rs`, `src/cli.rs`, `src/number.rs`, `src/hex.rs`, `src/text.rs`:
  command lines and texts.
- `src/laws.rs`: what holds across functions and calls. Other modules state laws
  of their own beside the functions that they are about.
- `app/`: the programs, with sockets, HTTP and the asynchronous runtime.

DES, MD5, random numbers and the parts of a transport stream come from the
crates `des`, `md-5`, `rand` and `libmpegts`. The functions that call them say
`Trusted:` in their comments, and what is taken for granted of each call.
