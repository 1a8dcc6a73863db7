//! A sans-I/O encrypted transport core: an ephemeral curve25519 key exchange
//! followed by a ChaCha20-Poly1305 session with one cipher state per
//! direction, a length-prefixed packet framer that reassembles packets out of
//! arbitrarily chunked input, and fail-closed handling of authentication
//! failure. The caller moves raw bytes in and out; the core never touches a
//! socket.
pub mod box_state;
pub mod buffer;
pub mod extcrypto;
pub mod framed;
pub mod framer;
pub mod session;
pub mod sink;
pub mod wire;
