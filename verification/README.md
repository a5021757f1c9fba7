# saltlick

Streaming public-key encryption. Plaintext is pushed into an `Encrypter`, in
pieces of any size; the bytes of the stream are pulled through a `Decrypter`,
again in pieces of any size, until it is finalized. The cryptography is that of
libsodium, through sodiumoxide.

The library is written in Verus. What each function returns is stated in its
contract and proved.

## Layout

| Module | What it holds |
| --- | --- |
| `crypter` | block sizes; the `Encrypter` and the `Decrypter` in its submodules, and `read` and `write`, which read and write the parts of a stream |
| `wire` | the bytes of a stream: magic bytes, preamble, frames, blocks |
| `laws` | what holds over several calls: what was pushed is what comes out, whatever the pieces |
| `key`, `version`, `error`, `multibuf` | the values that the crypters take and give |
| `sodium`, `bytebuf`, `netorder` | the calls into sodiumoxide, bytes and byteorder, with contracts that are not proved but taken from the sources of these crates |

## Format

```text
stream   = preamble frame*
preamble = "SALTLICK" version public-key sealed(stream-key stream-header)
frame    = encrypted(length of the block, 32 bits, big-endian) encrypted(block)
```

The last block of a stream is marked as such, and only that one may be empty. A
stream that is cut short never finalizes a decrypter.
