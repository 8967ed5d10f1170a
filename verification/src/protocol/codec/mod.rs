//! The packet stream: framing, zlib compression and AES/CFB8 encryption.
pub mod cipher_state;
pub mod compression;
pub mod encryption;
pub mod framed;


pub use compression::{CompressionError, compress_payload, decompress_payload};
pub use encryption::{CipherRead, CipherWrite, EncryptionError, SharedSecret};
pub use framed::{DecodedPacket, EncodedPacket, PacketCodec, PacketDecodeError, PacketEncodeError};

