//! The serverbound player movement packets of the play state. Only the
//! changed fields go on the wire; the others read as zero.
//!
//! Coordinates (`f64`) and angles (`f32`) are held as their IEEE-754 bit
//! patterns, as they arrive big-endian on the wire.
use vstd::prelude::*;
use crate::buffer::{ByteReader, be_u32, be_u64};
use super::ser::{PacketDecode, PacketSerError};

verus! {

/// The fields the movement packets share.
#[derive(Debug, Clone, Copy, PartialEq, Eq, Structural)]
pub struct MovePlayer {
    /// Bits of the `f64` x coordinate.
    pub x: u64,
    /// Bits of the `f64` y coordinate.
    pub y: u64,
    /// Bits of the `f64` z coordinate.
    pub z: u64,
    /// Bits of the `f32` yaw.
    pub yaw: u32,
    /// Bits of the `f32` pitch.
    pub pitch: u32,
    pub on_ground: bool,
}

impl View for MovePlayer {
    type V = MovePlayer;

    open spec fn view(&self) -> MovePlayer {
        *self
    }
}

/// The position at the front of `s`: three big-endian eight-byte values.
pub open spec fn position_at(s: Seq<u8>) -> (u64, u64, u64) {
    (be_u64(s), be_u64(s.skip(8)), be_u64(s.skip(16)))
}

/// The rotation at the front of `s`: two big-endian four-byte values.
pub open spec fn rotation_at(s: Seq<u8>) -> (u32, u32) {
    (be_u32(s), be_u32(s.skip(4)))
}

/// `ServerboundMovePlayerPosPacket`: position and ground flag.
#[derive(Debug, Clone, Copy, PartialEq, Eq, Structural)]
pub struct MovePlayerPos(pub MovePlayer);

/// `ServerboundMovePlayerPosRotPacket`: position, rotation and ground flag.
#[derive(Debug, Clone, Copy, PartialEq, Eq, Structural)]
pub struct MovePlayerPosRot(pub MovePlayer);

/// `ServerboundMovePlayerRotPacket`: rotation and ground flag.
#[derive(Debug, Clone, Copy, PartialEq, Eq, Structural)]
pub struct MovePlayerRot(pub MovePlayer);

/// `ServerboundMovePlayerStatusOnlyPacket`: the ground flag alone.
#[derive(Debug, Clone, Copy, PartialEq, Eq, Structural)]
pub struct MovePlayerStatusOnly(pub MovePlayer);

impl View for MovePlayerPos {
    type V = MovePlayer;

    open spec fn view(&self) -> MovePlayer {
        self.0
    }
}

impl View for MovePlayerPosRot {
    type V = MovePlayer;

    open spec fn view(&self) -> MovePlayer {
        self.0
    }
}

impl View for MovePlayerRot {
    type V = MovePlayer;

    open spec fn view(&self) -> MovePlayer {
        self.0
    }
}

impl View for MovePlayerStatusOnly {
    type V = MovePlayer;

    open spec fn view(&self) -> MovePlayer {
        self.0
    }
}

// A body shorter than its fields reads as `Underflow`.
impl PacketDecode for MovePlayerPos {
    const ID: i32 = 0x1D;

    open spec fn parse(s: Seq<u8>) -> Result<(MovePlayer, nat), PacketSerError> {
        if s.len() < 25 {
            Err(PacketSerError::Underflow)
        } else {
            let p = position_at(s);
            Ok((MovePlayer { x: p.0, y: p.1, z: p.2, yaw: 0, pitch: 0, on_ground: s[24] != 0 }, 25))
        }
    }

    open spec fn readable(s: Seq<u8>) -> bool {
        true
    }

    fn decode(buf: &mut ByteReader) -> (r: Result<Self, PacketSerError>) {
        if buf.remaining() < 25 {
            return Err(PacketSerError::Underflow);
        }
        let ghost s = buf@;
        let x = buf.get_u64();
        let y = buf.get_u64();
        let z = buf.get_u64();
        let on_ground = buf.get_u8() != 0;
        proof {
            assert(s.skip(8).skip(8) =~= s.skip(16));
            assert(s.skip(16).skip(8) =~= s.skip(24));
            assert(s.skip(24)[0] == s[24]);
            assert(buf@ =~= s.skip(25));
        }
        Ok(MovePlayerPos(MovePlayer { x, y, z, yaw: 0, pitch: 0, on_ground }))
    }
}

impl PacketDecode for MovePlayerPosRot {
    const ID: i32 = 0x1E;

    open spec fn parse(s: Seq<u8>) -> Result<(MovePlayer, nat), PacketSerError> {
        if s.len() < 33 {
            Err(PacketSerError::Underflow)
        } else {
            let p = position_at(s);
            let a = rotation_at(s.skip(24));
            Ok((MovePlayer { x: p.0, y: p.1, z: p.2, yaw: a.0, pitch: a.1, on_ground: s[32] != 0 }, 33))
        }
    }

    open spec fn readable(s: Seq<u8>) -> bool {
        true
    }

    fn decode(buf: &mut ByteReader) -> (r: Result<Self, PacketSerError>) {
        if buf.remaining() < 33 {
            return Err(PacketSerError::Underflow);
        }
        let ghost s = buf@;
        let x = buf.get_u64();
        let y = buf.get_u64();
        let z = buf.get_u64();
        let yaw = buf.get_u32();
        let pitch = buf.get_u32();
        let on_ground = buf.get_u8() != 0;
        proof {
            assert(s.skip(8).skip(8) =~= s.skip(16));
            assert(s.skip(16).skip(8) =~= s.skip(24));
            assert(s.skip(24).skip(4) =~= s.skip(28));
            assert(s.skip(32)[0] == s[32]);
            assert(buf@ =~= s.skip(33));
        }
        Ok(MovePlayerPosRot(MovePlayer { x, y, z, yaw, pitch, on_ground }))
    }
}

impl PacketDecode for MovePlayerRot {
    const ID: i32 = 0x1F;

    open spec fn parse(s: Seq<u8>) -> Result<(MovePlayer, nat), PacketSerError> {
        if s.len() < 9 {
            Err(PacketSerError::Underflow)
        } else {
            let a = rotation_at(s);
            Ok((MovePlayer { x: 0, y: 0, z: 0, yaw: a.0, pitch: a.1, on_ground: s[8] != 0 }, 9))
        }
    }

    open spec fn readable(s: Seq<u8>) -> bool {
        true
    }

    fn decode(buf: &mut ByteReader) -> (r: Result<Self, PacketSerError>) {
        if buf.remaining() < 9 {
            return Err(PacketSerError::Underflow);
        }
        let ghost s = buf@;
        let yaw = buf.get_u32();
        let pitch = buf.get_u32();
        let on_ground = buf.get_u8() != 0;
        proof {
            assert(s.skip(8)[0] == s[8]);
            assert(buf@ =~= s.skip(9));
        }
        Ok(MovePlayerRot(MovePlayer { x: 0, y: 0, z: 0, yaw, pitch, on_ground }))
    }
}

impl PacketDecode for MovePlayerStatusOnly {
    const ID: i32 = 0x20;

    open spec fn parse(s: Seq<u8>) -> Result<(MovePlayer, nat), PacketSerError> {
        if s.len() < 1 {
            Err(PacketSerError::Underflow)
        } else {
            Ok((MovePlayer { x: 0, y: 0, z: 0, yaw: 0, pitch: 0, on_ground: s[0] != 0 }, 1))
        }
    }

    open spec fn readable(s: Seq<u8>) -> bool {
        true
    }

    fn decode(buf: &mut ByteReader) -> (r: Result<Self, PacketSerError>) {
        if buf.remaining() < 1 {
            return Err(PacketSerError::Underflow);
        }
        let on_ground = buf.get_u8() != 0;
        Ok(MovePlayerStatusOnly(MovePlayer { x: 0, y: 0, z: 0, yaw: 0, pitch: 0, on_ground }))
    }
}

} // verus!
