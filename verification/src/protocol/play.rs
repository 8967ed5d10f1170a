//! Play-state packets needed to join a world and stay connected.
//!
//! The movement packets carry floating-point coordinates and are read by
//! the server program, not here.
use vstd::prelude::*;
use crate::buffer::{
    ByteReader, ByteWriter, be_u64, lemma_be_u64_roundtrip, lemma_prefix_of_add, lemma_prefix_trans,
    prefix_of, stopped, u64_be,
};
use crate::data::packets::{clientbound_spec, find, packet_report, serverbound_spec};
use crate::nbt::{Nbt, NbtCompound, NbtData, NbtList, NbtTag, NbtValue};
use crate::nbt::encode::{root_bytes, root_ok};
use crate::uuid::{Uuid, uuid_bytes};
use super::ids;
use super::ser::{
    PacketDecode, PacketEncode, PacketSerError, advanced, bool_to, bool_wire, concat_wire,
    get_u64_field, got, lemma_arrived, lemma_concat_wire_empty, lemma_concat_wire_step,
    lemma_list_next, lemma_next, nbt_named_root_to, string_to, string_wire, u64_field, u64_to,
    u8_to, uuid_to, var_int_to, var_int_wire,
};
use super::configuration::{string_item_fn, strings_to};

verus! {

/// Joins the client to the world.
#[derive(Debug)]
pub struct LoginPlay {
    pub entity_id: i32,
    pub is_hardcore: bool,
    pub gamemode: i8,
    pub previous_gamemode: i8,
    pub dimension_names: Vec<String>,
    pub registry_payload: Nbt,
    pub world_name: String,
    pub seed_hash: i64,
    pub max_players: i32,
    pub view_distance: i32,
    pub simulation_distance: i32,
    pub reduced_debug_info: bool,
    pub show_death_screen: bool,
    pub do_limited_crafting: bool,
}

impl LoginPlay {
    /// The bytes after the registry payload.
    pub open spec fn tail_wire(&self) -> Seq<u8> {
        string_wire(self.world_name@) + u64_be(self.seed_hash as u64) + var_int_wire(
            self.max_players,
        ) + var_int_wire(self.view_distance) + var_int_wire(self.simulation_distance) + bool_wire(
            self.reduced_debug_info,
        ) + bool_wire(self.show_death_screen) + bool_wire(self.do_limited_crafting)
    }

    /// The bytes before the registry payload.
    pub open spec fn head_wire(&self) -> Seq<u8> {
        var_int_wire(self.entity_id) + bool_wire(self.is_hardcore) + var_int_wire(
            self.gamemode as i32,
        ) + seq![self.previous_gamemode as u8] + var_int_wire(
            self.dimension_names@.len() as i32,
        ) + concat_wire(self.dimension_names@, string_item_fn())
    }
}

impl PacketEncode for LoginPlay {
    const ID: i32 = 0x30;

    open spec fn wire(&self) -> Seq<u8> {
        self.head_wire() + root_bytes(self.registry_payload.name@, self.registry_payload.root@)
            + self.tail_wire()
    }

    open spec fn wire_ok(&self) -> bool {
        root_ok(self.registry_payload.name@, self.registry_payload.root@)
    }

    fn encode(&self, buf: &mut ByteWriter) -> (r: Result<(), PacketSerError>) {
        let ghost w0 = *buf;
        let ghost t = buf@ + self.wire();
        let ghost ok = self.wire_ok();
        let ghost nbt = root_bytes(self.registry_payload.name@, self.registry_payload.root@);
        let ghost names = concat_wire(self.dimension_names@, string_item_fn());
        let ghost q1 = w0@ + var_int_wire(self.entity_id);
        let ghost q2 = q1 + bool_wire(self.is_hardcore);
        let ghost q3 = q2 + var_int_wire(self.gamemode as i32);
        let ghost q4 = q3 + seq![self.previous_gamemode as u8];
        let ghost q5 = q4 + var_int_wire(self.dimension_names@.len() as i32);
        let ghost q6 = q5 + names;
        let ghost q7 = q6 + nbt;
        let ghost q8 = q7 + string_wire(self.world_name@);
        let ghost q9 = q8 + u64_be(self.seed_hash as u64);
        let ghost q10 = q9 + var_int_wire(self.max_players);
        let ghost q11 = q10 + var_int_wire(self.view_distance);
        let ghost q12 = q11 + var_int_wire(self.simulation_distance);
        let ghost q13 = q12 + bool_wire(self.reduced_debug_info);
        let ghost q14 = q13 + bool_wire(self.show_death_screen);
        let ghost q15 = q14 + bool_wire(self.do_limited_crafting);
        proof {
            lemma_login_play_parts(self, w0@);
            lemma_prefix_of_add(q15, Seq::empty());
            assert(q15 + Seq::<u8>::empty() =~= q15);
            lemma_prefix_of_add(q14, bool_wire(self.do_limited_crafting));
            lemma_prefix_trans(q14, q15, t);
            lemma_prefix_of_add(q13, bool_wire(self.show_death_screen));
            lemma_prefix_trans(q13, q14, t);
            lemma_prefix_of_add(q12, bool_wire(self.reduced_debug_info));
            lemma_prefix_trans(q12, q13, t);
            lemma_prefix_of_add(q11, var_int_wire(self.simulation_distance));
            lemma_prefix_trans(q11, q12, t);
            lemma_prefix_of_add(q10, var_int_wire(self.view_distance));
            lemma_prefix_trans(q10, q11, t);
            lemma_prefix_of_add(q9, var_int_wire(self.max_players));
            lemma_prefix_trans(q9, q10, t);
            lemma_prefix_of_add(q8, u64_be(self.seed_hash as u64));
            lemma_prefix_trans(q8, q9, t);
            lemma_prefix_of_add(q7, string_wire(self.world_name@));
            lemma_prefix_trans(q7, q8, t);
            lemma_prefix_of_add(q6, nbt);
            lemma_prefix_trans(q6, q7, t);
            lemma_prefix_of_add(q5, names);
            lemma_prefix_trans(q5, q6, t);
            lemma_prefix_of_add(q4, var_int_wire(self.dimension_names@.len() as i32));
            lemma_prefix_trans(q4, q5, t);
            lemma_prefix_of_add(q3, seq![self.previous_gamemode as u8]);
            lemma_prefix_trans(q3, q4, t);
            lemma_prefix_of_add(q2, var_int_wire(self.gamemode as i32));
            lemma_prefix_trans(q2, q3, t);
            lemma_prefix_of_add(q1, bool_wire(self.is_hardcore));
            lemma_prefix_trans(q1, q2, t);
        }
        var_int_to(buf, self.entity_id, Ghost(t), Ghost(ok))?;
        bool_to(buf, self.is_hardcore, Ghost(t), Ghost(ok))?;
        var_int_to(buf, self.gamemode as i32, Ghost(t), Ghost(ok))?;
        u8_to(buf, self.previous_gamemode as u8, Ghost(t), Ghost(ok))?;
        var_int_to(buf, self.dimension_names.len() as i32, Ghost(t), Ghost(ok))?;
        strings_to(buf, &self.dimension_names, Ghost(t), Ghost(ok))?;
        nbt_named_root_to(
            buf,
            self.registry_payload.name.as_str(),
            &self.registry_payload.root,
            PacketSerError::Overflow,
            Ghost(t),
            Ghost(ok),
        )?;
        string_to(buf, self.world_name.as_str(), Ghost(t), Ghost(ok))?;
        u64_to(buf, self.seed_hash as u64, Ghost(t), Ghost(ok))?;
        var_int_to(buf, self.max_players, Ghost(t), Ghost(ok))?;
        var_int_to(buf, self.view_distance, Ghost(t), Ghost(ok))?;
        var_int_to(buf, self.simulation_distance, Ghost(t), Ghost(ok))?;
        bool_to(buf, self.reduced_debug_info, Ghost(t), Ghost(ok))?;
        bool_to(buf, self.show_death_screen, Ghost(t), Ghost(ok))?;
        bool_to(buf, self.do_limited_crafting, Ghost(t), Ghost(ok))?;
        proof {
            lemma_arrived(w0, *buf, self.wire(), ok);
        }
        Ok(())
    }
}

proof fn lemma_assoc(a: Seq<u8>, b: Seq<u8>, c: Seq<u8>)
    ensures
        a + (b + c) == a + b + c,
{
    assert(a + (b + c) =~= a + b + c);
}

proof fn lemma_login_play_parts(p: &LoginPlay, w: Seq<u8>)
    ensures
        w + p.wire() == w + var_int_wire(p.entity_id) + bool_wire(p.is_hardcore) + var_int_wire(
            p.gamemode as i32,
        ) + seq![p.previous_gamemode as u8] + var_int_wire(p.dimension_names@.len() as i32)
            + concat_wire(p.dimension_names@, string_item_fn()) + root_bytes(
            p.registry_payload.name@,
            p.registry_payload.root@,
        ) + string_wire(p.world_name@) + u64_be(p.seed_hash as u64) + var_int_wire(p.max_players)
            + var_int_wire(p.view_distance) + var_int_wire(p.simulation_distance) + bool_wire(
            p.reduced_debug_info,
        ) + bool_wire(p.show_death_screen) + bool_wire(p.do_limited_crafting),
{
    let a = var_int_wire(p.entity_id);
    let b = bool_wire(p.is_hardcore);
    let c = var_int_wire(p.gamemode as i32);
    let d = seq![p.previous_gamemode as u8];
    let e = var_int_wire(p.dimension_names@.len() as i32);
    let names = concat_wire(p.dimension_names@, string_item_fn());
    let nbt = root_bytes(p.registry_payload.name@, p.registry_payload.root@);
    let f1 = string_wire(p.world_name@);
    let f2 = u64_be(p.seed_hash as u64);
    let f3 = var_int_wire(p.max_players);
    let f4 = var_int_wire(p.view_distance);
    let f5 = var_int_wire(p.simulation_distance);
    let f6 = bool_wire(p.reduced_debug_info);
    let f7 = bool_wire(p.show_death_screen);
    let f8 = bool_wire(p.do_limited_crafting);
    let h1 = a + b;
    let h2 = h1 + c;
    let h3 = h2 + d;
    let h4 = h3 + e;
    let head = h4 + names;
    let t1 = f1 + f2;
    let t2 = t1 + f3;
    let t3 = t2 + f4;
    let t4 = t3 + f5;
    let t5 = t4 + f6;
    let t6 = t5 + f7;
    let tail = t6 + f8;
    assert(p.head_wire() == head);
    assert(p.tail_wire() == tail);
    lemma_assoc(w, head + nbt, tail);
    lemma_assoc(w, head, nbt);
    lemma_assoc(w, h4, names);
    lemma_assoc(w, h3, e);
    lemma_assoc(w, h2, d);
    lemma_assoc(w, h1, c);
    lemma_assoc(w, a, b);
    let x = w + head + nbt;
    lemma_assoc(x, t6, f8);
    lemma_assoc(x, t5, f7);
    lemma_assoc(x, t4, f6);
    lemma_assoc(x, t3, f5);
    lemma_assoc(x, t2, f4);
    lemma_assoc(x, t1, f3);
    lemma_assoc(x, f1, f2);
}

/// The play-state keep-alive; the client echoes its payload.
#[derive(Debug, Clone, Copy, PartialEq, Eq, Structural)]
pub struct KeepAlive {
    pub payload: i64,
}

impl View for KeepAlive {
    type V = KeepAlive;

    open spec fn view(&self) -> KeepAlive {
        *self
    }
}

impl PacketEncode for KeepAlive {
    const ID: i32 = 0x2B;

    open spec fn wire(&self) -> Seq<u8> {
        u64_be(self.payload as u64)
    }

    open spec fn wire_ok(&self) -> bool {
        true
    }

    fn encode(&self, buf: &mut ByteWriter) -> (r: Result<(), PacketSerError>) {
        let ghost w0 = *buf;
        let ghost t = buf@ + self.wire();
        proof {
            lemma_next(buf@, self.wire(), Seq::empty(), t);
        }
        u64_to(buf, self.payload as u64, Ghost(t), Ghost(true))?;
        proof {
            lemma_arrived(w0, *buf, self.wire(), true);
        }
        Ok(())
    }
}

impl PacketDecode for KeepAlive {
    const ID: i32 = 0x2B;

    open spec fn parse(s: Seq<u8>) -> Result<(KeepAlive, nat), PacketSerError> {
        match u64_field(s) {
            Ok((v, n)) => Ok((KeepAlive { payload: v as i64 }, n)),
            Err(e) => Err(e),
        }
    }

    open spec fn readable(s: Seq<u8>) -> bool {
        true
    }

    fn decode(buf: &mut ByteReader) -> (r: Result<Self, PacketSerError>) {
        let payload = get_u64_field(buf)?;
        Ok(KeepAlive { payload: payload as i64 })
    }
}

/// Disconnects the client during play with a JSON reason.
#[derive(Debug, Clone)]
pub struct Disconnect {
    pub reason_json: String,
}

impl PacketEncode for Disconnect {
    const ID: i32 = 0x20;

    open spec fn wire(&self) -> Seq<u8> {
        string_wire(self.reason_json@)
    }

    open spec fn wire_ok(&self) -> bool {
        true
    }

    fn encode(&self, buf: &mut ByteWriter) -> (r: Result<(), PacketSerError>) {
        let ghost w0 = *buf;
        let ghost t = buf@ + self.wire();
        proof {
            lemma_next(buf@, self.wire(), Seq::empty(), t);
        }
        string_to(buf, self.reason_json.as_str(), Ghost(t), Ghost(true))?;
        proof {
            lemma_arrived(w0, *buf, self.wire(), true);
        }
        Ok(())
    }
}

/// The client's echo of a play-state keep-alive.
#[derive(Debug, Clone, Copy, PartialEq, Eq, Structural)]
pub struct KeepAliveAck {
    pub payload: i64,
}

impl View for KeepAliveAck {
    type V = KeepAliveAck;

    open spec fn view(&self) -> KeepAliveAck {
        *self
    }
}

impl PacketDecode for KeepAliveAck {
    const ID: i32 = 0x1B;

    open spec fn parse(s: Seq<u8>) -> Result<(KeepAliveAck, nat), PacketSerError> {
        match u64_field(s) {
            Ok((v, n)) => Ok((KeepAliveAck { payload: v as i64 }, n)),
            Err(e) => Err(e),
        }
    }

    open spec fn readable(s: Seq<u8>) -> bool {
        true
    }

    fn decode(buf: &mut ByteReader) -> (r: Result<Self, PacketSerError>) {
        let payload = get_u64_field(buf)?;
        Ok(KeepAliveAck { payload: payload as i64 })
    }
}

impl PacketEncode for KeepAliveAck {
    const ID: i32 = 0x1B;

    open spec fn wire(&self) -> Seq<u8> {
        u64_be(self.payload as u64)
    }

    open spec fn wire_ok(&self) -> bool {
        true
    }

    fn encode(&self, buf: &mut ByteWriter) -> (r: Result<(), PacketSerError>) {
        let ghost w0 = *buf;
        let ghost t = buf@ + self.wire();
        proof {
            lemma_next(buf@, self.wire(), Seq::empty(), t);
        }
        u64_to(buf, self.payload as u64, Ghost(t), Ghost(true))?;
        proof {
            lemma_arrived(w0, *buf, self.wire(), true);
        }
        Ok(())
    }
}

/// Which fields a player-list update carries, as bits.
#[derive(Debug, Clone, Copy, PartialEq, Eq, Structural)]
pub struct PlayerInfoActions(pub u8);

impl PlayerInfoActions {
    pub const ADD_PLAYER: u8 = 1;
    pub const INITIALIZE_CHAT: u8 = 2;
    pub const UPDATE_GAMEMODE: u8 = 4;
    pub const UPDATE_LISTED: u8 = 8;
    pub const UPDATE_LATENCY: u8 = 16;
    pub const UPDATE_DISPLAY_NAME: u8 = 32;

    /// No action.
    pub fn empty() -> (a: Self)
        ensures
            a.0 == 0,
    {
        PlayerInfoActions(0)
    }

    /// These actions and `flag`'s bits.
    pub fn with(self, flag: u8) -> (a: Self)
        ensures
            a.0 == self.0 | flag,
    {
        PlayerInfoActions(self.0 | flag)
    }
}

/// One player's row in a player-list update; fields the actions leave out
/// may be `None`.
#[derive(Debug, Clone)]
pub struct PlayerInfoEntry {
    pub uuid: Uuid,
    pub name: Option<String>,
    pub has_chat_session: Option<bool>,
    pub gamemode: Option<i32>,
    pub listed: Option<bool>,
    pub latency: Option<i32>,
    pub has_display_name: Option<bool>,
}

/// Whether action bit `flag` is set.
pub open spec fn has_action(actions: u8, flag: u8) -> bool {
    actions & flag != 0
}

/// The value of an optional field, or its default.
pub open spec fn or_default<T>(o: Option<T>, d: T) -> T {
    match o {
        Some(v) => v,
        None => d,
    }
}

/// The name part of a row: the name and an empty property list.
pub open spec fn add_player_wire(actions: u8, e: PlayerInfoEntry) -> Seq<u8> {
    if has_action(actions, 1) {
        match e.name {
            Some(n) => string_wire(n@) + var_int_wire(0),
            None => Seq::empty(),
        }
    } else {
        Seq::empty()
    }
}

/// The chat-session part of a row.
pub open spec fn chat_wire(actions: u8, e: PlayerInfoEntry) -> Seq<u8> {
    if has_action(actions, 2) {
        bool_wire(or_default(e.has_chat_session, false))
    } else {
        Seq::empty()
    }
}

/// The game-mode part of a row.
pub open spec fn gamemode_wire(actions: u8, e: PlayerInfoEntry) -> Seq<u8> {
    if has_action(actions, 4) {
        var_int_wire(or_default(e.gamemode, 0i32))
    } else {
        Seq::empty()
    }
}

/// The listed part of a row.
pub open spec fn listed_wire(actions: u8, e: PlayerInfoEntry) -> Seq<u8> {
    if has_action(actions, 8) {
        bool_wire(or_default(e.listed, false))
    } else {
        Seq::empty()
    }
}

/// The latency part of a row.
pub open spec fn latency_wire(actions: u8, e: PlayerInfoEntry) -> Seq<u8> {
    if has_action(actions, 16) {
        var_int_wire(or_default(e.latency, -1i32))
    } else {
        Seq::empty()
    }
}

/// The display-name part of a row.
pub open spec fn display_name_wire(actions: u8, e: PlayerInfoEntry) -> Seq<u8> {
    if has_action(actions, 32) {
        bool_wire(or_default(e.has_display_name, false))
    } else {
        Seq::empty()
    }
}

/// The bytes of a player's row under `actions`.
pub open spec fn info_entry_wire(actions: u8, e: PlayerInfoEntry) -> Seq<u8> {
    uuid_bytes(e.uuid) + add_player_wire(actions, e) + chat_wire(actions, e) + gamemode_wire(
        actions,
        e,
    ) + listed_wire(actions, e) + latency_wire(actions, e) + display_name_wire(actions, e)
}

/// Where a row carries the listed flag, its byte, after the UUID and the
/// name, chat and game-mode parts, is 1 exactly when the player is listed
/// (shown in the tab list), and 0 when unlisted or left unset.
pub proof fn lemma_listed_byte(actions: u8, e: PlayerInfoEntry)
    requires
        has_action(actions, 8),
    ensures
        ({
            let k = (16 + add_player_wire(actions, e).len() + chat_wire(actions, e).len()
                + gamemode_wire(actions, e).len()) as int;
            &&& k < info_entry_wire(actions, e).len()
            &&& info_entry_wire(actions, e)[k] == (if e.listed == Some(true) {
                1u8
            } else {
                0u8
            })
        }),
{
    let u = uuid_bytes(e.uuid);
    assert(u.len() == 16);
    let before = u + add_player_wire(actions, e) + chat_wire(actions, e) + gamemode_wire(actions, e);
    let after = latency_wire(actions, e) + display_name_wire(actions, e);
    lemma_info_entry_parts(actions, e, Seq::empty());
    assert(info_entry_wire(actions, e) =~= before + listed_wire(actions, e) + after);
    assert((before + listed_wire(actions, e) + after)[before.len() as int] == listed_wire(actions, e)[0]);
}

/// A row can be written: adding a player needs its name.
pub open spec fn info_entry_ok(actions: u8, e: PlayerInfoEntry) -> bool {
    has_action(actions, 1) ==> e.name is Some
}

/// `info_entry_wire` under `actions` as a function value.
pub open spec fn info_entry_fn(actions: u8) -> spec_fn(PlayerInfoEntry) -> Seq<u8> {
    |e: PlayerInfoEntry| info_entry_wire(actions, e)
}

proof fn lemma_info_entry_parts(actions: u8, e: PlayerInfoEntry, w: Seq<u8>)
    ensures
        w + info_entry_wire(actions, e) == w + uuid_bytes(e.uuid) + add_player_wire(actions, e)
            + chat_wire(actions, e) + gamemode_wire(actions, e) + listed_wire(actions, e)
            + latency_wire(actions, e) + display_name_wire(actions, e),
{
    let u = uuid_bytes(e.uuid);
    let p1 = add_player_wire(actions, e);
    let p2 = chat_wire(actions, e);
    let p3 = gamemode_wire(actions, e);
    let p4 = listed_wire(actions, e);
    let p5 = latency_wire(actions, e);
    let p6 = display_name_wire(actions, e);
    lemma_assoc(w, u + p1 + p2 + p3 + p4 + p5, p6);
    lemma_assoc(w, u + p1 + p2 + p3 + p4, p5);
    lemma_assoc(w, u + p1 + p2 + p3, p4);
    lemma_assoc(w, u + p1 + p2, p3);
    lemma_assoc(w, u + p1, p2);
    lemma_assoc(w, u, p1);
}

#[verifier::rlimit(40)]
fn info_entry_to(buf: &mut ByteWriter, actions: u8, e: &PlayerInfoEntry, Ghost(t): Ghost<Seq<u8>>, Ghost(ok): Ghost<bool>) -> (r: Result<(), PacketSerError>)
    requires
        prefix_of(old(buf)@ + info_entry_wire(actions, *e), t),
        ok ==> info_entry_ok(actions, *e),
    ensures
        final(buf).capacity() == old(buf).capacity(),
        r is Ok ==> final(buf)@ == old(buf)@ + info_entry_wire(actions, *e) && info_entry_wire(
            actions,
            *e,
        ).len() <= old(buf).room() && info_entry_ok(actions, *e),
        r is Err ==> stopped(*old(buf), *final(buf), t, ok),
{
    let ghost w0 = *buf;
    let ghost q0 = w0@ + uuid_bytes(e.uuid);
    let ghost q1 = q0 + add_player_wire(actions, *e);
    let ghost q2 = q1 + chat_wire(actions, *e);
    let ghost q3 = q2 + gamemode_wire(actions, *e);
    let ghost q4 = q3 + listed_wire(actions, *e);
    let ghost q5 = q4 + latency_wire(actions, *e);
    let ghost q6 = q5 + display_name_wire(actions, *e);
    proof {
        lemma_info_entry_parts(actions, *e, w0@);
        lemma_prefix_of_add(q5, display_name_wire(actions, *e));
        lemma_prefix_trans(q5, q6, t);
        lemma_prefix_of_add(q4, latency_wire(actions, *e));
        lemma_prefix_trans(q4, q5, t);
        lemma_prefix_of_add(q3, listed_wire(actions, *e));
        lemma_prefix_trans(q3, q4, t);
        lemma_prefix_of_add(q2, gamemode_wire(actions, *e));
        lemma_prefix_trans(q2, q3, t);
        lemma_prefix_of_add(q1, chat_wire(actions, *e));
        lemma_prefix_trans(q1, q2, t);
        lemma_prefix_of_add(q0, add_player_wire(actions, *e));
        lemma_prefix_trans(q0, q1, t);
    }
    uuid_to(buf, e.uuid, Ghost(t), Ghost(ok))?;
    if actions & PlayerInfoActions::ADD_PLAYER != 0 {
        match &e.name {
            Some(name) => {
                proof {
                    lemma_prefix_of_add(q0 + string_wire(name@), var_int_wire(0));
                    assert(q0 + string_wire(name@) + var_int_wire(0) =~= q1);
                    lemma_prefix_trans(q0 + string_wire(name@), q1, t);
                }
                string_to(buf, name.as_str(), Ghost(t), Ghost(ok))?;
                var_int_to(buf, 0, Ghost(t), Ghost(ok))?;
                proof {
                    assert(buf@ =~= q1);
                }
            },
            None => {
                return Err(PacketSerError::InvalidValue);
            },
        }
    } else {
        proof {
            assert(buf@ =~= q1);
        }
    }
    if actions & PlayerInfoActions::INITIALIZE_CHAT != 0 {
        let v = match e.has_chat_session {
            Some(b) => b,
            None => false,
        };
        bool_to(buf, v, Ghost(t), Ghost(ok))?;
    } else {
        proof {
            assert(buf@ =~= q2);
        }
    }
    if actions & PlayerInfoActions::UPDATE_GAMEMODE != 0 {
        let gm = match e.gamemode {
            Some(g) => g,
            None => 0,
        };
        var_int_to(buf, gm, Ghost(t), Ghost(ok))?;
    } else {
        proof {
            assert(buf@ =~= q3);
        }
    }
    if actions & PlayerInfoActions::UPDATE_LISTED != 0 {
        let v = match e.listed {
            Some(b) => b,
            None => false,
        };
        bool_to(buf, v, Ghost(t), Ghost(ok))?;
    } else {
        proof {
            assert(buf@ =~= q4);
        }
    }
    if actions & PlayerInfoActions::UPDATE_LATENCY != 0 {
        let v = match e.latency {
            Some(l) => l,
            None => -1,
        };
        var_int_to(buf, v, Ghost(t), Ghost(ok))?;
    } else {
        proof {
            assert(buf@ =~= q5);
        }
    }
    if actions & PlayerInfoActions::UPDATE_DISPLAY_NAME != 0 {
        let v = match e.has_display_name {
            Some(b) => b,
            None => false,
        };
        bool_to(buf, v, Ghost(t), Ghost(ok))?;
    } else {
        proof {
            assert(buf@ =~= q6);
        }
    }
    Ok(())
}

/// Player-list rows under one set of actions.
#[derive(Debug, Clone)]
pub struct PlayerInfoUpdate {
    pub actions: PlayerInfoActions,
    pub entries: Vec<PlayerInfoEntry>,
}

impl PacketEncode for PlayerInfoUpdate {
    const ID: i32 = 0x44;

    open spec fn wire(&self) -> Seq<u8> {
        var_int_wire(self.actions.0 as i32) + var_int_wire(self.entries@.len() as i32)
            + concat_wire(self.entries@, info_entry_fn(self.actions.0))
    }

    open spec fn wire_ok(&self) -> bool {
        forall|i: int|
            0 <= i < self.entries@.len() ==> #[trigger] info_entry_ok(
                self.actions.0,
                self.entries@[i],
            )
    }

    fn encode(&self, buf: &mut ByteWriter) -> (r: Result<(), PacketSerError>) {
        let ghost w0 = *buf;
        let ghost t = buf@ + self.wire();
        let ghost ok = self.wire_ok();
        let ghost f = info_entry_fn(self.actions.0);
        let ghost items = self.entries@;
        let ghost a = var_int_wire(self.actions.0 as i32);
        let ghost b = var_int_wire(items.len() as i32);
        proof {
            lemma_next(buf@, a, b + concat_wire(items, f), t);
        }
        var_int_to(buf, self.actions.0 as i32, Ghost(t), Ghost(ok))?;
        proof {
            lemma_next(buf@, b, concat_wire(items, f), t);
        }
        var_int_to(buf, self.entries.len() as i32, Ghost(t), Ghost(ok))?;
        let ghost base = buf@;
        proof {
            lemma_next(buf@, concat_wire(items, f), Seq::empty(), t);
            lemma_concat_wire_empty(items, f);
            assert(base + concat_wire(items.take(0), f) =~= base);
        }
        let mut i: usize = 0;
        while i < self.entries.len()
            invariant
                i <= items.len(),
                items == self.entries@,
                f == info_entry_fn(self.actions.0),
                w0 == *old(buf),
                t == w0@ + self.wire(),
                ok == self.wire_ok(),
                prefix_of(base + concat_wire(items, f), t),
                base == w0@ + (a + b),
                buf@ == base + concat_wire(items.take(i as int), f),
                buf.capacity() == w0.capacity(),
                buf@.len() - w0@.len() <= w0.room(),
                forall|j: int| 0 <= j < i ==> #[trigger] info_entry_ok(self.actions.0, items[j]),
            decreases items.len() - i,
        {
            proof {
                lemma_list_next(base, items, f, i as int, t);
                lemma_concat_wire_step(items, f, i as int);
            }
            info_entry_to(buf, self.actions.0, &self.entries[i], Ghost(t), Ghost(ok))?;
            proof {
                assert(buf@ =~= base + concat_wire(items.take(i + 1), f));
            }
            i = i + 1;
        }
        proof {
            lemma_concat_wire_empty(items, f);
            lemma_arrived(w0, *buf, self.wire(), ok);
        }
        Ok(())
    }
}

/// The bytes of a UUID list item.
pub open spec fn uuid_item_fn() -> spec_fn(Uuid) -> Seq<u8> {
    |u: Uuid| uuid_bytes(u)
}

/// Removes players from the list.
#[derive(Debug, Clone)]
pub struct PlayerInfoRemove {
    pub uuids: Vec<Uuid>,
}

impl PacketEncode for PlayerInfoRemove {
    const ID: i32 = 0x43;

    open spec fn wire(&self) -> Seq<u8> {
        var_int_wire(self.uuids@.len() as i32) + concat_wire(self.uuids@, uuid_item_fn())
    }

    open spec fn wire_ok(&self) -> bool {
        true
    }

    fn encode(&self, buf: &mut ByteWriter) -> (r: Result<(), PacketSerError>) {
        let ghost w0 = *buf;
        let ghost t = buf@ + self.wire();
        let ghost f = uuid_item_fn();
        let ghost items = self.uuids@;
        proof {
            lemma_next(buf@, var_int_wire(items.len() as i32), concat_wire(items, f), t);
        }
        var_int_to(buf, self.uuids.len() as i32, Ghost(t), Ghost(true))?;
        let ghost base = buf@;
        proof {
            lemma_next(buf@, concat_wire(items, f), Seq::empty(), t);
            lemma_concat_wire_empty(items, f);
            assert(base + concat_wire(items.take(0), f) =~= base);
        }
        let mut i: usize = 0;
        while i < self.uuids.len()
            invariant
                i <= items.len(),
                items == self.uuids@,
                f == uuid_item_fn(),
                w0 == *old(buf),
                t == w0@ + self.wire(),
                prefix_of(base + concat_wire(items, f), t),
                base == w0@ + var_int_wire(items.len() as i32),
                buf@ == base + concat_wire(items.take(i as int), f),
                buf.capacity() == w0.capacity(),
                buf@.len() - w0@.len() <= w0.room(),
            decreases items.len() - i,
        {
            proof {
                lemma_list_next(base, items, f, i as int, t);
                lemma_concat_wire_step(items, f, i as int);
            }
            uuid_to(buf, self.uuids[i], Ghost(t), Ghost(true))?;
            proof {
                assert(buf@ =~= base + concat_wire(items.take(i + 1), f));
            }
            i = i + 1;
        }
        proof {
            lemma_concat_wire_empty(items, f);
            lemma_arrived(w0, *buf, self.wire(), true);
        }
        Ok(())
    }
}

/// The ids of the play packets this module resolves, read off the report.
pub proof fn lemma_play_ids()
    ensures
        clientbound_spec("play"@, ids::play::PLAYER_INFO_UPDATE@) == Some(68i32),
        clientbound_spec("play"@, ids::play::PLAYER_INFO_REMOVE@) == Some(67i32),
        clientbound_spec("play"@, ids::play::LOGIN@) == Some(48i32),
        clientbound_spec("play"@, ids::play::KEEP_ALIVE@) == Some(43i32),
        clientbound_spec("play"@, ids::play::DISCONNECT@) == Some(32i32),
        serverbound_spec("play"@, ids::play::KEEP_ALIVE_SB@) == Some(27i32),
{
    reveal_strlit("play");
    reveal_strlit("handshake");
    reveal_strlit("status");
    reveal_strlit("login");
    reveal_strlit("configuration");
    assert("play"@.len() == 4);
    assert("handshake"@.len() == 9);
    assert("status"@.len() == 6);
    assert("login"@.len() == 5);
    assert("configuration"@.len() == 13);
    let r = packet_report();
    assert(find(r, "play"@) == find(r.drop_first(), "play"@));
    assert(find(r.drop_first(), "play"@) == find(r.drop_first().drop_first(), "play"@));
    assert(find(r.drop_first().drop_first(), "play"@) == find(
        r.drop_first().drop_first().drop_first(),
        "play"@,
    ));
    assert(find(r.drop_first().drop_first().drop_first(), "play"@) == find(
        r.drop_first().drop_first().drop_first().drop_first(),
        "play"@,
    ));
    let play = r[4].1;
    assert(find(r, "play"@) == Some(play));
    reveal_strlit("minecraft:disconnect");
    reveal_strlit("minecraft:keep_alive");
    reveal_strlit("minecraft:login");
    reveal_strlit("minecraft:player_info_remove");
    reveal_strlit("minecraft:player_info_update");
    let d = "minecraft:disconnect"@;
    let k = "minecraft:keep_alive"@;
    let l = "minecraft:login"@;
    let pr = "minecraft:player_info_remove"@;
    let pu = "minecraft:player_info_update"@;
    assert(d.len() == 20 && k.len() == 20 && l.len() == 15 && pr.len() == 28 && pu.len() == 28);
    assert(d[10] == 'd' && k[10] == 'k');
    assert(pr[22] == 'r' && pu[22] == 'u');
    let cb = play.0;
    assert(cb[0].0 == d && cb[1].0 == k && cb[2].0 == l && cb[3].0 == pr && cb[4].0 == pu);
    assert(find(cb, d) == Some(32i32));
    assert(find(cb, k) == find(cb.drop_first(), k));
    assert(find(cb.drop_first(), k) == Some(43i32));
    assert(find(cb, l) == find(cb.drop_first(), l));
    assert(find(cb.drop_first(), l) == find(cb.drop_first().drop_first(), l));
    assert(find(cb.drop_first().drop_first(), l) == Some(48i32));
    assert(find(cb, pr) == find(cb.drop_first(), pr));
    assert(find(cb.drop_first(), pr) == find(cb.drop_first().drop_first(), pr));
    assert(find(cb.drop_first().drop_first(), pr) == find(
        cb.drop_first().drop_first().drop_first(),
        pr,
    ));
    assert(find(cb.drop_first().drop_first().drop_first(), pr) == Some(67i32));
    assert(find(cb, pu) == find(cb.drop_first(), pu));
    assert(find(cb.drop_first(), pu) == find(cb.drop_first().drop_first(), pu));
    assert(find(cb.drop_first().drop_first(), pu) == find(
        cb.drop_first().drop_first().drop_first(),
        pu,
    ));
    assert(find(cb.drop_first().drop_first().drop_first(), pu) == find(
        cb.drop_first().drop_first().drop_first().drop_first(),
        pu,
    ));
    assert(find(cb.drop_first().drop_first().drop_first().drop_first(), pu) == Some(68i32));
    let sb = play.1;
    assert(sb[0].0 == k);
    assert(find(sb, k) == Some(27i32));
}

/// The id of `LoginPlay`, from the report.
pub fn login_id() -> (id: i32)
    ensures
        id == 48,
{
    proof {
        lemma_play_ids();
    }
    ids::clientbound("play", ids::play::LOGIN)
}

/// The id of the clientbound `KeepAlive`, from the report.
pub fn keep_alive_id() -> (id: i32)
    ensures
        id == 43,
{
    proof {
        lemma_play_ids();
    }
    ids::clientbound("play", ids::play::KEEP_ALIVE)
}

/// The id of the play `Disconnect`, from the report.
pub fn disconnect_id() -> (id: i32)
    ensures
        id == 32,
{
    proof {
        lemma_play_ids();
    }
    ids::clientbound("play", ids::play::DISCONNECT)
}

/// The id of the serverbound `KeepAliveAck`, from the report.
pub fn keep_alive_ack_id() -> (id: i32)
    ensures
        id == 27,
{
    proof {
        lemma_play_ids();
    }
    ids::serverbound("play", ids::play::KEEP_ALIVE_SB)
}

/// The id of `PlayerInfoUpdate`, from the report.
pub fn player_info_update_id() -> (id: i32)
    ensures
        id == 68,
{
    proof {
        lemma_play_ids();
    }
    ids::clientbound("play", ids::play::PLAYER_INFO_UPDATE)
}

/// The id of `PlayerInfoRemove`, from the report.
pub fn player_info_remove_id() -> (id: i32)
    ensures
        id == 67,
{
    proof {
        lemma_play_ids();
    }
    ids::clientbound("play", ids::play::PLAYER_INFO_REMOVE)
}

/// The registry payload `stub_overworld_registry` builds: a
/// `minecraft:dimension_type` registry with the overworld as its only entry.
pub open spec fn overworld_element() -> Seq<(Seq<char>, NbtData)> {
    seq![
        ("has_skylight"@, NbtData::Byte(1)),
        ("has_ceiling"@, NbtData::Byte(0)),
        ("ultrawarm"@, NbtData::Byte(0)),
        ("natural"@, NbtData::Byte(1)),
        ("coordinate_scale"@, NbtData::Float(0x3F80_0000)),
        ("has_raids"@, NbtData::Byte(1)),
        ("respawn_anchor_works"@, NbtData::Byte(0)),
        ("bed_works"@, NbtData::Byte(1)),
        ("effects"@, NbtData::String("minecraft:overworld"@)),
        ("min_y"@, NbtData::Int(-64i32)),
        ("height"@, NbtData::Int(384)),
        ("logical_height"@, NbtData::Int(384)),
        ("infiniburn"@, NbtData::String("#minecraft:infiniburn_overworld"@)),
        ("piglin_safe"@, NbtData::Byte(0)),
    ]
}

/// The root compound of the stub registry payload.
pub open spec fn overworld_registry() -> Seq<(Seq<char>, NbtData)> {
    seq![
        (
            "minecraft:dimension_type"@,
            NbtData::Compound(
                seq![
                    ("type"@, NbtData::String("minecraft:dimension_type"@)),
                    (
                        "value"@,
                        NbtData::List(
                            NbtTag::Compound,
                            seq![
                                NbtData::Compound(
                                    seq![
                                        ("id"@, NbtData::Int(0)),
                                        ("name"@, NbtData::String("minecraft:overworld"@)),
                                        ("element"@, NbtData::Compound(overworld_element())),
                                    ],
                                ),
                            ],
                        ),
                    ),
                ],
            ),
        ),
    ]
}

fn named(name: &str, value: NbtValue) -> (e: (String, NbtValue))
    ensures
        e.0@ == name@,
        e.1 == value,
{
    (name.to_owned(), value)
}

fn compound_of(entries: Vec<(String, NbtValue)>) -> (c: NbtCompound)
    ensures
        c@ == crate::nbt::entries_data(entries@),
{
    NbtCompound { entries }
}

/// The registry payload `LoginPlay` carries until real registries are
/// wired: a `minecraft:dimension_type` registry whose one entry is the
/// overworld, under an empty root name.
pub fn stub_overworld_registry() -> (n: Nbt)
    ensures
        n.name@ == Seq::<char>::empty(),
        n.root@ == overworld_registry(),
{
    let mut element: Vec<(String, NbtValue)> = Vec::new();
    element.push(named("has_skylight", NbtValue::Byte(1)));
    element.push(named("has_ceiling", NbtValue::Byte(0)));
    element.push(named("ultrawarm", NbtValue::Byte(0)));
    element.push(named("natural", NbtValue::Byte(1)));
    element.push(named("coordinate_scale", NbtValue::Float(0x3F80_0000)));
    element.push(named("has_raids", NbtValue::Byte(1)));
    element.push(named("respawn_anchor_works", NbtValue::Byte(0)));
    element.push(named("bed_works", NbtValue::Byte(1)));
    element.push(named("effects", NbtValue::String("minecraft:overworld".to_owned())));
    element.push(named("min_y", NbtValue::Int(-64)));
    element.push(named("height", NbtValue::Int(384)));
    element.push(named("logical_height", NbtValue::Int(384)));
    element.push(
        named("infiniburn", NbtValue::String("#minecraft:infiniburn_overworld".to_owned())),
    );
    element.push(named("piglin_safe", NbtValue::Byte(0)));
    proof {
        crate::nbt::lemma_entries_data_len(element@);
        assert(crate::nbt::entries_data(element@) =~= overworld_element());
    }
    let element = compound_of(element);

    let mut entry: Vec<(String, NbtValue)> = Vec::new();
    entry.push(named("id", NbtValue::Int(0)));
    entry.push(named("name", NbtValue::String("minecraft:overworld".to_owned())));
    entry.push(named("element", NbtValue::Compound(element)));
    let ghost entry_data = seq![
        ("id"@, NbtData::Int(0)),
        ("name"@, NbtData::String("minecraft:overworld"@)),
        ("element"@, NbtData::Compound(overworld_element())),
    ];
    proof {
        crate::nbt::lemma_entries_data_len(entry@);
        assert(crate::nbt::entries_data(entry@) =~= entry_data);
    }
    let entry = compound_of(entry);

    let mut list = NbtList::new(NbtTag::Compound);
    list.push(NbtValue::Compound(entry));
    assert(list@.1 =~= seq![NbtData::Compound(entry_data)]);

    let mut dim_type: Vec<(String, NbtValue)> = Vec::new();
    dim_type.push(named("type", NbtValue::String("minecraft:dimension_type".to_owned())));
    dim_type.push(named("value", NbtValue::List(list)));
    let ghost dim_data = seq![
        ("type"@, NbtData::String("minecraft:dimension_type"@)),
        ("value"@, NbtData::List(NbtTag::Compound, seq![NbtData::Compound(entry_data)])),
    ];
    proof {
        crate::nbt::lemma_entries_data_len(dim_type@);
        assert(crate::nbt::entries_data(dim_type@) =~= dim_data);
    }
    let dim_type = compound_of(dim_type);

    let mut root: Vec<(String, NbtValue)> = Vec::new();
    root.push(named("minecraft:dimension_type", NbtValue::Compound(dim_type)));
    proof {
        crate::nbt::lemma_entries_data_len(root@);
        assert(crate::nbt::entries_data(root@) =~= overworld_registry());
    }
    let root = compound_of(root);
    let name = "";
    proof {
        reveal_strlit("");
        assert(name@ =~= Seq::<char>::empty());
    }
    Nbt::new(name.to_owned(), root)
}

/// The eight bytes written for a payload read back as that payload,
/// whatever follows them.
proof fn lemma_payload_roundtrip(payload: i64, rest: Seq<u8>)
    ensures
        be_u64(u64_be(payload as u64) + rest) as i64 == payload,
        (u64_be(payload as u64) + rest).len() >= 8,
{
    let w = u64_be(payload as u64);
    lemma_be_u64_roundtrip(payload as u64);
    let s = w + rest;
    assert(s[0] == w[0] && s[1] == w[1] && s[2] == w[2] && s[3] == w[3]);
    assert(s[4] == w[4] && s[5] == w[5] && s[6] == w[6] && s[7] == w[7]);
    assert(be_u64(s) == be_u64(w));
    assert(((payload as u64) as i64) == payload) by (bit_vector);
}

/// A keep-alive reads back as the one written; the eight bytes it takes
/// leave whatever follows for the next read.
pub proof fn lemma_keep_alive_roundtrip(k: KeepAlive, rest: Seq<u8>)
    ensures
        <KeepAlive as PacketDecode>::parse(k.wire() + rest) == Ok::<(KeepAlive, nat), PacketSerError>(
            (k, 8),
        ),
{
    lemma_payload_roundtrip(k.payload, rest);
}

/// A keep-alive acknowledgement reads back as the one written; the eight
/// bytes it takes leave whatever follows for the next read.
pub proof fn lemma_keep_alive_ack_roundtrip(k: KeepAliveAck, rest: Seq<u8>)
    ensures
        <KeepAliveAck as PacketDecode>::parse(k.wire() + rest) == Ok::<(KeepAliveAck, nat), PacketSerError>(
            (k, 8),
        ),
{
    lemma_payload_roundtrip(k.payload, rest);
}

} // verus!
