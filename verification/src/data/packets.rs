//! Protocol packet ids by phase and direction, as the vanilla data
//! generator reports them: lookups over any report, and the table of the
//! packets this server speaks, which its protocol code takes ids from.
use vstd::prelude::*;
use crate::strings::str_eq;

verus! {

/// One packet's id.
#[derive(Debug, Clone, Copy, PartialEq, Eq, Structural)]
pub struct PacketEntry {
    pub protocol_id: i32,
}

/// The packets of one phase, by resource location.
#[derive(Debug, Clone)]
pub struct Phase {
    pub clientbound: Vec<(String, PacketEntry)>,
    pub serverbound: Vec<(String, PacketEntry)>,
}

/// The phases, by name.
#[derive(Debug, Clone)]
pub struct PacketReport {
    pub phases: Vec<(String, Phase)>,
}

/// Names and ids of some packet entries.
pub open spec fn entries_view(v: Seq<(String, PacketEntry)>) -> Seq<(Seq<char>, i32)> {
    Seq::new(v.len(), |i: int| (v[i].0@, v[i].1.protocol_id))
}

impl View for Phase {
    type V = (Seq<(Seq<char>, i32)>, Seq<(Seq<char>, i32)>);

    open spec fn view(&self) -> (Seq<(Seq<char>, i32)>, Seq<(Seq<char>, i32)>) {
        (entries_view(self.clientbound@), entries_view(self.serverbound@))
    }
}

impl View for PacketReport {
    type V = Seq<(Seq<char>, (Seq<(Seq<char>, i32)>, Seq<(Seq<char>, i32)>))>;

    open spec fn view(&self) -> Seq<(Seq<char>, (Seq<(Seq<char>, i32)>, Seq<(Seq<char>, i32)>))> {
        Seq::new(self.phases@.len(), |i: int| (self.phases@[i].0@, self.phases@[i].1@))
    }
}

/// The value stored under the first occurrence of `key`.
pub open spec fn find<V>(s: Seq<(Seq<char>, V)>, key: Seq<char>) -> Option<V>
    decreases s.len(),
{
    if s.len() == 0 {
        None
    } else if s[0].0 == key {
        Some(s[0].1)
    } else {
        find(s.drop_first(), key)
    }
}

/// The report: for each phase, the clientbound and serverbound packets
/// with their ids.
pub open spec fn packet_report() -> Seq<(Seq<char>, (Seq<(Seq<char>, i32)>, Seq<(Seq<char>, i32)>))> {
    seq![
        ("handshake"@, (seq![], seq![("minecraft:intention"@, 0i32)])),
        (
            "status"@,
            (
                seq![("minecraft:status_response"@, 0i32), ("minecraft:pong_response"@, 1i32)],
                seq![("minecraft:status_request"@, 0i32), ("minecraft:ping_request"@, 1i32)],
            ),
        ),
        (
            "login"@,
            (
                seq![
                    ("minecraft:login_disconnect"@, 0i32),
                    ("minecraft:hello"@, 1i32),
                    ("minecraft:login_finished"@, 2i32),
                    ("minecraft:login_compression"@, 3i32),
                    ("minecraft:custom_query"@, 4i32),
                    ("minecraft:cookie_request"@, 5i32),
                ],
                seq![
                    ("minecraft:hello"@, 0i32),
                    ("minecraft:key"@, 1i32),
                    ("minecraft:custom_query_answer"@, 2i32),
                    ("minecraft:login_acknowledged"@, 3i32),
                    ("minecraft:cookie_response"@, 4i32),
                ],
            ),
        ),
        (
            "configuration"@,
            (
                seq![
                    ("minecraft:cookie_request"@, 0i32),
                    ("minecraft:custom_payload"@, 1i32),
                    ("minecraft:disconnect"@, 2i32),
                    ("minecraft:finish_configuration"@, 3i32),
                    ("minecraft:keep_alive"@, 4i32),
                    ("minecraft:ping"@, 5i32),
                    ("minecraft:reset_chat"@, 6i32),
                    ("minecraft:registry_data"@, 7i32),
                    ("minecraft:resource_pack_pop"@, 8i32),
                    ("minecraft:resource_pack_push"@, 9i32),
                    ("minecraft:store_cookie"@, 10i32),
                    ("minecraft:transfer"@, 11i32),
                    ("minecraft:update_enabled_features"@, 12i32),
                    ("minecraft:update_tags"@, 13i32),
                    ("minecraft:select_known_packs"@, 14i32),
                    ("minecraft:custom_report_details"@, 15i32),
                    ("minecraft:server_links"@, 16i32),
                    ("minecraft:clear_dialog"@, 17i32),
                    ("minecraft:show_dialog"@, 18i32),
                    ("minecraft:code_of_conduct"@, 19i32),
                ],
                seq![
                    ("minecraft:client_information"@, 0i32),
                    ("minecraft:cookie_response"@, 1i32),
                    ("minecraft:custom_payload"@, 2i32),
                    ("minecraft:finish_configuration"@, 3i32),
                    ("minecraft:keep_alive"@, 4i32),
                    ("minecraft:pong"@, 5i32),
                    ("minecraft:resource_pack"@, 6i32),
                    ("minecraft:select_known_packs"@, 7i32),
                    ("minecraft:custom_click_action"@, 8i32),
                    ("minecraft:accept_code_of_conduct"@, 9i32),
                ],
            ),
        ),
        (
            "play"@,
            (
                seq![
                    ("minecraft:disconnect"@, 32i32),
                    ("minecraft:keep_alive"@, 43i32),
                    ("minecraft:login"@, 48i32),
                    ("minecraft:player_info_remove"@, 67i32),
                    ("minecraft:player_info_update"@, 68i32),
                ],
                seq![
                    ("minecraft:keep_alive"@, 27i32),
                    ("minecraft:move_player_pos"@, 29i32),
                    ("minecraft:move_player_pos_rot"@, 30i32),
                    ("minecraft:move_player_rot"@, 31i32),
                    ("minecraft:move_player_status_only"@, 32i32),
                ],
            ),
        ),
    ]
}

/// The clientbound id of `packet` in `phase`, if the report `r` has it.
pub open spec fn report_clientbound(
    r: Seq<(Seq<char>, (Seq<(Seq<char>, i32)>, Seq<(Seq<char>, i32)>))>,
    phase: Seq<char>,
    packet: Seq<char>,
) -> Option<i32> {
    match find(r, phase) {
        Some(p) => find(p.0, packet),
        None => None,
    }
}

/// The serverbound id of `packet` in `phase`, if the report `r` has it.
pub open spec fn report_serverbound(
    r: Seq<(Seq<char>, (Seq<(Seq<char>, i32)>, Seq<(Seq<char>, i32)>))>,
    phase: Seq<char>,
    packet: Seq<char>,
) -> Option<i32> {
    match find(r, phase) {
        Some(p) => find(p.1, packet),
        None => None,
    }
}

/// The clientbound id of `packet` in `phase`, if this server's table has it.
pub open spec fn clientbound_spec(phase: Seq<char>, packet: Seq<char>) -> Option<i32> {
    report_clientbound(packet_report(), phase, packet)
}

/// The serverbound id of `packet` in `phase`, if this server's table has it.
pub open spec fn serverbound_spec(phase: Seq<char>, packet: Seq<char>) -> Option<i32> {
    report_serverbound(packet_report(), phase, packet)
}

fn entry(name: &str, id: i32) -> (e: (String, PacketEntry))
    ensures
        e.0@ == name@,
        e.1.protocol_id == id,
{
    (name.to_owned(), PacketEntry { protocol_id: id })
}

/// The table of the packets this server speaks, with their ids in the
/// report of the game version it serves.
pub fn packets() -> (r: PacketReport)
    ensures
        r@ == packet_report(),
{
    let mut phases: Vec<(String, Phase)> = Vec::new();

    let cb: Vec<(String, PacketEntry)> = Vec::new();
    let mut sb: Vec<(String, PacketEntry)> = Vec::new();
    sb.push(entry("minecraft:intention", 0));
    let handshake = Phase { clientbound: cb, serverbound: sb };
    assert(handshake@ =~= (seq![], seq![("minecraft:intention"@, 0i32)]));
    phases.push(("handshake".to_owned(), handshake));

    let mut cb: Vec<(String, PacketEntry)> = Vec::new();
    cb.push(entry("minecraft:status_response", 0));
    cb.push(entry("minecraft:pong_response", 1));
    let mut sb: Vec<(String, PacketEntry)> = Vec::new();
    sb.push(entry("minecraft:status_request", 0));
    sb.push(entry("minecraft:ping_request", 1));
    let status = Phase { clientbound: cb, serverbound: sb };
    assert(status@.0 =~= packet_report()[1].1.0);
    assert(status@.1 =~= packet_report()[1].1.1);
    phases.push(("status".to_owned(), status));

    let mut cb: Vec<(String, PacketEntry)> = Vec::new();
    cb.push(entry("minecraft:login_disconnect", 0));
    cb.push(entry("minecraft:hello", 1));
    cb.push(entry("minecraft:login_finished", 2));
    cb.push(entry("minecraft:login_compression", 3));
    cb.push(entry("minecraft:custom_query", 4));
    cb.push(entry("minecraft:cookie_request", 5));
    let mut sb: Vec<(String, PacketEntry)> = Vec::new();
    sb.push(entry("minecraft:hello", 0));
    sb.push(entry("minecraft:key", 1));
    sb.push(entry("minecraft:custom_query_answer", 2));
    sb.push(entry("minecraft:login_acknowledged", 3));
    sb.push(entry("minecraft:cookie_response", 4));
    let login = Phase { clientbound: cb, serverbound: sb };
    assert(login@.0 =~= packet_report()[2].1.0);
    assert(login@.1 =~= packet_report()[2].1.1);
    phases.push(("login".to_owned(), login));

    let mut cb: Vec<(String, PacketEntry)> = Vec::new();
    cb.push(entry("minecraft:cookie_request", 0));
    cb.push(entry("minecraft:custom_payload", 1));
    cb.push(entry("minecraft:disconnect", 2));
    cb.push(entry("minecraft:finish_configuration", 3));
    cb.push(entry("minecraft:keep_alive", 4));
    cb.push(entry("minecraft:ping", 5));
    cb.push(entry("minecraft:reset_chat", 6));
    cb.push(entry("minecraft:registry_data", 7));
    cb.push(entry("minecraft:resource_pack_pop", 8));
    cb.push(entry("minecraft:resource_pack_push", 9));
    cb.push(entry("minecraft:store_cookie", 10));
    cb.push(entry("minecraft:transfer", 11));
    cb.push(entry("minecraft:update_enabled_features", 12));
    cb.push(entry("minecraft:update_tags", 13));
    cb.push(entry("minecraft:select_known_packs", 14));
    cb.push(entry("minecraft:custom_report_details", 15));
    cb.push(entry("minecraft:server_links", 16));
    cb.push(entry("minecraft:clear_dialog", 17));
    cb.push(entry("minecraft:show_dialog", 18));
    cb.push(entry("minecraft:code_of_conduct", 19));
    let mut sb: Vec<(String, PacketEntry)> = Vec::new();
    sb.push(entry("minecraft:client_information", 0));
    sb.push(entry("minecraft:cookie_response", 1));
    sb.push(entry("minecraft:custom_payload", 2));
    sb.push(entry("minecraft:finish_configuration", 3));
    sb.push(entry("minecraft:keep_alive", 4));
    sb.push(entry("minecraft:pong", 5));
    sb.push(entry("minecraft:resource_pack", 6));
    sb.push(entry("minecraft:select_known_packs", 7));
    sb.push(entry("minecraft:custom_click_action", 8));
    sb.push(entry("minecraft:accept_code_of_conduct", 9));
    let configuration = Phase { clientbound: cb, serverbound: sb };
    assert(configuration@.0 =~= packet_report()[3].1.0);
    assert(configuration@.1 =~= packet_report()[3].1.1);
    phases.push(("configuration".to_owned(), configuration));

    let mut cb: Vec<(String, PacketEntry)> = Vec::new();
    cb.push(entry("minecraft:disconnect", 32));
    cb.push(entry("minecraft:keep_alive", 43));
    cb.push(entry("minecraft:login", 48));
    cb.push(entry("minecraft:player_info_remove", 67));
    cb.push(entry("minecraft:player_info_update", 68));
    let mut sb: Vec<(String, PacketEntry)> = Vec::new();
    sb.push(entry("minecraft:keep_alive", 27));
    sb.push(entry("minecraft:move_player_pos", 29));
    sb.push(entry("minecraft:move_player_pos_rot", 30));
    sb.push(entry("minecraft:move_player_rot", 31));
    sb.push(entry("minecraft:move_player_status_only", 32));
    let play = Phase { clientbound: cb, serverbound: sb };
    assert(play@.0 =~= packet_report()[4].1.0);
    assert(play@.1 =~= packet_report()[4].1.1);
    phases.push(("play".to_owned(), play));

    let r = PacketReport { phases };
    assert(r@ =~= packet_report());
    r
}

fn find_entry(entries: &Vec<(String, PacketEntry)>, key: &str) -> (r: Option<i32>)
    ensures
        r == find(entries_view(entries@), key@),
{
    let ghost all = entries_view(entries@);
    assert(all.skip(0) =~= all);
    let mut i: usize = 0;
    while i < entries.len()
        invariant
            i <= entries@.len(),
            all == entries_view(entries@),
            find(all, key@) == find(all.skip(i as int), key@),
        decreases entries@.len() - i,
    {
        let ghost rest = all.skip(i as int);
        assert(rest[0] == all[i as int]);
        assert(rest.drop_first() =~= all.skip(i + 1));
        if str_eq(entries[i].0.as_str(), key) {
            return Some(entries[i].1.protocol_id);
        }
        i = i + 1;
    }
    None
}

fn find_phase(report: &PacketReport, name: &str) -> (r: Option<usize>)
    ensures
        match r {
            Some(i) => i < report.phases@.len() && find(report@, name@) == Some(report@[i as int].1),
            None => find(report@, name@) is None,
        },
{
    let ghost all = report@;
    assert(all.skip(0) =~= all);
    let mut i: usize = 0;
    while i < report.phases.len()
        invariant
            i <= report.phases@.len(),
            all == report@,
            find(all, name@) == find(all.skip(i as int), name@),
        decreases report.phases@.len() - i,
    {
        let ghost rest = all.skip(i as int);
        assert(rest[0] == all[i as int]);
        assert(rest.drop_first() =~= all.skip(i + 1));
        if str_eq(report.phases[i].0.as_str(), name) {
            return Some(i);
        }
        i = i + 1;
    }
    None
}

/// The named phase (such as `"play"`) of `report`.
pub fn phase<'a>(report: &'a PacketReport, name: &str) -> (r: Option<&'a Phase>)
    ensures
        match r {
            Some(p) => find(report@, name@) == Some(p@),
            None => find(report@, name@) is None,
        },
{
    match find_phase(report, name) {
        Some(i) => Some(&report.phases[i].1),
        None => None,
    }
}

/// The clientbound id of `packet` in `phase`, if `report` has it.
pub fn clientbound_id(report: &PacketReport, phase: &str, packet: &str) -> (r: Option<i32>)
    ensures
        r == report_clientbound(report@, phase@, packet@),
{
    match find_phase(report, phase) {
        Some(i) => find_entry(&report.phases[i].1.clientbound, packet),
        None => None,
    }
}

/// The serverbound id of `packet` in `phase`, if `report` has it.
pub fn serverbound_id(report: &PacketReport, phase: &str, packet: &str) -> (r: Option<i32>)
    ensures
        r == report_serverbound(report@, phase@, packet@),
{
    match find_phase(report, phase) {
        Some(i) => find_entry(&report.phases[i].1.serverbound, packet),
        None => None,
    }
}

/// The number of packets over every phase and direction.
pub open spec fn packet_count(s: Seq<(Seq<char>, (Seq<(Seq<char>, i32)>, Seq<(Seq<char>, i32)>))>) -> nat
    decreases s.len(),
{
    if s.len() == 0 {
        0
    } else {
        packet_count(s.drop_last()) + s.last().1.0.len() + s.last().1.1.len()
    }
}

proof fn lemma_packet_count_prefix(
    s: Seq<(Seq<char>, (Seq<(Seq<char>, i32)>, Seq<(Seq<char>, i32)>))>,
    i: int,
)
    requires
        0 <= i <= s.len(),
    ensures
        packet_count(s.take(i)) <= packet_count(s),
    decreases s.len(),
{
    if i < s.len() {
        lemma_packet_count_prefix(s.drop_last(), i);
        assert(s.drop_last().take(i) =~= s.take(i));
    } else {
        assert(s.take(i) =~= s);
    }
}

/// The number of packets of `report` over every phase and direction.
pub fn count(report: &PacketReport) -> (n: usize)
    requires
        packet_count(report@) <= usize::MAX,
    ensures
        n == packet_count(report@),
{
    let mut n: usize = 0;
    let mut i: usize = 0;
    assert(report@.take(0) =~= Seq::empty());
    while i < report.phases.len()
        invariant
            i <= report.phases@.len(),
            report@.len() == report.phases@.len(),
            packet_count(report@) <= usize::MAX,
            n == packet_count(report@.take(i as int)),
        decreases report.phases@.len() - i,
    {
        let p = &report.phases[i].1;
        proof {
            assert(report@.take(i + 1).drop_last() =~= report@.take(i as int));
            assert(report@[i as int].1 == p@);
            assert(entries_view(p.clientbound@).len() == p.clientbound@.len());
            assert(entries_view(p.serverbound@).len() == p.serverbound@.len());
            lemma_packet_count_prefix(report@, i + 1);
        }
        n = n + p.clientbound.len() + p.serverbound.len();
        i = i + 1;
    }
    proof {
        assert(report@.take(i as int) =~= report@);
    }
    n
}

} // verus!
