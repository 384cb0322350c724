//! What goes over the network around a duel, kept for looking at, and the signs in it that a
//! remote player has used a braid.
//!
//! The last packets are kept at all times. When something happens in a duel they are written
//! down, and so is every packet of the next seconds.

use std::collections::VecDeque;

use vstd::prelude::*;

use crate::text::{
    decimal, digit_value, hex, numeral, padded_hex, push_decimal, push_numeral, zero_padded,
};

verus! {

/// How many packets are kept.
pub const RECENT_LIMIT: usize = 128;

/// Up to how many events packets are written down.
pub const EVENT_LIMIT: usize = 512;

/// How many bytes of a packet are kept.
pub const PAYLOAD_LIMIT: usize = 512;

/// How long packets are written down after a capture was asked for, in milliseconds.
pub const CAPTURE_AFTER: u64 = 3_000;

/// The type of the packet that tells what is worn, and its length.
pub const EQUIPMENT_PACKET_TYPE: u64 = 12;

pub const EQUIPMENT_PACKET_LEN: usize = 192;

/// The longest packet that is looked at.
pub const PACKET_LIMIT: usize = 4_096;

/// Which way a packet went.
#[derive(Clone, Copy, Debug, PartialEq, Eq, Structural)]
pub enum Source {
    Send,
    Recv,
}

/// A packet that went by.
#[derive(Debug)]
pub struct PacketEvent {
    pub source: Source,
    pub packet_type: u64,
    pub peer: u64,
    pub actual_len: usize,
    /// The first bytes.
    pub payload: Vec<u8>,
}

/// The same as plain values.
#[verifier::ext_equal]
pub struct PacketState {
    pub source: Source,
    pub packet_type: u64,
    pub peer: u64,
    pub actual_len: usize,
    pub payload: Seq<u8>,
}

impl View for PacketEvent {
    type V = PacketState;

    open spec fn view(&self) -> PacketState {
        PacketState {
            source: self.source,
            packet_type: self.packet_type,
            peer: self.peer,
            actual_len: self.actual_len,
            payload: self.payload@,
        }
    }
}

/// Something to write down.
#[derive(Debug)]
pub enum TraceEvent {
    Marker(String),
    Packet(PacketEvent),
}

/// The same as plain values.
pub enum EventState {
    Marker(Seq<char>),
    Packet(PacketState),
}

impl View for TraceEvent {
    type V = EventState;

    open spec fn view(&self) -> EventState {
        match self {
            TraceEvent::Marker(line) => EventState::Marker(line@),
            TraceEvent::Packet(packet) => EventState::Packet(packet@),
        }
    }
}

/// What is known of the network.
pub struct Trace {
    /// The last packets.
    pub recent: VecDeque<PacketEvent>,
    /// What is to be written down.
    pub events: Vec<TraceEvent>,
    /// Until when every packet is written down.
    pub capture_until: Option<u64>,
    /// The braids that remote players have used: owner, connection and length.
    pub braids: Vec<(u32, u64, usize)>,
}

/// The packets as plain values.
pub open spec fn packets(list: Seq<PacketEvent>) -> Seq<PacketState> {
    list.map_values(|packet: PacketEvent| packet@)
}

/// The events as plain values.
pub open spec fn events(list: Seq<TraceEvent>) -> Seq<EventState> {
    list.map_values(|event: TraceEvent| event@)
}

/// The same as plain values.
#[verifier::ext_equal]
pub struct TraceState {
    pub recent: Seq<PacketState>,
    pub events: Seq<EventState>,
    pub capture_until: Option<u64>,
    pub braids: Seq<(u32, u64, usize)>,
}

impl View for Trace {
    type V = TraceState;

    open spec fn view(&self) -> TraceState {
        TraceState {
            recent: packets(self.recent@),
            events: events(self.events@),
            capture_until: self.capture_until,
            braids: self.braids@,
        }
    }
}

impl Trace {
    /// Nothing is known.
    pub fn new() -> (trace: Self)
        ensures
            trace@ == (TraceState {
                recent: seq![],
                events: seq![],
                capture_until: None,
                braids: seq![],
            }),
    {
        let trace = Trace {
            recent: VecDeque::new(),
            events: Vec::new(),
            capture_until: None,
            braids: Vec::new(),
        };
        assert(trace@ =~= (TraceState {
            recent: seq![],
            events: seq![],
            capture_until: None,
            braids: seq![],
        }));
        trace
    }
}

/// A packet as it is kept.
pub open spec fn packet_of(source: Source, packet_type: u64, peer: u64, data: Seq<u8>) -> PacketState {
    PacketState {
        source,
        packet_type,
        peer,
        actual_len: data.len() as usize,
        payload: if data.len() < PAYLOAD_LIMIT {
            data
        } else {
            data.take(PAYLOAD_LIMIT as int)
        },
    }
}

/// A packet as it is kept: its length and its first bytes.
pub fn packet_event(source: Source, packet_type: u64, peer: u64, data: &[u8]) -> (packet: PacketEvent)
    ensures
        packet@ == packet_of(source, packet_type, peer, data@),
{
    let actual_len: usize = data.len();
    let kept: usize = if actual_len < PAYLOAD_LIMIT {
        actual_len
    } else {
        PAYLOAD_LIMIT
    };
    let mut payload: Vec<u8> = Vec::new();
    let mut at: usize = 0;
    while at < kept
        invariant
            at <= kept <= data@.len(),
            payload@ == data@.take(at as int),
        decreases kept - at,
    {
        payload.push(data[at]);
        at = at + 1;
        assert(payload@ =~= data@.take(at as int));
    }
    assert(payload@ =~= packet_of(source, packet_type, peer, data@).payload);
    PacketEvent { source, packet_type, peer, actual_len, payload }
}

impl PacketEvent {
    /// The same packet once more.
    pub fn copied(&self) -> (packet: PacketEvent)
        ensures
            packet@ == self@,
    {
        let mut payload: Vec<u8> = Vec::new();
        let mut at: usize = 0;
        while at < self.payload.len()
            invariant
                at <= self.payload@.len(),
                payload@ == self.payload@.take(at as int),
            decreases self.payload@.len() - at,
        {
            payload.push(self.payload[at]);
            at = at + 1;
            assert(payload@ =~= self.payload@.take(at as int));
        }
        assert(payload@ =~= self.payload@);
        PacketEvent {
            source: self.source,
            packet_type: self.packet_type,
            peer: self.peer,
            actual_len: self.actual_len,
            payload,
        }
    }
}

/// Whether packets are written down at a moment.
pub open spec fn captures(until: Option<u64>, now: u64) -> bool {
    until matches Some(until) && now <= until
}

/// Whether packets are written down now.
pub fn capture_active(trace: &Trace, now: u64) -> (active: bool)
    ensures
        active == captures(trace@.capture_until, now),
{
    match trace.capture_until {
        Some(until) => now <= until,
        None => false,
    }
}

/// The last packets with one more: the oldest one goes where there are too many.
pub open spec fn kept(recent: Seq<PacketState>, packet: PacketState) -> Seq<PacketState> {
    if recent.len() >= RECENT_LIMIT {
        recent.drop_first().push(packet)
    } else {
        recent.push(packet)
    }
}

/// What is known after a packet went by.
pub open spec fn remembered(trace: TraceState, packet: PacketState, always_log: bool, now: u64) -> TraceState {
    TraceState {
        recent: kept(trace.recent, packet),
        events: if (always_log || captures(trace.capture_until, now)) && trace.events.len()
            < EVENT_LIMIT {
            trace.events.push(EventState::Packet(packet))
        } else {
            trace.events
        },
        ..trace
    }
}

/// Keeps a packet, and writes it down where it is asked for or a capture is on.
pub fn remember_packet(trace: &mut Trace, packet: PacketEvent, always_log: bool, now: u64)
    ensures
        final(trace)@ == remembered(old(trace)@, packet@, always_log, now),
{
    let ghost before = trace@;
    if trace.recent.len() >= RECENT_LIMIT {
        let ghost all = trace.recent@;
        let _ = trace.recent.pop_front();
        assert(packets(trace.recent@) =~= packets(all).drop_first());
    }
    let ghost shorter = trace.recent@;
    let copy = packet.copied();
    trace.recent.push_back(copy);
    assert(packets(trace.recent@) =~= packets(shorter).push(packet@));
    if (always_log || capture_active(trace, now)) && trace.events.len() < EVENT_LIMIT {
        let event = TraceEvent::Packet(packet);
        trace.events.push(event);
        assert(events(trace.events@) =~= before.events.push(event@));
    }
    assert(trace@ =~= remembered(before, packet@, always_log, now));
}

/// Whether a sent packet is written down in any case.
pub open spec fn is_logged(packet_type: u64, length: int) -> bool {
    (packet_type == EQUIPMENT_PACKET_TYPE && length == EQUIPMENT_PACKET_LEN) || ((packet_type == 8
        || packet_type == 60 || packet_type == 61) && 0 < length <= PACKET_LIMIT)
}

/// What is known after a packet was sent.
pub open spec fn after_send(trace: TraceState, packet_type: u64, data: Seq<u8>, now: u64) -> TraceState {
    if 0 < data.len() <= PACKET_LIMIT {
        remembered(
            trace,
            packet_of(Source::Send, packet_type, 0, data),
            is_logged(packet_type, data.len() as int),
            now,
        )
    } else {
        trace
    }
}

/// Looks at a packet that is sent. Tells whether it says that damage was done, so that its
/// victim is to be noted.
pub fn note_sent(trace: &mut Trace, packet_type: u64, data: &[u8], now: u64) -> (damage: bool)
    ensures
        final(trace)@ == after_send(old(trace)@, packet_type, data@, now),
        damage == (packet_type == 38),
{
    let length: usize = data.len();
    if 0 < length && length <= PACKET_LIMIT {
        let always_log = (packet_type == EQUIPMENT_PACKET_TYPE && length == EQUIPMENT_PACKET_LEN)
            || packet_type == 8 || packet_type == 60 || packet_type == 61;
        let packet = packet_event(Source::Send, packet_type, 0, data);
        remember_packet(trace, packet, always_log, now);
    }
    packet_type == 38
}

/// How many bytes of a received packet are looked at.
pub open spec fn received(result: i32, max_len: u32) -> int {
    if result <= 0 {
        0
    } else if result <= max_len && result <= PACKET_LIMIT {
        result as int
    } else if max_len <= PACKET_LIMIT {
        max_len as int
    } else {
        PACKET_LIMIT as int
    }
}

/// How many bytes of a received packet are looked at, given what the call returned and how long
/// the buffer is.
pub fn received_length(result: i32, max_len: u32) -> (length: usize)
    ensures
        length == received(result, max_len),
{
    if result <= 0 {
        return 0;
    }
    let mut length: u32 = result as u32;
    if max_len < length {
        length = max_len;
    }
    if length > PACKET_LIMIT as u32 {
        length = PACKET_LIMIT as u32;
    }
    length as usize
}

/// Whether a packet says in the old form that a braid was used.
pub open spec fn is_single_braid(data: Seq<u8>) -> bool {
    data.len() >= 9 && data[0] == 0x0D && data[1] == 0x01 && data[2] == 0x58 && data[3] == 0x02
        && data[4] == 0x00 && data[6] == 0x0C && data[7] == 0x01 && data[8] == 0x25
}

/// Whether a packet says so in the form that holds several effects.
pub open spec fn is_batched_braid(data: Seq<u8>) -> bool {
    data.len() >= 10 && data[0] == 0x0D && data[1] == 0x02 && data[2] == 0x08 && data[3] == 0x00
        && data[4] == 0x00 && data[5] == 0x00 && data[6] == 0x58 && data[7] == 0x02 && data[8]
        == 0x00 && data[9] == 0x00
}

/// Whether a packet says that a braid was used, in either form.
pub fn is_braid(data: &[u8]) -> (braid: bool)
    ensures
        braid == (is_single_braid(data@) || is_batched_braid(data@)),
{
    let length: usize = data.len();
    if length >= 9 && data[0] == 0x0D && data[1] == 0x01 && data[2] == 0x58 && data[3] == 0x02
        && data[4] == 0x00 && data[6] == 0x0C && data[7] == 0x01 && data[8] == 0x25 {
        return true;
    }
    length >= 10 && data[0] == 0x0D && data[1] == 0x02 && data[2] == 0x08 && data[3] == 0x00
        && data[4] == 0x00 && data[5] == 0x00 && data[6] == 0x58 && data[7] == 0x02 && data[8]
        == 0x00 && data[9] == 0x00
}

/// The selector of the owner that a packet is applied to: one that names a character, else 0.
pub open spec fn owner_selector(owner: Option<u32>) -> u32 {
    match owner {
        Some(selector) if selector / 0x1000_0000 == 1 => selector,
        _ => 0,
    }
}

/// What is known after a packet was received.
pub open spec fn after_receive(
    trace: TraceState,
    peer: u64,
    packet_id: u32,
    data: Seq<u8>,
    owner: Option<u32>,
    now: u64,
) -> TraceState {
    let braid = packet_id == 24 && (is_single_braid(data) || is_batched_braid(data));
    remembered(
        TraceState {
            braids: if braid {
                trace.braids.push((owner_selector(owner), peer, data.len() as usize))
            } else {
                trace.braids
            },
            ..trace
        },
        packet_of(Source::Recv, packet_id as u64, peer, data),
        false,
        now,
    )
}

/// Looks at a packet that was received; `owner` is what the game says of the character that it
/// is applied to.
pub fn note_received(
    trace: &mut Trace,
    peer: u64,
    packet_id: u32,
    data: &[u8],
    owner: Option<u32>,
    now: u64,
)
    ensures
        final(trace)@ == after_receive(old(trace)@, peer, packet_id, data@, owner, now),
{
    let ghost before = trace@;
    if packet_id == 24 && is_braid(data) {
        let selector: u32 = match owner {
            Some(selector) => if selector / 0x1000_0000 == 1 {
                selector
            } else {
                0
            },
            None => 0,
        };
        trace.braids.push((selector, peer, data.len()));
    }
    let packet = packet_event(Source::Recv, packet_id as u64, peer, data);
    remember_packet(trace, packet, false, now);
}

/// Takes the braids that remote players have used: owner, connection and length.
pub fn take_remote_braid_triggers(trace: &mut Trace) -> (braids: Vec<(u32, u64, usize)>)
    ensures
        braids@ == old(trace)@.braids,
        final(trace)@ == (TraceState { braids: seq![], ..old(trace)@ }),
{
    let mut braids: Vec<(u32, u64, usize)> = Vec::new();
    braids.append(&mut trace.braids);
    assert(braids@ =~= old(trace)@.braids);
    assert(trace@.braids =~= seq![]);
    braids
}

/// The events with the kept packets written down, as long as there is room.
pub open spec fn with_packets(list: Seq<EventState>, recent: Seq<PacketState>) -> Seq<EventState>
    decreases recent.len(),
{
    if recent.len() == 0 {
        list
    } else {
        let rest = with_packets(list, recent.drop_last());
        if rest.len() < EVENT_LIMIT {
            rest.push(EventState::Packet(recent.last()))
        } else {
            rest
        }
    }
}

/// The line before the kept packets.
pub open spec fn begin_line(label: Seq<char>) -> Seq<char> {
    "combat_capture_begin event="@ + label
}

/// The line after the kept packets.
pub open spec fn edge_line(label: Seq<char>) -> Seq<char> {
    "combat_capture_edge event="@ + label
}

/// Writes the last packets down, between two lines that say why, and every packet of the next
/// seconds.
pub fn request_combat_capture(trace: &mut Trace, label: &str, now: u64)
    requires
        now <= u64::MAX - CAPTURE_AFTER,
    ensures
        final(trace)@ == (TraceState {
            events: with_packets(
                old(trace)@.events.push(EventState::Marker(begin_line(label@))),
                old(trace)@.recent,
            ).push(EventState::Marker(edge_line(label@))),
            capture_until: Some((now + CAPTURE_AFTER) as u64),
            ..old(trace)@
        }),
        final(trace)@.capture_until == Some((now + 3_000) as u64),
{
    let ghost before = trace@;
    let mut line = "combat_capture_begin event=".to_owned();
    line.append(label);
    let begin = TraceEvent::Marker(line);
    trace.events.push(begin);
    let ghost marked = before.events.push(begin@);
    assert(events(trace.events@) =~= marked);
    let mut at: usize = 0;
    assert(before.recent.take(0) =~= seq![]);
    while at < trace.recent.len()
        invariant
            at <= trace.recent@.len(),
            before.recent == packets(trace.recent@),
            trace@ == (TraceState {
                events: with_packets(marked, before.recent.take(at as int)),
                ..before
            }),
        decreases trace.recent@.len() - at,
    {
        assert(before.recent.take(at + 1).drop_last() =~= before.recent.take(at as int));
        let ghost so_far = trace.events@;
        assert(events(so_far).len() == so_far.len());
        if trace.events.len() < EVENT_LIMIT {
            let copy = trace.recent[at].copied();
            let event = TraceEvent::Packet(copy);
            trace.events.push(event);
            assert(events(trace.events@) =~= events(so_far).push(event@));
        }
        at = at + 1;
    }
    assert(before.recent.take(before.recent.len() as int) =~= before.recent);
    let mut line = "combat_capture_edge event=".to_owned();
    line.append(label);
    let ghost so_far = trace.events@;
    let edge = TraceEvent::Marker(line);
    trace.events.push(edge);
    assert(events(trace.events@) =~= events(so_far).push(edge@));
    trace.capture_until = Some(now + CAPTURE_AFTER);
}

/// Bytes as pairs of digits without anything between them.
pub open spec fn payload_text(bytes: Seq<u8>) -> Seq<char>
    decreases bytes.len(),
{
    if bytes.len() == 0 {
        seq![]
    } else {
        payload_text(bytes.drop_last()) + zero_padded(numeral(bytes.last() as nat, 16, true), 2)
    }
}

fn payload_digits(bytes: &Vec<u8>) -> (text: String)
    ensures
        text@ == payload_text(bytes@),
{
    let mut text = String::new();
    assert(text@ =~= payload_text(bytes@.take(0)));
    let mut at: usize = 0;
    while at < bytes.len()
        invariant
            at <= bytes@.len(),
            text@ == payload_text(bytes@.take(at as int)),
        decreases bytes@.len() - at,
    {
        assert(bytes@.take(at + 1).drop_last() =~= bytes@.take(at as int));
        text.append(padded_hex(bytes[at] as u64, true, 2).as_str());
        at = at + 1;
    }
    assert(bytes@.take(bytes@.len() as int) =~= bytes@);
    text
}

/// The word for which way a packet went.
pub open spec fn source_text(source: Source) -> Seq<char> {
    match source {
        Source::Send => "send"@,
        Source::Recv => "recv"@,
    }
}

/// The line of an event.
pub open spec fn event_line(event: EventState) -> Seq<char> {
    match event {
        EventState::Marker(line) => line,
        EventState::Packet(packet) => "source="@ + source_text(packet.source) + " type="@ + decimal(
            packet.packet_type as int,
        ) + " peer=0x"@ + hex(packet.peer as nat) + " len="@ + decimal(packet.actual_len as int)
            + " captured="@ + decimal(packet.payload.len() as int) + " payload="@ + payload_text(
            packet.payload,
        ),
    }
}

fn line_of(event: &TraceEvent) -> (line: String)
    ensures
        line@ == event_line(event@),
{
    match event {
        TraceEvent::Marker(line) => line.clone(),
        TraceEvent::Packet(packet) => {
            let source = match packet.source {
                Source::Send => "send",
                Source::Recv => "recv",
            };
            let mut line = "source=".to_owned();
            line.append(source);
            line.append(" type=");
            push_decimal(&mut line, packet.packet_type);
            line.append(" peer=0x");
            push_numeral(&mut line, packet.peer as u128, 16, false);
            line.append(" len=");
            push_decimal(&mut line, packet.actual_len as u64);
            line.append(" captured=");
            push_decimal(&mut line, packet.payload.len() as u64);
            line.append(" payload=");
            line.append(payload_digits(&packet.payload).as_str());
            line
        },
    }
}

/// Takes what is to be written down, as lines.
pub fn poll(trace: &mut Trace) -> (lines: Vec<String>)
    ensures
        lines@.len() == old(trace)@.events.len(),
        forall|i: int|
            0 <= i < lines@.len() ==> (#[trigger] lines@[i])@ == event_line(
                old(trace)@.events[i],
            ),
        final(trace)@ == (TraceState { events: seq![], ..old(trace)@ }),
{
    let mut lines: Vec<String> = Vec::new();
    let mut at: usize = 0;
    while at < trace.events.len()
        invariant
            at <= trace.events@.len(),
            trace@ == old(trace)@,
            lines@.len() == at,
            forall|i: int|
                0 <= i < at ==> (#[trigger] lines@[i])@ == event_line(old(trace)@.events[i]),
        decreases trace.events@.len() - at,
    {
        assert(trace@.events[at as int] == trace.events@[at as int]@);
        lines.push(line_of(&trace.events[at]));
        at = at + 1;
    }
    assert(old(trace)@.events.len() == trace.events@.len());
    trace.events = Vec::new();
    assert(trace@.events =~= seq![]);
    lines
}

/// The kept packets are always the last ones, at most so many and in order.
pub proof fn kept_packets_are_the_last(all: Seq<PacketState>, recent: Seq<PacketState>, packet: PacketState)
    requires
        recent.len() <= RECENT_LIMIT,
        recent.len() == RECENT_LIMIT || recent.len() == all.len(),
        recent.len() <= all.len(),
        recent == all.skip(all.len() - recent.len()),
    ensures
        ({
            let next = kept(recent, packet);
            let more = all.push(packet);
            &&& next.len() <= RECENT_LIMIT
            &&& next.len() == RECENT_LIMIT || next.len() == more.len()
            &&& next == more.skip(more.len() - next.len())
        }),
{
    let next = kept(recent, packet);
    let more = all.push(packet);
    assert(next =~= more.skip(more.len() - next.len()));
}

/// What is written down stays bounded: packets never bring the events over their limit, and a
/// capture brings two lines more at most.
pub proof fn events_stay_bounded(
    trace: TraceState,
    packet: PacketState,
    always_log: bool,
    now: u64,
    label: Seq<char>,
)
    ensures
        remembered(trace, packet, always_log, now).events.len() <= if trace.events.len()
            < EVENT_LIMIT {
            EVENT_LIMIT as nat
        } else {
            trace.events.len()
        },
        with_packets(
            trace.events.push(EventState::Marker(begin_line(label))),
            trace.recent,
        ).push(EventState::Marker(edge_line(label))).len() <= if trace.events.len()
            < EVENT_LIMIT - 1 {
            (EVENT_LIMIT + 1) as nat
        } else {
            trace.events.len() + 2
        },
{
    packets_stay_bounded(
        trace.events.push(EventState::Marker(begin_line(label))),
        trace.recent,
    );
}

proof fn packets_stay_bounded(list: Seq<EventState>, recent: Seq<PacketState>)
    ensures
        with_packets(list, recent).len() <= if list.len() < EVENT_LIMIT {
            EVENT_LIMIT as nat
        } else {
            list.len()
        },
    decreases recent.len(),
{
    if recent.len() > 0 {
        packets_stay_bounded(list, recent.drop_last());
    }
}

/// A packet is never kept with more bytes than the limit, and never with bytes that it did not
/// have.
pub proof fn payloads_are_prefixes(source: Source, packet_type: u64, peer: u64, data: Seq<u8>)
    ensures
        ({
            let packet = packet_of(source, packet_type, peer, data);
            &&& packet.payload.len() <= PAYLOAD_LIMIT
            &&& packet.payload.len() <= data.len()
            &&& packet.payload == data.take(packet.payload.len() as int)
        }),
{
    assert(packet_of(source, packet_type, peer, data).payload =~= data.take(
        packet_of(source, packet_type, peer, data).payload.len() as int,
    ));
}

/// A braid that a remote player uses is noted with its owner, where that names a character, its
/// connection and its length: packet 24 in one of two forms. No other packet is taken for one.
pub proof fn every_braid_is_noted(
    trace: TraceState,
    peer: u64,
    packet_id: u32,
    data: Seq<u8>,
    owner: Option<u32>,
    now: u64,
)
    requires
        data.len() <= usize::MAX,
    ensures
        ({
            let next = after_receive(trace, peer, packet_id, data, owner, now);
            let single = data.len() >= 9 && data[0] == 0x0D && data[1] == 0x01 && data[2] == 0x58
                && data[3] == 0x02 && data[4] == 0 && data[6] == 0x0C && data[7] == 0x01 && data[8]
                == 0x25;
            let batched = data.len() >= 10 && data[0] == 0x0D && data[1] == 0x02 && data[2] == 0x08
                && data[3] == 0 && data[4] == 0 && data[5] == 0 && data[6] == 0x58 && data[7]
                == 0x02 && data[8] == 0 && data[9] == 0;
            let used = packet_id == 24 && (single || batched);
            &&& !used ==> next.braids == trace.braids
            &&& used ==> next.braids.len() == trace.braids.len() + 1 && next.braids.drop_last()
                == trace.braids
            &&& used && owner is Some && 0x1000_0000 <= owner->0 < 0x2000_0000 ==> next.braids.last()
                == (owner->0, peer, data.len() as usize)
            &&& used && (owner is None || owner->0 < 0x1000_0000 || owner->0 >= 0x2000_0000)
                ==> next.braids.last() == (0u32, peer, data.len() as usize)
        }),
{
    let next = after_receive(trace, peer, packet_id, data, owner, now);
    if next.braids != trace.braids {
        assert(next.braids.drop_last() =~= trace.braids);
    }
}

/// A packet that is sent or received is kept as the last one, with its kind, its connection, its
/// length and its first five hundred and twelve bytes.
pub proof fn packets_are_kept_as_they_went_by(
    trace: TraceState,
    peer: u64,
    kind: u32,
    data: Seq<u8>,
    owner: Option<u32>,
    now: u64,
)
    requires
        0 < data.len() <= 4096,
    ensures
        ({
            let bytes = if data.len() < 512 {
                data
            } else {
                data.take(512)
            };
            let sent = after_send(trace, kind as u64, data, now).recent.last();
            let got = after_receive(trace, peer, kind, data, owner, now).recent.last();
            &&& sent.source == Source::Send && sent.packet_type == kind && sent.peer == 0
            &&& sent.actual_len == data.len() && sent.payload == bytes
            &&& got.source == Source::Recv && got.packet_type == kind && got.peer == peer
            &&& got.actual_len == data.len() && got.payload == bytes
        }),
{
}

/// A sent packet is written down while a capture is on, and at all times where it tells what is
/// worn, in one hundred and ninety-two bytes under 12, or has one of the kinds 8, 60 and 61; a
/// received one only while a capture is on; all as long as there is room for five hundred and
/// twelve events. What was written down before stays.
pub proof fn packets_that_are_written_down(
    trace: TraceState,
    peer: u64,
    kind: u32,
    data: Seq<u8>,
    owner: Option<u32>,
    now: u64,
)
    requires
        0 < data.len() <= 4096,
    ensures
        ({
            let on = trace.capture_until is Some && now <= trace.capture_until->0;
            let always = (kind == 12 && data.len() == 192) || kind == 8 || kind == 60 || kind == 61;
            let room = trace.events.len() < 512;
            let sent = after_send(trace, kind as u64, data, now).events;
            let got = after_receive(trace, peer, kind, data, owner, now).events;
            &&& sent.len() == trace.events.len() + (if room && (on || always) {
                1nat
            } else {
                0nat
            })
            &&& got.len() == trace.events.len() + (if room && on {
                1nat
            } else {
                0nat
            })
            &&& sent.take(trace.events.len() as int) == trace.events
            &&& got.take(trace.events.len() as int) == trace.events
            &&& room && (on || always) ==> sent.last() == EventState::Packet(
                after_send(trace, kind as u64, data, now).recent.last(),
            )
            &&& room && on ==> got.last() == EventState::Packet(
                after_receive(trace, peer, kind, data, owner, now).recent.last(),
            )
        }),
{
    let sent = after_send(trace, kind as u64, data, now).events;
    let got = after_receive(trace, peer, kind, data, owner, now).events;
    assert(sent.take(trace.events.len() as int) =~= trace.events);
    assert(got.take(trace.events.len() as int) =~= trace.events);
}

/// Of a received packet as much is looked at as came, as the buffer holds, and as is looked at at
/// most: four thousand and ninety-six bytes.
pub proof fn received_bytes_are_bounded(result: i32, max_len: u32)
    ensures
        result <= 0 ==> received(result, max_len) == 0,
        received(result, max_len) <= max_len,
        received(result, max_len) <= 4096,
        result > 0 ==> received(result, max_len) <= result,
        result > 0 ==> received(result, max_len) == result || received(result, max_len) == max_len
            || received(result, max_len) == 4096,
{
}

/// A capture keeps what was written down, and adds the kept packets in their order, as many as
/// there is room for.
pub proof fn captures_write_the_kept_packets(list: Seq<EventState>, recent: Seq<PacketState>)
    ensures
        ({
            let room = if list.len() < 512 {
                (512 - list.len()) as nat
            } else {
                0nat
            };
            let count = if recent.len() < room {
                recent.len()
            } else {
                room
            };
            let next = with_packets(list, recent);
            &&& next.len() == list.len() + count
            &&& forall|k: int| 0 <= k < list.len() ==> next[k] == list[k]
            &&& forall|k: int|
                0 <= k < count ==> next[list.len() + k] == EventState::Packet(#[trigger] recent[k])
        }),
    decreases recent.len(),
{
    if recent.len() > 0 {
        let rest = recent.drop_last();
        captures_write_the_kept_packets(list, rest);
        let before = with_packets(list, rest);
        let next = with_packets(list, recent);
        assert forall|k: int| 0 <= k < next.len() - list.len() implies next[list.len() + k]
            == EventState::Packet(#[trigger] recent[k]) by {
            if k < before.len() - list.len() {
                assert(rest[k] == recent[k]);
                assert(next[list.len() + k] == before[list.len() + k]);
            }
        }
    }
}

/// The bytes of a packet can be read off its line: two digits for each, one after the other.
pub proof fn payloads_can_be_read_off(bytes: Seq<u8>, i: int)
    ensures
        payload_text(bytes).len() == 2 * bytes.len(),
        0 <= i < bytes.len() ==> digit_value(payload_text(bytes)[2 * i]) * 16 + digit_value(
            payload_text(bytes)[2 * i + 1],
        ) == bytes[i],
    decreases bytes.len(),
{
    if bytes.len() > 0 {
        let rest = bytes.drop_last();
        payloads_can_be_read_off(rest, i);
        crate::text::bytes_have_two_digits(bytes.last(), true);
        let last = zero_padded(numeral(bytes.last() as nat, 16, true), 2);
        let before = payload_text(rest);
        let all = payload_text(bytes);
        assert(all =~= before + last);
        if 0 <= i < rest.len() {
            assert(all[2 * i] == before[2 * i] && all[2 * i + 1] == before[2 * i + 1]);
            assert(rest[i] == bytes[i]);
        } else if i == rest.len() {
            assert(all[2 * i] == last[0] && all[2 * i + 1] == last[1]);
        }
    }
}

/// The last one hundred and twenty-eight packets are kept; with one more the oldest one goes.
pub proof fn the_oldest_packet_goes(recent: Seq<PacketState>, packet: PacketState)
    ensures
        kept(recent, packet).last() == packet,
        recent.len() < 128 ==> kept(recent, packet).len() == recent.len() + 1 && kept(
            recent,
            packet,
        ).drop_last() == recent,
        recent.len() == 128 ==> kept(recent, packet).len() == 128 && kept(
            recent,
            packet,
        ).drop_last() == recent.drop_first(),
{
    assert(kept(recent, packet).drop_last() =~= if recent.len() < 128 {
        recent
    } else {
        recent.drop_first()
    });
}

} // verus!
