use vstd::prelude::*;

use crate::header::Header;
use crate::header::HeaderError;
use crate::unpacker::ints_ok;
use crate::unpacker::ints_size;
use crate::unpacker::ints_values;
use crate::unpacker::lemma_skip_skip;
use crate::unpacker::varint_ok;
use crate::unpacker::varint_size;
use crate::unpacker::varint_value;
use crate::unpacker::UnexpectedEnd;
use crate::unpacker::Unpacker;
use vstd::pervasive::VecAdditionalExecFns;

verus! {

/// Fixed number of client slots the format provides.
pub const MAX_CLIENTS: usize = 64;

/// Number of distinct typed-item kinds encoded in a negative key.
pub const NUM_ITEM_KINDS: usize = 5;

/// Errors of stream decoding.
#[derive(Clone, Copy, PartialEq, Eq, Structural, Debug)]
pub enum Error {
    Header(HeaderError),
    UnknownVersion,
    TickOverflow,
    UnexpectedEnd,
    InvalidClientId,
    PlayerNewDuplicate,
    PlayerDiffWithoutNew,
    PlayerOldWithoutNew,
    InputNewDuplicate,
    InputDiffWithoutNew,
}

impl From<HeaderError> for Error {
    fn from(e: HeaderError) -> (r: Error) {
        Error::Header(e)
    }
}

impl vstd::std_specs::convert::FromSpecImpl<HeaderError> for Error {
    open spec fn obeys_from_spec() -> bool {
        true
    }

    open spec fn from_spec(e: HeaderError) -> Error {
        Error::Header(e)
    }
}

/// Full snapshot of one player's state.
#[derive(Clone, Copy, PartialEq, Eq, Structural, Debug)]
pub struct PlayerSnap {
    pub x: i32,
    pub y: i32,
}

/// Full snapshot of one player's control input.
#[derive(Clone, Copy, PartialEq, Eq, Structural, Debug)]
pub struct InputSnap {
    pub direction: i32,
    pub target_x: i32,
    pub target_y: i32,
    pub buttons: i32,
}

/// Per-client player-presence state.
#[derive(Clone, Copy, PartialEq, Eq, Structural, Debug)]
pub enum PlayerSlot {
    Absent,
    Present(PlayerSnap),
}

/// Per-client input-presence state.
#[derive(Clone, Copy, PartialEq, Eq, Structural, Debug)]
pub enum InputSlot {
    Inactive,
    Active(InputSnap),
}

/// What one decoded record did.
#[derive(Clone, Copy, PartialEq, Eq, Structural, Debug)]
pub enum EventKind {
    Tick,
    PlayerNew { cid: i32, snap: PlayerSnap },
    PlayerDiff { cid: i32, snap: PlayerSnap },
    PlayerOld { cid: i32 },
    InputNew { cid: i32, input: InputSnap },
    InputDiff { cid: i32, input: InputSnap },
}

/// One decoded record: the resulting tick and what happened.
#[derive(Clone, Copy, PartialEq, Eq, Structural, Debug)]
pub struct Event {
    pub tick: i32,
    pub kind: EventKind,
}

/// Mathematical state of one decode pass: the running tick and the two
/// per-client slot tables.
#[verifier::ext_equal]
pub struct Model {
    pub tick: int,
    pub players: Seq<PlayerSlot>,
    pub inputs: Seq<InputSlot>,
}

impl Model {
    pub open spec fn wf(self) -> bool {
        &&& 0 <= self.tick <= 0x7fffffff
        &&& self.players.len() == MAX_CLIENTS
        &&& self.inputs.len() == MAX_CLIENTS
    }

    /// State at the start of a stream: tick zero, every slot empty.
    pub open spec fn init() -> Model {
        Model {
            tick: 0,
            players: Seq::new(MAX_CLIENTS as nat, |i: int| PlayerSlot::Absent),
            inputs: Seq::new(MAX_CLIENTS as nat, |i: int| InputSlot::Inactive),
        }
    }
}

/// Item kind encoded in a negative key.
pub open spec fn item_kind(key: int) -> int {
    (-key - 1) % (NUM_ITEM_KINDS as int)
}

/// Client id encoded in a negative key.
pub open spec fn item_cid(key: int) -> int {
    (-key - 1) / (NUM_ITEM_KINDS as int)
}

/// Key addressing a player-new item to `cid`.
pub open spec fn player_new_key(cid: int) -> int {
    -(cid * 5) - 1
}

/// Key addressing a player-diff item to `cid`.
pub open spec fn player_diff_key(cid: int) -> int {
    -(cid * 5 + 1) - 1
}

/// Key addressing a player-old item to `cid`.
pub open spec fn player_old_key(cid: int) -> int {
    -(cid * 5 + 2) - 1
}

/// Key addressing an input-new item to `cid`.
pub open spec fn input_new_key(cid: int) -> int {
    -(cid * 5 + 3) - 1
}

/// Key addressing an input-diff item to `cid`.
pub open spec fn input_diff_key(cid: int) -> int {
    -(cid * 5 + 4) - 1
}

/// The kind and client id are recovered from a key without ambiguity.
pub proof fn lemma_key_roundtrip(cid: int, kind: int)
    requires
        0 <= cid,
        0 <= kind < 5,
    ensures
        item_kind(-(cid * 5 + kind) - 1) == kind,
        item_cid(-(cid * 5 + kind) - 1) == cid,
{
    let m = cid * 5 + kind;
    assert(m % 5 == kind && m / 5 == cid) by (nonlinear_arith)
        requires
            0 <= cid,
            0 <= kind < 5,
            m == cid * 5 + kind,
    ;
}

/// Number of payload varints that follow a key, given how far decoding gets:
/// a non-negative key and an out-of-range client id take none.
pub open spec fn key_payload_count(key: int) -> nat {
    if key >= 0 {
        0
    } else if item_cid(key) >= MAX_CLIENTS as int {
        0
    } else if item_kind(key) == 0 || item_kind(key) == 1 {
        2
    } else if item_kind(key) == 3 || item_kind(key) == 4 {
        4
    } else {
        0
    }
}

/// A complete record stands at the front of `b`: a key varint and the payload
/// varints its decoding consumes.
pub open spec fn record_ok(b: Seq<u8>) -> bool {
    &&& varint_ok(b)
    &&& ints_ok(b.skip(varint_size(b)), key_payload_count(varint_value(b)))
}

/// Number of bytes the record at the front of `b` occupies.
pub open spec fn record_size(b: Seq<u8>) -> int
    recommends
        record_ok(b),
{
    varint_size(b) + ints_size(b.skip(varint_size(b)), key_payload_count(varint_value(b)))
}

/// The payload values of the record at the front of `b`.
pub open spec fn record_payload(b: Seq<u8>) -> Seq<int>
    recommends
        record_ok(b),
{
    ints_values(b.skip(varint_size(b)), key_payload_count(varint_value(b)))
}

/// Two's-complement 32-bit wrap-around addition.
pub open spec fn wrap_add(a: int, b: int) -> int {
    if a + b > 0x7fffffff {
        a + b - 0x100000000
    } else if a + b < -0x80000000 {
        a + b + 0x100000000
    } else {
        a + b
    }
}

/// Applies one decoded key and its payload to the state: the transition
/// relation of the per-client state machine and the tick counter.
pub open spec fn apply_key(m: Model, key: int, payload: Seq<int>) -> Result<(Model, Event), Error>
    recommends
        m.wf(),
{
    if key >= 0 {
        if m.tick + key > 0x7fffffff {
            Err(Error::TickOverflow)
        } else {
            Ok(
                (
                    (Model { tick: m.tick + key, players: m.players, inputs: m.inputs }),
                    (Event { tick: (m.tick + key) as i32, kind: EventKind::Tick }),
                ),
            )
        }
    } else if item_cid(key) >= MAX_CLIENTS as int {
        Err(Error::InvalidClientId)
    } else {
        let cid = item_cid(key);
        let kind = item_kind(key);
        if kind == 0 {
            match m.players[cid] {
                PlayerSlot::Present(_) => Err(Error::PlayerNewDuplicate),
                PlayerSlot::Absent => {
                    let snap = PlayerSnap { x: payload[0] as i32, y: payload[1] as i32 };
                    Ok(
                        (
                            (Model {
                                tick: m.tick,
                                players: m.players.update(cid, PlayerSlot::Present(snap)),
                                inputs: m.inputs,
                            }),
                            (Event {
                                tick: m.tick as i32,
                                kind: EventKind::PlayerNew { cid: cid as i32, snap },
                            }),
                        ),
                    )
                },
            }
        } else if kind == 1 {
            match m.players[cid] {
                PlayerSlot::Absent => Err(Error::PlayerDiffWithoutNew),
                PlayerSlot::Present(s) => {
                    let snap = PlayerSnap {
                        x: wrap_add(s.x as int, payload[0]) as i32,
                        y: wrap_add(s.y as int, payload[1]) as i32,
                    };
                    Ok(
                        (
                            (Model {
                                tick: m.tick,
                                players: m.players.update(cid, PlayerSlot::Present(snap)),
                                inputs: m.inputs,
                            }),
                            (Event {
                                tick: m.tick as i32,
                                kind: EventKind::PlayerDiff { cid: cid as i32, snap },
                            }),
                        ),
                    )
                },
            }
        } else if kind == 2 {
            match m.players[cid] {
                PlayerSlot::Absent => Err(Error::PlayerOldWithoutNew),
                PlayerSlot::Present(_) => Ok(
                    (
                        (Model {
                            tick: m.tick,
                            players: m.players.update(cid, PlayerSlot::Absent),
                            inputs: m.inputs,
                        }),
                        (Event { tick: m.tick as i32, kind: EventKind::PlayerOld { cid: cid as i32 } }),
                    ),
                ),
            }
        } else if kind == 3 {
            match m.inputs[cid] {
                InputSlot::Active(_) => Err(Error::InputNewDuplicate),
                InputSlot::Inactive => {
                    let input = InputSnap {
                        direction: payload[0] as i32,
                        target_x: payload[1] as i32,
                        target_y: payload[2] as i32,
                        buttons: payload[3] as i32,
                    };
                    Ok(
                        (
                            (Model {
                                tick: m.tick,
                                players: m.players,
                                inputs: m.inputs.update(cid, InputSlot::Active(input)),
                            }),
                            (Event {
                                tick: m.tick as i32,
                                kind: EventKind::InputNew { cid: cid as i32, input },
                            }),
                        ),
                    )
                },
            }
        } else {
            match m.inputs[cid] {
                InputSlot::Inactive => Err(Error::InputDiffWithoutNew),
                InputSlot::Active(s) => {
                    let input = InputSnap {
                        direction: wrap_add(s.direction as int, payload[0]) as i32,
                        target_x: wrap_add(s.target_x as int, payload[1]) as i32,
                        target_y: wrap_add(s.target_y as int, payload[2]) as i32,
                        buttons: wrap_add(s.buttons as int, payload[3]) as i32,
                    };
                    Ok(
                        (
                            (Model {
                                tick: m.tick,
                                players: m.players,
                                inputs: m.inputs.update(cid, InputSlot::Active(input)),
                            }),
                            (Event {
                                tick: m.tick as i32,
                                kind: EventKind::InputDiff { cid: cid as i32, input },
                            }),
                        ),
                    )
                },
            }
        }
    }
}

/// Two's-complement 32-bit wrap-around addition.
fn wrap_add_i32(a: i32, b: i32) -> (r: i32)
    ensures
        r as int == wrap_add(a as int, b as int),
{
    let s: i64 = a as i64 + b as i64;
    if s > 0x7fffffff {
        (s - 0x100000000) as i32
    } else if s < -0x80000000 {
        (s + 0x100000000) as i32
    } else {
        s as i32
    }
}

/// Decoder of the item stream: owns the per-client state table and the
/// running tick for one pass over one stream.
pub struct Decoder {
    tick: i32,
    players: Vec<PlayerSlot>,
    inputs: Vec<InputSlot>,
}

impl View for Decoder {
    type V = Model;

    closed spec fn view(&self) -> Model {
        Model { tick: self.tick as int, players: self.players@, inputs: self.inputs@ }
    }
}

impl Decoder {
    pub open spec fn wf(self) -> bool {
        self@.wf()
    }

    /// Fresh state for a stream whose header carries a supported version.
    pub fn new(h: &Header) -> (r: Result<Decoder, Error>)
        ensures
            h.version == 1 || h.version == 2 ==> {
                &&& r is Ok
                &&& r.unwrap().wf()
                &&& r.unwrap()@ == Model::init()
            },
            !(h.version == 1 || h.version == 2) ==> r == Err::<Decoder, Error>(
                Error::UnknownVersion,
            ),
    {
        if h.version != 1 && h.version != 2 {
            return Err(Error::UnknownVersion);
        }
        let mut players: Vec<PlayerSlot> = Vec::new();
        let mut inputs: Vec<InputSlot> = Vec::new();
        let mut i: usize = 0;
        while i < MAX_CLIENTS
            invariant
                i <= MAX_CLIENTS,
                players@.len() == i,
                inputs@.len() == i,
                forall|j: int| 0 <= j < i ==> players@[j] == PlayerSlot::Absent,
                forall|j: int| 0 <= j < i ==> inputs@[j] == InputSlot::Inactive,
            decreases MAX_CLIENTS - i,
        {
            players.push(PlayerSlot::Absent);
            inputs.push(InputSlot::Inactive);
            i = i + 1;
        }
        let d = Decoder { tick: 0, players, inputs };
        proof {
            assert(d@.players =~= Model::init().players);
            assert(d@.inputs =~= Model::init().inputs);
            assert(d@ =~= Model::init());
        }
        Ok(d)
    }

    /// The resulting tick after all records decoded so far.
    pub fn tick(&self) -> (r: i32)
        ensures
            r as int == self@.tick,
    {
        self.tick
    }

    /// Player-presence state of one client slot.
    pub fn player_slot(&self, cid: usize) -> (r: PlayerSlot)
        requires
            self.wf(),
            cid < MAX_CLIENTS,
        ensures
            r == self@.players[cid as int],
    {
        self.players[cid]
    }

    /// Input-presence state of one client slot.
    pub fn input_slot(&self, cid: usize) -> (r: InputSlot)
        requires
            self.wf(),
            cid < MAX_CLIENTS,
        ensures
            r == self@.inputs[cid as int],
    {
        self.inputs[cid]
    }

    /// Pulls one record from the stream and applies it: `Ok(None)` at a clean
    /// end of stream, one decoded event otherwise, or the first error of the
    /// record, which leaves the state table and the cursor unchanged.
    pub fn decode_next(&mut self, p: &mut Unpacker) -> (r: Result<Option<Event>, Error>)
        requires
            old(self).wf(),
            old(p).wf(),
        ensures
            final(self).wf(),
            final(p).wf(),
            final(p).bytes() == old(p).bytes(),
            old(self)@.tick <= final(self)@.tick,
            ({
                let rem = old(p).remaining();
                if rem.len() == 0 {
                    &&& r == Ok::<Option<Event>, Error>(None)
                    &&& final(self)@ == old(self)@
                    &&& final(p).pos() == old(p).pos()
                } else if !record_ok(rem) {
                    &&& r == Err::<Option<Event>, Error>(Error::UnexpectedEnd)
                    &&& final(self)@ == old(self)@
                    &&& final(p).pos() == old(p).pos()
                } else {
                    match apply_key(old(self)@, varint_value(rem), record_payload(rem)) {
                        Ok((m2, ev)) => {
                            &&& r == Ok::<Option<Event>, Error>(Some(ev))
                            &&& final(self)@ == m2
                            &&& final(p).pos() == old(p).pos() + record_size(rem)
                        },
                        Err(e) => {
                            &&& r == Err::<Option<Event>, Error>(e)
                            &&& final(self)@ == old(self)@
                            &&& final(p).pos() == old(p).pos()
                        },
                    }
                }
            }),
    {
        let ghost rem = old(p).remaining();
        let start: usize = p.cur_pos();
        if p.remaining_len() == 0 {
            return Ok(None);
        }
        let key: i32 = match p.read_int() {
            Ok(k) => k,
            Err(_) => {
                return Err(Error::UnexpectedEnd);
            },
        };
        proof {
            lemma_skip_skip(old(p).bytes(), start as int, varint_size(rem));
        }
        let ghost body = rem.skip(varint_size(rem));
        if key >= 0 {
            proof {
                assert(ints_ok(body, 0));
            }
            let nt: i64 = self.tick as i64 + key as i64;
            if nt > 0x7fffffff {
                p.rewind(start);
                return Err(Error::TickOverflow);
            }
            self.tick = nt as i32;
            let ev = Event { tick: self.tick, kind: EventKind::Tick };
            proof {
                let (m2, sev) = apply_key(old(self)@, varint_value(rem), record_payload(rem))
                    .unwrap();
                assert(self@ =~= m2);
            }
            return Ok(Some(ev));
        }
        let m: i32 = -(key + 1);
        let kind: i32 = m % 5;
        let cid: i32 = m / 5;
        proof {
            assert(kind as int == item_kind(key as int));
            assert(cid as int == item_cid(key as int));
        }
        if cid >= MAX_CLIENTS as i32 {
            p.rewind(start);
            return Err(Error::InvalidClientId);
        }
        let c: usize = cid as usize;
        if kind == 0 || kind == 1 {
            let (a, b) = match read_two(p) {
                Ok(t) => t,
                Err(_) => {
                    p.rewind(start);
                    return Err(Error::UnexpectedEnd);
                },
            };
            let ghost payload = record_payload(rem);
            proof {
                assert(payload =~= ints_values(body, 2));
            }
            if kind == 0 {
                match self.players[c] {
                    PlayerSlot::Present(_) => {
                        p.rewind(start);
                        return Err(Error::PlayerNewDuplicate);
                    },
                    PlayerSlot::Absent => {
                        let snap = PlayerSnap { x: a, y: b };
                        self.players.set(c, PlayerSlot::Present(snap));
                        let ev = Event {
                            tick: self.tick,
                            kind: EventKind::PlayerNew { cid, snap },
                        };
                        proof {
                            let (m2, sev) = apply_key(old(self)@, varint_value(rem), payload)
                                .unwrap();
                            assert(self@ =~= m2);
                        }
                        return Ok(Some(ev));
                    },
                }
            } else {
                match self.players[c] {
                    PlayerSlot::Absent => {
                        p.rewind(start);
                        return Err(Error::PlayerDiffWithoutNew);
                    },
                    PlayerSlot::Present(s) => {
                        let snap = PlayerSnap {
                            x: wrap_add_i32(s.x, a),
                            y: wrap_add_i32(s.y, b),
                        };
                        self.players.set(c, PlayerSlot::Present(snap));
                        let ev = Event {
                            tick: self.tick,
                            kind: EventKind::PlayerDiff { cid, snap },
                        };
                        proof {
                            let (m2, sev) = apply_key(old(self)@, varint_value(rem), payload)
                                .unwrap();
                            assert(self@ =~= m2);
                        }
                        return Ok(Some(ev));
                    },
                }
            }
        } else if kind == 2 {
            proof {
                assert(ints_ok(body, 0));
            }
            match self.players[c] {
                PlayerSlot::Absent => {
                    p.rewind(start);
                    return Err(Error::PlayerOldWithoutNew);
                },
                PlayerSlot::Present(_) => {
                    self.players.set(c, PlayerSlot::Absent);
                    let ev = Event { tick: self.tick, kind: EventKind::PlayerOld { cid } };
                    proof {
                        let (m2, sev) = apply_key(old(self)@, varint_value(rem), record_payload(rem))
                            .unwrap();
                        assert(self@ =~= m2);
                    }
                    return Ok(Some(ev));
                },
            }
        } else {
            let (a, b, cc, d) = match read_four(p) {
                Ok(t) => t,
                Err(_) => {
                    p.rewind(start);
                    return Err(Error::UnexpectedEnd);
                },
            };
            let ghost payload = record_payload(rem);
            proof {
                assert(payload =~= ints_values(body, 4));
            }
            if kind == 3 {
                match self.inputs[c] {
                    InputSlot::Active(_) => {
                        p.rewind(start);
                        return Err(Error::InputNewDuplicate);
                    },
                    InputSlot::Inactive => {
                        let input = InputSnap {
                            direction: a,
                            target_x: b,
                            target_y: cc,
                            buttons: d,
                        };
                        self.inputs.set(c, InputSlot::Active(input));
                        let ev = Event {
                            tick: self.tick,
                            kind: EventKind::InputNew { cid, input },
                        };
                        proof {
                            let (m2, sev) = apply_key(old(self)@, varint_value(rem), payload)
                                .unwrap();
                            assert(self@ =~= m2);
                        }
                        return Ok(Some(ev));
                    },
                }
            } else {
                match self.inputs[c] {
                    InputSlot::Inactive => {
                        p.rewind(start);
                        return Err(Error::InputDiffWithoutNew);
                    },
                    InputSlot::Active(s) => {
                        let input = InputSnap {
                            direction: wrap_add_i32(s.direction, a),
                            target_x: wrap_add_i32(s.target_x, b),
                            target_y: wrap_add_i32(s.target_y, cc),
                            buttons: wrap_add_i32(s.buttons, d),
                        };
                        self.inputs.set(c, InputSlot::Active(input));
                        let ev = Event {
                            tick: self.tick,
                            kind: EventKind::InputDiff { cid, input },
                        };
                        proof {
                            let (m2, sev) = apply_key(old(self)@, varint_value(rem), payload)
                                .unwrap();
                            assert(self@ =~= m2);
                        }
                        return Ok(Some(ev));
                    },
                }
            }
        }
    }
}

/// For a client with an empty player slot, a player-new then a player-old
/// always succeed, and they return the slot to empty.
pub proof fn lemma_player_new_then_old(m: Model, cid: int, x: int, y: int)
    requires
        m.wf(),
        0 <= cid < MAX_CLIENTS as int,
        m.players[cid] is Absent,
        -0x80000000 <= x <= 0x7fffffff,
        -0x80000000 <= y <= 0x7fffffff,
    ensures
        apply_key(m, player_new_key(cid), seq![x, y]) is Ok,
        ({
            let m1 = apply_key(m, player_new_key(cid), seq![x, y]).unwrap().0;
            &&& m1.players[cid] == PlayerSlot::Present((PlayerSnap { x: x as i32, y: y as i32 }))
            &&& apply_key(m1, player_old_key(cid), Seq::empty()) is Ok
            &&& apply_key(m1, player_old_key(cid), Seq::empty()).unwrap().0.players[cid]
                is Absent
        }),
{
    lemma_key_roundtrip(cid, 0);
    lemma_key_roundtrip(cid, 2);
}

/// A player-diff addressed to a client with an empty player slot always
/// fails with `PlayerDiffWithoutNew`, whatever its payload.
pub proof fn lemma_player_diff_without_new(m: Model, cid: int, payload: Seq<int>)
    requires
        m.wf(),
        0 <= cid < MAX_CLIENTS as int,
        m.players[cid] is Absent,
    ensures
        apply_key(m, player_diff_key(cid), payload) == Err::<(Model, Event), Error>(
            Error::PlayerDiffWithoutNew,
        ),
{
    lemma_key_roundtrip(cid, 1);
}

/// A second player-new to the same client, without an intervening
/// player-old, always fails with `PlayerNewDuplicate`.
pub proof fn lemma_player_new_duplicate(m: Model, cid: int, x: int, y: int, payload: Seq<int>)
    requires
        m.wf(),
        0 <= cid < MAX_CLIENTS as int,
        m.players[cid] is Absent,
        -0x80000000 <= x <= 0x7fffffff,
        -0x80000000 <= y <= 0x7fffffff,
    ensures
        ({
            let m1 = apply_key(m, player_new_key(cid), seq![x, y]).unwrap().0;
            apply_key(m1, player_new_key(cid), payload) == Err::<(Model, Event), Error>(
                Error::PlayerNewDuplicate,
            )
        }),
{
    lemma_key_roundtrip(cid, 0);
}

/// An item addressed to an out-of-range client id fails with
/// `InvalidClientId`, whatever the state and payload.
pub proof fn lemma_invalid_client_id(m: Model, key: int, payload: Seq<int>)
    requires
        key < 0,
        item_cid(key) >= MAX_CLIENTS as int,
    ensures
        apply_key(m, key, payload) == Err::<(Model, Event), Error>(Error::InvalidClientId),
{
}

/// Sum of a run of keys.
pub open spec fn sum_of(ks: Seq<int>) -> int
    decreases ks.len(),
{
    if ks.len() == 0 {
        0
    } else {
        ks[0] + sum_of(ks.skip(1))
    }
}

/// The state after a run of tick-advance keys, stopped at the first failure.
pub open spec fn apply_tick_keys(m: Model, ks: Seq<int>) -> Result<Model, Error>
    decreases ks.len(),
{
    if ks.len() == 0 {
        Ok(m)
    } else {
        match apply_key(m, ks[0], Seq::empty()) {
            Ok(t) => apply_tick_keys(t.0, ks.skip(1)),
            Err(e) => Err(e),
        }
    }
}

pub proof fn lemma_sum_nonneg(ks: Seq<int>)
    requires
        forall|i: int| 0 <= i < ks.len() ==> ks[i] >= 0,
    ensures
        sum_of(ks) >= 0,
    decreases ks.len(),
{
    if ks.len() > 0 {
        lemma_sum_nonneg(ks.skip(1));
    }
}

/// Tick advances are additive: a run of non-negative tick keys whose sum
/// keeps the tick representable succeeds, advances the tick by exactly the
/// sum, and touches no slot.
pub proof fn lemma_tick_additive(m: Model, ks: Seq<int>)
    requires
        m.wf(),
        forall|i: int| 0 <= i < ks.len() ==> ks[i] >= 0,
        m.tick + sum_of(ks) <= 0x7fffffff,
    ensures
        apply_tick_keys(m, ks) is Ok,
        apply_tick_keys(m, ks).unwrap().tick == m.tick + sum_of(ks),
        apply_tick_keys(m, ks).unwrap().players == m.players,
        apply_tick_keys(m, ks).unwrap().inputs == m.inputs,
    decreases ks.len(),
{
    if ks.len() > 0 {
        lemma_sum_nonneg(ks.skip(1));
        let m1 = apply_key(m, ks[0], Seq::empty()).unwrap().0;
        lemma_tick_additive(m1, ks.skip(1));
    }
}

/// A run of non-negative tick keys whose sum would pass the maximum
/// representable tick fails with `TickOverflow`: together with the additive
/// law on every prefix that still fits, the failure comes exactly at the
/// first key that crosses, not earlier.
pub proof fn lemma_tick_overflow(m: Model, ks: Seq<int>)
    requires
        m.wf(),
        forall|i: int| 0 <= i < ks.len() ==> ks[i] >= 0,
        m.tick + sum_of(ks) > 0x7fffffff,
    ensures
        apply_tick_keys(m, ks) == Err::<Model, Error>(Error::TickOverflow),
    decreases ks.len(),
{
    if ks.len() == 0 {
    } else if m.tick + ks[0] > 0x7fffffff {
    } else {
        let m1 = apply_key(m, ks[0], Seq::empty()).unwrap().0;
        lemma_tick_overflow(m1, ks.skip(1));
    }
}

/// Reads two consecutive varints.
fn read_two(p: &mut Unpacker) -> (r: Result<(i32, i32), UnexpectedEnd>)
    requires
        old(p).wf(),
    ensures
        final(p).wf(),
        final(p).bytes() == old(p).bytes(),
        ints_ok(old(p).remaining(), 2) ==> {
            &&& r is Ok
            &&& ints_values(old(p).remaining(), 2) =~= seq![
                r.unwrap().0 as int,
                r.unwrap().1 as int,
            ]
            &&& final(p).pos() == old(p).pos() + ints_size(old(p).remaining(), 2)
        },
        !ints_ok(old(p).remaining(), 2) ==> r is Err,
{
    let ghost r0 = old(p).remaining();
    let a: i32 = match p.read_int() {
        Ok(v) => v,
        Err(e) => {
            return Err(e);
        },
    };
    proof {
        lemma_skip_skip(old(p).bytes(), old(p).pos() as int, varint_size(r0));
    }
    let ghost r1 = r0.skip(varint_size(r0));
    let b: i32 = match p.read_int() {
        Ok(v) => v,
        Err(e) => {
            proof {
                assert(!ints_ok(r1, 1));
                assert(!ints_ok(r0, 2));
            }
            return Err(e);
        },
    };
    proof {
        reveal_with_fuel(crate::unpacker::ints_ok, 3);
        reveal_with_fuel(crate::unpacker::ints_size, 3);
        reveal_with_fuel(crate::unpacker::ints_values, 3);
        assert(ints_values(r1, 1) =~= seq![b as int]);
        assert(ints_values(r0, 2) =~= seq![a as int, b as int]);
    }
    Ok((a, b))
}

/// Reads four consecutive varints.
fn read_four(p: &mut Unpacker) -> (r: Result<(i32, i32, i32, i32), UnexpectedEnd>)
    requires
        old(p).wf(),
    ensures
        final(p).wf(),
        final(p).bytes() == old(p).bytes(),
        ints_ok(old(p).remaining(), 4) ==> {
            &&& r is Ok
            &&& ints_values(old(p).remaining(), 4) =~= seq![
                r.unwrap().0 as int,
                r.unwrap().1 as int,
                r.unwrap().2 as int,
                r.unwrap().3 as int,
            ]
            &&& final(p).pos() == old(p).pos() + ints_size(old(p).remaining(), 4)
        },
        !ints_ok(old(p).remaining(), 4) ==> r is Err,
{
    let ghost r0 = old(p).remaining();
    let a: i32 = match p.read_int() {
        Ok(v) => v,
        Err(e) => {
            proof {
                assert(!ints_ok(r0, 4));
            }
            return Err(e);
        },
    };
    proof {
        lemma_skip_skip(old(p).bytes(), old(p).pos() as int, varint_size(r0));
    }
    let ghost r1 = r0.skip(varint_size(r0));
    let b: i32 = match p.read_int() {
        Ok(v) => v,
        Err(e) => {
            proof {
                assert(!ints_ok(r1, 3));
                assert(!ints_ok(r0, 4));
            }
            return Err(e);
        },
    };
    proof {
        lemma_skip_skip(old(p).bytes(), old(p).pos() as int + varint_size(r0), varint_size(r1));
    }
    let ghost r2 = r1.skip(varint_size(r1));
    let cc: i32 = match p.read_int() {
        Ok(v) => v,
        Err(e) => {
            proof {
                assert(!ints_ok(r2, 2));
                assert(!ints_ok(r1, 3));
                assert(!ints_ok(r0, 4));
            }
            return Err(e);
        },
    };
    proof {
        lemma_skip_skip(
            old(p).bytes(),
            old(p).pos() as int + varint_size(r0) + varint_size(r1),
            varint_size(r2),
        );
    }
    let ghost r3 = r2.skip(varint_size(r2));
    let d: i32 = match p.read_int() {
        Ok(v) => v,
        Err(e) => {
            proof {
                assert(!ints_ok(r3, 1));
                assert(!ints_ok(r2, 2));
                assert(!ints_ok(r1, 3));
                assert(!ints_ok(r0, 4));
            }
            return Err(e);
        },
    };
    proof {
        reveal_with_fuel(crate::unpacker::ints_ok, 5);
        reveal_with_fuel(crate::unpacker::ints_size, 5);
        reveal_with_fuel(crate::unpacker::ints_values, 5);
        assert(ints_values(r3, 1) =~= seq![d as int]);
        assert(ints_values(r2, 2) =~= seq![cc as int, d as int]);
        assert(ints_values(r1, 3) =~= seq![b as int, cc as int, d as int]);
        assert(ints_values(r0, 4) =~= seq![a as int, b as int, cc as int, d as int]);
    }
    Ok((a, b, cc, d))
}

} // verus!

