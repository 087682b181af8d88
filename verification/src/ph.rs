//! Typed state read from one specific target: the player position and the
//! actor manager. The network reads themselves run over the protocol
//! client; this module holds the data model, the fixed addresses, and the
//! decisions of the per-cycle refresh — which actors to fetch, and how to
//! decode what came back.
use vstd::prelude::*;

use crate::client::le32;
use crate::error::GdbError;
use crate::fx32::{Fx16, Fx32, Vec3p};
use crate::pod::{Bool, Pad, Ptr};
use crate::sched::{handle_ph_command, ControlAction, PhCommand};

verus! {

/// Where the target keeps the player position vector.
pub const PLAYER_POS_ADDR: u32 = 0x027e0f94;

/// Where the target keeps the pointer to the actor manager.
pub const ACTOR_MANAGER_PTR_ADDR: u32 = 0x027e0fe4;

/// Offset of the actor table pointer inside the actor manager.
pub const ACTOR_TABLE_OFFSET: u32 = 0x10;

/// The typed state of this target, refreshed once per cycle.
#[derive(Default)]
pub struct State {
    pub player_pos: Vec3p,
    pub actor_manager: PhActorManager,
}

/// What the consumer currently wants fetched.
#[derive(Default)]
pub struct RequestedData {
    pub player: bool,
    pub actor_manager: bool,
    pub actor_indices: Vec<u16>,
}

/// One part of the typed state that a cycle may fetch.
#[derive(PartialEq, Eq, Structural, Debug)]
pub enum PhFetch {
    PlayerPos,
    ActorManager,
}

/// What one cycle fetches for the typed state: the player position if it
/// is wanted, then the actor manager if it is wanted.
pub fn fetch_plan(requested: &RequestedData) -> (r: Vec<PhFetch>)
    ensures
        r@ == if requested.player && requested.actor_manager {
            seq![PhFetch::PlayerPos, PhFetch::ActorManager]
        } else if requested.player {
            seq![PhFetch::PlayerPos]
        } else if requested.actor_manager {
            seq![PhFetch::ActorManager]
        } else {
            Seq::<PhFetch>::empty()
        },
{
    let mut out: Vec<PhFetch> = Vec::new();
    if requested.player {
        out.push(PhFetch::PlayerPos);
    }
    if requested.actor_manager {
        out.push(PhFetch::ActorManager);
    }
    proof {
        if requested.player && requested.actor_manager {
            assert(out@ =~= seq![PhFetch::PlayerPos, PhFetch::ActorManager]);
        } else if requested.player {
            assert(out@ =~= seq![PhFetch::PlayerPos]);
        } else if requested.actor_manager {
            assert(out@ =~= seq![PhFetch::ActorManager]);
        } else {
            assert(out@ =~= Seq::<PhFetch>::empty());
        }
    }
    out
}

/// The target's actor manager: its address, capacity, and actor table.
#[derive(Default)]
pub struct PhActorManager {
    pub address: u32,
    pub max_actor_count: u16,
    pub actor_table_address: u32,
    pub actor_addresses: Vec<u32>,
    pub actors: Vec<PhActorInstance>,
}

impl PhActorManager {
    /// Records the manager header a cycle read: where the manager is,
    /// how many actors it can hold, and where its table is; resizes the
    /// address and actor lists to the capacity.
    pub fn set_header(&mut self, address: u32, max_actor_count: u16, actor_table_address: u32)
        ensures
            final(self).address == address,
            final(self).max_actor_count == max_actor_count,
            final(self).actor_table_address == actor_table_address,
            final(self).actor_addresses@.len() == max_actor_count,
            final(self).actors@.len() == max_actor_count,
            forall|i: int|
                0 <= i < max_actor_count && i < old(self).actor_addresses@.len()
                    ==> final(self).actor_addresses@[i] == old(self).actor_addresses@[i],
    {
        self.address = address;
        self.max_actor_count = max_actor_count;
        self.actor_table_address = actor_table_address;
        self.actor_addresses.resize(max_actor_count as usize, 0);
        self.actors.resize(max_actor_count as usize, PhActorInstance::empty());
    }

    /// Replaces the actor address table with a freshly decoded one.
    pub fn set_actor_addresses(&mut self, addresses: Vec<u32>)
        ensures
            final(self).actor_addresses@ == addresses@,
            final(self).address == old(self).address,
            final(self).max_actor_count == old(self).max_actor_count,
            final(self).actor_table_address == old(self).actor_table_address,
            final(self).actors@.len() == old(self).actors@.len(),
    {
        self.actor_addresses = addresses;
    }
}

/// Decodes an actor address table: consecutive little-endian 32-bit
/// addresses.
pub fn decode_actor_table(bytes: &[u8]) -> (r: Result<Vec<u32>, GdbError>)
    ensures
        match r {
            Ok(v) => {
                &&& bytes@.len() % 4 == 0
                &&& v@.len() == bytes@.len() / 4
                &&& forall|i: int|
                    0 <= i < v@.len() ==> (#[trigger] v@[i]) as int == le32(
                        bytes@.subrange(4 * i, 4 * i + 4),
                    )
            },
            Err(e) => e is LengthMismatch && bytes@.len() % 4 != 0,
        },
{
    if bytes.len() % 4 != 0 {
        return Err(GdbError::LengthMismatch);
    }
    let n = bytes.len() / 4;
    let mut out: Vec<u32> = Vec::new();
    let mut i: usize = 0;
    while i < n
        invariant
            i <= n,
            n == bytes@.len() / 4,
            bytes@.len() % 4 == 0,
            bytes@.len() <= usize::MAX,
            out@.len() == i,
            forall|j: int|
                0 <= j < i ==> (#[trigger] out@[j]) as int == le32(
                    bytes@.subrange(4 * j, 4 * j + 4),
                ),
        decreases n - i,
    {
        proof {
            assert(4 * i + 4 <= bytes@.len()) by (nonlinear_arith)
                requires
                    i < n,
                    n == bytes@.len() / 4,
                    bytes@.len() % 4 == 0,
            ;
        }
        let b0 = bytes[4 * i];
        let b1 = bytes[4 * i + 1];
        let b2 = bytes[4 * i + 2];
        let b3 = bytes[4 * i + 3];
        let v = b0 as u32 + b1 as u32 * 256 + b2 as u32 * 65536 + b3 as u32 * 16777216;
        out.push(v);
        proof {
            let sub = bytes@.subrange(4 * i as int, 4 * i as int + 4);
            assert(sub[0] == bytes@[4 * i as int]);
            assert(sub[1] == bytes@[4 * i as int + 1]);
            assert(sub[2] == bytes@[4 * i as int + 2]);
            assert(sub[3] == bytes@[4 * i as int + 3]);
        }
        i = i + 1;
    }
    Ok(out)
}

/// Which actors a cycle fetches: the requested indices that are within
/// the manager's capacity and whose table slot is not null, each with its
/// address.
pub open spec fn actor_targets_spec(max: u16, addrs: Seq<u32>, idxs: Seq<u16>) -> Seq<(u16, u32)>
    decreases idxs.len(),
{
    if idxs.len() == 0 {
        Seq::empty()
    } else {
        let i = idxs[0];
        let rest = actor_targets_spec(max, addrs, idxs.drop_first());
        if i < max && 0 <= i < addrs.len() && addrs[i as int] != 0 {
            seq![(i, addrs[i as int])] + rest
        } else {
            rest
        }
    }
}

/// Selects the actors one cycle fetches: requested indices beyond the
/// capacity or with a null table slot are skipped, not errors.
pub fn actor_targets(max: u16, addrs: &Vec<u32>, idxs: &Vec<u16>) -> (r: Vec<(u16, u32)>)
    requires
        max <= addrs@.len(),
    ensures
        r@ == actor_targets_spec(max, addrs@, idxs@),
{
    let mut out: Vec<(u16, u32)> = Vec::new();
    let mut k: usize = 0;
    proof {
        assert(idxs@.skip(0) =~= idxs@);
        assert(out@ + actor_targets_spec(max, addrs@, idxs@.skip(0)) =~= actor_targets_spec(
            max,
            addrs@,
            idxs@,
        ));
    }
    while k < idxs.len()
        invariant
            k <= idxs@.len(),
            max <= addrs@.len(),
            out@ + actor_targets_spec(max, addrs@, idxs@.skip(k as int)) =~= actor_targets_spec(
                max,
                addrs@,
                idxs@,
            ),
        decreases idxs@.len() - k,
    {
        let i = idxs[k];
        proof {
            assert(idxs@.skip(k as int)[0] == idxs@[k as int]);
            assert(idxs@.skip(k as int).drop_first() =~= idxs@.skip(k as int + 1));
        }
        if i < max {
            let addr = addrs[i as usize];
            if addr != 0 {
                let ghost pre = out@;
                out.push((i, addr));
                proof {
                    assert(pre.push((i, addr)) + actor_targets_spec(
                        max,
                        addrs@,
                        idxs@.skip(k as int + 1),
                    ) =~= pre + actor_targets_spec(max, addrs@, idxs@.skip(k as int)));
                }
            }
        }
        k = k + 1;
    }
    proof {
        assert(idxs@.skip(idxs@.len() as int) =~= Seq::<u16>::empty());
        assert(out@ + Seq::<(u16, u32)>::empty() =~= out@);
    }
    out
}

/// The player position for this target, refreshed each cycle.
#[derive(Default)]
pub struct PhState {
    pub x: u32,
    pub y: u32,
    pub z: u32,
}

impl PhState {
    /// Records the coordinates one cycle read.
    pub fn set_position(&mut self, x: u32, y: u32, z: u32)
        ensures
            final(self).x == x,
            final(self).y == y,
            final(self).z == z,
    {
        self.x = x;
        self.y = y;
        self.z = z;
    }

    /// Maps a queued command to the action the worker performs on the
    /// connection.
    pub fn handle_command(&self, cmd: &PhCommand) -> (r: ControlAction)
        ensures
            r == match cmd {
                PhCommand::Disconnect => ControlAction::Disconnect,
                PhCommand::StopExecution => ControlAction::StopExecution,
                PhCommand::ContinueExecution => ControlAction::ContinueExecution,
            },
    {
        handle_ph_command(cmd)
    }
}

/// One actor slot, holding the last snapshot read for it.
#[derive(Default, Clone, Copy)]
pub struct PhActorInstance {
    pub base: PhActor,
}

impl PhActorInstance {
    /// A slot holding an all-zero snapshot.
    pub fn empty() -> (r: Self)
        ensures
            r.base.pos == (Vec3p { x: Fx32(0), y: Fx32(0), z: Fx32(0) }),
            r.base.alive.0 == 0,
    {
        PhActorInstance { base: PhActor::zeroed() }
    }
}

/// A four-character actor type tag packed into 32 bits.
#[derive(Default, Clone, Copy, PartialEq, Eq, Structural, Debug)]
pub struct ActorType(pub u32);

/// A reference to an actor by id and table index.
#[derive(Default, Clone, Copy, PartialEq, Eq, Structural, Debug)]
pub struct ActorRef {
    pub id: i32,
    pub index: i32,
}

/// An unexamined block of actor fields.
#[derive(Default, Clone, Copy)]
pub struct ActorUnkStruct020 {
    pub unk_00: [u16; 4],
    pub unk_08: [u8; 2],
    pub unk_0a: [u8; 2],
    pub unk_0c: i8,
    pub unk_0d: u8,
    pub unk_0e: u8,
    pub unk_0f: i8,
    pub unk_10: i32,
}

/// A collision cylinder: a position and a radius, negative for none.
#[derive(Default, Clone, Copy)]
pub struct Cylinder {
    pub pos: Vec3p,
    pub size: Fx32,
}

/// An unexamined block of actor fields.
#[derive(Default, Clone, Copy)]
pub struct ActorUnkStruct09c {
    pub unk_0: u16,
    pub unk_2: i8,
    pub unk_3: u8,
    pub unk_4: Ptr,
}

/// An unexamined block of actor fields.
#[derive(Default, Clone, Copy)]
pub struct ActorUnkStruct0a4 {
    pub unk_00: Bool,
    pub unk_01: Bool,
    pub unk_02: Bool,
    pub unk_03: Bool,
    pub unk_04: Cylinder,
}

/// The actor structure as the target lays it out.
#[derive(Clone, Copy)]
pub struct PhActor {
    pub vtable: u32,
    pub actor_type: ActorType,
    pub actor_ref: ActorRef,
    pub unk_010: u8,
    pub unk_011: u8,
    pub unk_012: i16,
    pub unk_014: Vec3p,
    pub unk_020: ActorUnkStruct020,
    pub unk_034: ActorRef,
    pub unk_03c: i32,
    pub unk_040: ActorRef,
    pub pos: Vec3p,
    pub prev_pos: Vec3p,
    pub vel: Vec3p,
    pub gravity: Fx32,
    pub max_fall: Fx32,
    pub unk_074: i32,
    pub angle: u16,
    pub unk_07a: u16,
    pub hitbox: Cylinder,
    pub unk_08c: Cylinder,
    pub unk_09c: ActorUnkStruct09c,
    pub unk_0a4: ActorUnkStruct0a4,
    pub unk_0b8: Vec3p,
    pub unk_0c4: Pad<24>,
    pub unk_0dc: u16,
    pub unk_0de: u16,
    pub unk_0e0: u16,
    pub unk_0e2: u16,
    pub unk_0e4: i16,
    pub unk_0e6: Pad<26>,
    pub unk_100: Ptr,
    pub unk_104: i16,
    pub unk_106: i8,
    pub unk_107: i8,
    pub unk_108: i8,
    pub unk_109: i8,
    pub unk_10a: Pad<6>,
    pub touching_wall: Bool,
    pub touching_floor: Bool,
    pub unk_112: Bool,
    pub unk_113: Bool,
    pub unk_114: i8,
    pub unk_115: i8,
    pub unk_116: i8,
    pub unk_117: i8,
    pub alive: Bool,
    pub unk_119: i8,
    pub visible: Bool,
    pub unk_11b: Bool,
    pub unk_11c: i8,
    pub unk_11d: Bool,
    pub unk_11e: Fx16,
    pub unk_120: i16,
    pub unk_122: i16,
    pub unk_124: u8,
    pub unk_125: u8,
    pub unk_126: u16,
    pub unk_128: Bool,
    pub unk_129: Bool,
    pub unk_12a: i8,
    pub unk_12b: i8,
    pub unk_12c: i32,
    pub state: i32,
    pub unk_134: i32,
    pub active_frames: i32,
    pub unk_13c: i32,
    pub unk_140: i32,
    pub unk_144: i32,
    pub wall_touch: Vec3p,
    pub inactive: u32,
}

impl PhActor {
    /// An all-zero actor snapshot.
    pub fn zeroed() -> (r: Self)
        ensures
            r.pos == (Vec3p { x: Fx32(0), y: Fx32(0), z: Fx32(0) }),
            r.vel == (Vec3p { x: Fx32(0), y: Fx32(0), z: Fx32(0) }),
            r.alive.0 == 0,
            r.visible.0 == 0,
            r.actor_type.0 == 0,
            r.vtable == 0,
            r.inactive == 0,
    {
        PhActor {
            vtable: 0,
            actor_type: ActorType(0),
            actor_ref: ActorRef { id: 0, index: 0 },
            unk_010: 0,
            unk_011: 0,
            unk_012: 0,
            unk_014: Vec3p { x: Fx32(0), y: Fx32(0), z: Fx32(0) },
            unk_020: ActorUnkStruct020 {
                unk_00: [0u16, 0u16, 0u16, 0u16],
                unk_08: [0u8, 0u8],
                unk_0a: [0u8, 0u8],
                unk_0c: 0,
                unk_0d: 0,
                unk_0e: 0,
                unk_0f: 0,
                unk_10: 0,
            },
            unk_034: ActorRef { id: 0, index: 0 },
            unk_03c: 0,
            unk_040: ActorRef { id: 0, index: 0 },
            pos: Vec3p { x: Fx32(0), y: Fx32(0), z: Fx32(0) },
            prev_pos: Vec3p { x: Fx32(0), y: Fx32(0), z: Fx32(0) },
            vel: Vec3p { x: Fx32(0), y: Fx32(0), z: Fx32(0) },
            gravity: Fx32(0),
            max_fall: Fx32(0),
            unk_074: 0,
            angle: 0,
            unk_07a: 0,
            hitbox: Cylinder { pos: Vec3p { x: Fx32(0), y: Fx32(0), z: Fx32(0) }, size: Fx32(0) },
            unk_08c: Cylinder { pos: Vec3p { x: Fx32(0), y: Fx32(0), z: Fx32(0) }, size: Fx32(0) },
            unk_09c: ActorUnkStruct09c { unk_0: 0, unk_2: 0, unk_3: 0, unk_4: Ptr::new(0) },
            unk_0a4: ActorUnkStruct0a4 {
                unk_00: Bool(0),
                unk_01: Bool(0),
                unk_02: Bool(0),
                unk_03: Bool(0),
                unk_04: Cylinder {
                    pos: Vec3p { x: Fx32(0), y: Fx32(0), z: Fx32(0) },
                    size: Fx32(0),
                },
            },
            unk_0b8: Vec3p { x: Fx32(0), y: Fx32(0), z: Fx32(0) },
            unk_0c4: Pad([0u8; 24]),
            unk_0dc: 0,
            unk_0de: 0,
            unk_0e0: 0,
            unk_0e2: 0,
            unk_0e4: 0,
            unk_0e6: Pad([0u8; 26]),
            unk_100: Ptr::new(0),
            unk_104: 0,
            unk_106: 0,
            unk_107: 0,
            unk_108: 0,
            unk_109: 0,
            unk_10a: Pad([0u8; 6]),
            touching_wall: Bool(0),
            touching_floor: Bool(0),
            unk_112: Bool(0),
            unk_113: Bool(0),
            unk_114: 0,
            unk_115: 0,
            unk_116: 0,
            unk_117: 0,
            alive: Bool(0),
            unk_119: 0,
            visible: Bool(0),
            unk_11b: Bool(0),
            unk_11c: 0,
            unk_11d: Bool(0),
            unk_11e: Fx16(0),
            unk_120: 0,
            unk_122: 0,
            unk_124: 0,
            unk_125: 0,
            unk_126: 0,
            unk_128: Bool(0),
            unk_129: Bool(0),
            unk_12a: 0,
            unk_12b: 0,
            unk_12c: 0,
            state: 0,
            unk_134: 0,
            active_frames: 0,
            unk_13c: 0,
            unk_140: 0,
            unk_144: 0,
            wall_touch: Vec3p { x: Fx32(0), y: Fx32(0), z: Fx32(0) },
            inactive: 0,
        }
    }
}

impl Default for PhActor {
    /// The all-zero snapshot.
    fn default() -> (r: Self)
        ensures
            r.alive.0 == 0,
    {
        PhActor::zeroed()
    }
}

} // verus!
