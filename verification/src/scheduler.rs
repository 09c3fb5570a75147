//! The per-tick scheduler: event handling, set diffing, despawn, batched
//! generation and sequential application.
//!
//! One tick runs a fixed sequence: drain the message queue (handling reload
//! and border toggles), compute the visible set for the viewport, diff it
//! against the store, despawn every stale chunk, generate the missing chunks
//! in a parallel batch, and apply the results one at a time. All despawns of
//! a tick complete before any of its spawns is applied, so a position never
//! holds two live render handles.

use vstd::prelude::*;

use crate::bitmap::Bitmap;
use crate::chunk::{Chunk, ChunkBorderState};
use crate::chunk_position::{placement_offset_spec, ChunkPosition};
use crate::config::MapConfig;
use crate::noise::NoiseField;
use crate::parallel::{generate_batch, package_wf};
use crate::store::{ChunkStore, RenderHandle};
use crate::visible::{in_visible_range, visible_set, MAX_CAMERA_COORD, MAX_HALF_EXTENT};

verus! {

/// A signal from a collaborator, drained once per tick.
#[derive(Debug, Clone, Copy, PartialEq, Eq, Structural)]
pub enum Message {
    /// Request a full reload: despawn everything and rebuild the noise
    /// field from the current configuration.
    Reload,
    /// Toggle chunk-border visibility; implies a reload so that spawned
    /// chunks are re-rasterized consistently.
    BorderToggle,
}

/// How many border toggles a batch of messages holds.
pub open spec fn toggle_count(messages: Seq<Message>) -> nat
    decreases messages.len(),
{
    if messages.len() == 0 {
        0
    } else {
        toggle_count(messages.drop_last()) + (if messages.last() is BorderToggle {
            1nat
        } else {
            0nat
        })
    }
}

/// The border state left after draining a batch of messages: an odd number
/// of toggles flips the state.
pub open spec fn border_after(
    state: ChunkBorderState,
    messages: Seq<Message>,
) -> ChunkBorderState {
    if toggle_count(messages) % 2 == 1 {
        state.next_spec()
    } else {
        state
    }
}

/// A reload is due exactly when the batch holds any message: a reload
/// request directly, or a border toggle, which implies one. Multiple
/// requests within a tick coalesce into exactly one reload.
pub open spec fn reload_requested(messages: Seq<Message>) -> bool {
    messages.len() > 0
}

/// The queue of collaborator signals, drained once per tick.
pub struct MessageQueue {
    messages: Vec<Message>,
}

impl MessageQueue {
    /// The queued messages, oldest first.
    pub closed spec fn messages_seq(self) -> Seq<Message> {
        self.messages@
    }

    /// An empty queue.
    pub fn new() -> (queue: MessageQueue)
        ensures
            queue.messages_seq().len() == 0,
    {
        MessageQueue { messages: Vec::new() }
    }

    /// Queues one signal for the next tick.
    pub fn push(&mut self, message: Message)
        ensures
            final(self).messages_seq() == old(self).messages_seq().push(message),
    {
        self.messages.push(message);
    }

    /// Drains the queue, coalescing its messages: whether a reload is due,
    /// and whether the border state flips.
    pub fn drain(&mut self) -> (flags: (bool, bool))
        ensures
            final(self).messages_seq().len() == 0,
            flags.0 == reload_requested(old(self).messages_seq()),
            flags.1 == (toggle_count(old(self).messages_seq()) % 2 == 1),
    {
        let mut toggles_odd = false;
        let mut i: usize = 0;
        while i < self.messages.len()
            invariant
                *self == *old(self),
                i <= self.messages_seq().len(),
                toggles_odd == (toggle_count(self.messages_seq().take(i as int)) % 2 == 1),
            decreases self.messages_seq().len() - i,
        {
            let ghost taken = self.messages_seq().take(i as int);
            match self.messages[i] {
                Message::BorderToggle => {
                    toggles_odd = !toggles_odd;
                },
                Message::Reload => {},
            }
            proof {
                let next = self.messages_seq().take(i + 1);
                assert(next.drop_last() =~= taken);
                assert(next.last() == self.messages_seq()[i as int]);
            }
            i += 1;
        }
        let any = self.messages.len() > 0;
        proof {
            assert(self.messages_seq().take(self.messages_seq().len() as int)
                =~= self.messages_seq());
        }
        self.messages.clear();
        (any, toggles_odd)
    }
}

/// Whether a sequence of positions holds the given one.
fn positions_contain(positions: &Vec<ChunkPosition>, position: ChunkPosition) -> (found: bool)
    ensures
        found == positions@.contains(position),
{
    let mut i: usize = 0;
    while i < positions.len()
        invariant
            i <= positions@.len(),
            forall|j: int| 0 <= j < i ==> positions@[j] != position,
        decreases positions@.len() - i,
    {
        if positions[i] == position {
            return true;
        }
        i += 1;
    }
    false
}

/// Diffs the target visible set against the materialized set: which
/// positions must be spawned (visible but not materialized) and which must
/// be despawned (materialized but no longer visible). Each output holds its
/// positions exactly once.
pub fn diff_visible(store: &ChunkStore, visible: &Vec<ChunkPosition>) -> (diff: (
    Vec<ChunkPosition>,
    Vec<ChunkPosition>,
))
    requires
        store.wf(),
        forall|i: int, j: int|
            0 <= i < visible@.len() && 0 <= j < visible@.len() && i != j ==> #[trigger] visible@[i]
                != #[trigger] visible@[j],
    ensures
        forall|p: ChunkPosition| #[trigger] diff.0@.contains(p) == (visible@.contains(p)
            && !store.has_position(p)),
        forall|p: ChunkPosition| #[trigger] diff.1@.contains(p) == (store.has_position(p)
            && !visible@.contains(p)),
        forall|i: int, j: int|
            0 <= i < diff.0@.len() && 0 <= j < diff.0@.len() && i != j ==> #[trigger] diff.0@[i]
                != #[trigger] diff.0@[j],
        forall|i: int, j: int|
            0 <= i < diff.1@.len() && 0 <= j < diff.1@.len() && i != j ==> #[trigger] diff.1@[i]
                != #[trigger] diff.1@[j],
        diff.0@.len() <= visible@.len(),
{
    let mut to_spawn: Vec<ChunkPosition> = Vec::new();
    let mut i: usize = 0;
    while i < visible.len()
        invariant
            store.wf(),
            i <= visible@.len(),
            forall|a: int, b: int|
                0 <= a < visible@.len() && 0 <= b < visible@.len() && a != b
                    ==> #[trigger] visible@[a] != #[trigger] visible@[b],
            to_spawn@.len() <= i,
            forall|p: ChunkPosition| #[trigger] to_spawn@.contains(p) == (exists|j: int|
                0 <= j < i && #[trigger] visible@[j] == p && !store.has_position(p)),
            forall|a: int, b: int|
                0 <= a < to_spawn@.len() && 0 <= b < to_spawn@.len() && a != b
                    ==> #[trigger] to_spawn@[a] != #[trigger] to_spawn@[b],
        decreases visible@.len() - i,
    {
        let position = visible[i];
        if !store.contains_position(position) {
            let ghost prev = to_spawn@;
            proof {
                assert(!prev.contains(position)) by {
                    if prev.contains(position) {
                        let j = choose|j: int|
                            0 <= j < i && #[trigger] visible@[j] == position
                                && !store.has_position(position);
                        assert(visible@[j] == visible@[i as int]);
                    }
                }
            }
            to_spawn.push(position);
            proof {
                assert forall|p: ChunkPosition| #[trigger] to_spawn@.contains(p) == (exists|j: int|
                    0 <= j < i + 1 && #[trigger] visible@[j] == p && !store.has_position(p)) by {
                    if to_spawn@.contains(p) {
                        let k = choose|k: int| 0 <= k < to_spawn@.len() && to_spawn@[k] == p;
                        if k < prev.len() {
                            assert(prev[k] == p);
                            assert(prev.contains(p));
                        } else {
                            assert(p == position);
                            assert(visible@[i as int] == p && !store.has_position(p));
                        }
                    }
                    if exists|j: int|
                        0 <= j < i + 1 && #[trigger] visible@[j] == p && !store.has_position(p) {
                        let j = choose|j: int|
                            0 <= j < i + 1 && #[trigger] visible@[j] == p && !store.has_position(
                                p,
                            );
                        if j < i {
                            assert(prev.contains(p));
                            let k = choose|k: int| 0 <= k < prev.len() && prev[k] == p;
                            assert(to_spawn@[k] == p);
                        } else {
                            assert(to_spawn@[prev.len() as int] == p);
                        }
                    }
                }
            }
        } else {
            proof {
                assert forall|p: ChunkPosition| #[trigger] to_spawn@.contains(p) == (exists|j: int|
                    0 <= j < i + 1 && #[trigger] visible@[j] == p && !store.has_position(p)) by {
                    if exists|j: int|
                        0 <= j < i + 1 && #[trigger] visible@[j] == p && !store.has_position(p) {
                        let j = choose|j: int|
                            0 <= j < i + 1 && #[trigger] visible@[j] == p && !store.has_position(
                                p,
                            );
                        assert(j < i);
                    }
                }
            }
        }
        i += 1;
    }
    let spawned = store.positions();
    let mut to_despawn: Vec<ChunkPosition> = Vec::new();
    let mut k: usize = 0;
    while k < spawned.len()
        invariant
            store.wf(),
            k <= spawned@.len(),
            spawned@.len() == store.entries_seq().len(),
            forall|a: int, b: int|
                0 <= a < spawned@.len() && 0 <= b < spawned@.len() && a != b
                    ==> #[trigger] spawned@[a] != #[trigger] spawned@[b],
            forall|p: ChunkPosition| #[trigger] spawned@.contains(p) == store.has_position(p),
            forall|p: ChunkPosition| #[trigger] to_despawn@.contains(p) == (exists|j: int|
                0 <= j < k && #[trigger] spawned@[j] == p && !visible@.contains(p)),
            forall|a: int, b: int|
                0 <= a < to_despawn@.len() && 0 <= b < to_despawn@.len() && a != b
                    ==> #[trigger] to_despawn@[a] != #[trigger] to_despawn@[b],
        decreases spawned@.len() - k,
    {
        let position = spawned[k];
        if !positions_contain(visible, position) {
            let ghost prev = to_despawn@;
            proof {
                assert(!prev.contains(position)) by {
                    if prev.contains(position) {
                        let j = choose|j: int|
                            0 <= j < k && #[trigger] spawned@[j] == position && !visible@.contains(
                                position,
                            );
                        assert(spawned@[j] == spawned@[k as int]);
                    }
                }
            }
            to_despawn.push(position);
            proof {
                assert forall|p: ChunkPosition| #[trigger] to_despawn@.contains(p) == (exists|
                    j: int,
                |
                    0 <= j < k + 1 && #[trigger] spawned@[j] == p && !visible@.contains(p)) by {
                    if to_despawn@.contains(p) {
                        let m = choose|m: int| 0 <= m < to_despawn@.len() && to_despawn@[m] == p;
                        if m < prev.len() {
                            assert(prev[m] == p);
                            assert(prev.contains(p));
                        } else {
                            assert(p == position);
                            assert(spawned@[k as int] == p && !visible@.contains(p));
                        }
                    }
                    if exists|j: int|
                        0 <= j < k + 1 && #[trigger] spawned@[j] == p && !visible@.contains(p) {
                        let j = choose|j: int|
                            0 <= j < k + 1 && #[trigger] spawned@[j] == p && !visible@.contains(p);
                        if j < k {
                            assert(prev.contains(p));
                            let m = choose|m: int| 0 <= m < prev.len() && prev[m] == p;
                            assert(to_despawn@[m] == p);
                        } else {
                            assert(to_despawn@[prev.len() as int] == p);
                        }
                    }
                }
            }
        } else {
            proof {
                assert forall|p: ChunkPosition| #[trigger] to_despawn@.contains(p) == (exists|
                    j: int,
                |
                    0 <= j < k + 1 && #[trigger] spawned@[j] == p && !visible@.contains(p)) by {
                    if exists|j: int|
                        0 <= j < k + 1 && #[trigger] spawned@[j] == p && !visible@.contains(p) {
                        let j = choose|j: int|
                            0 <= j < k + 1 && #[trigger] spawned@[j] == p && !visible@.contains(p);
                        assert(j < k);
                    }
                }
            }
        }
        k += 1;
    }
    proof {
        assert forall|p: ChunkPosition| #[trigger] to_spawn@.contains(p) == (visible@.contains(p)
            && !store.has_position(p)) by {
            if visible@.contains(p) && !store.has_position(p) {
                let j = choose|j: int| 0 <= j < visible@.len() && visible@[j] == p;
                assert(0 <= j < visible@.len() && visible@[j] == p && !store.has_position(p));
            }
        }
        assert forall|p: ChunkPosition| #[trigger] to_despawn@.contains(p) == (store.has_position(
            p,
        ) && !visible@.contains(p)) by {
            if store.has_position(p) && !visible@.contains(p) {
                assert(spawned@.contains(p));
                let j = choose|j: int| 0 <= j < spawned@.len() && spawned@[j] == p;
                assert(0 <= j < spawned@.len() && spawned@[j] == p && !visible@.contains(p));
            }
        }
    }
    (to_spawn, to_despawn)
}

/// The camera's world position and the viewport's half-extent, queried once
/// per tick from the viewport provider.
#[derive(Debug, Clone, Copy)]
pub struct Viewport {
    /// World-space camera position, in pixels.
    pub camera: (i32, i32),
    /// Half of the visible extent along each axis, in pixels.
    pub half_extent: (u32, u32),
}

impl Viewport {
    /// Camera and extent within the coordinate ranges the visible-set
    /// calculator accepts.
    pub open spec fn in_bounds(self) -> bool {
        &&& -MAX_CAMERA_COORD <= self.camera.0 <= MAX_CAMERA_COORD
        &&& -MAX_CAMERA_COORD <= self.camera.1 <= MAX_CAMERA_COORD
        &&& self.half_extent.0 <= MAX_HALF_EXTENT
        &&& self.half_extent.1 <= MAX_HALF_EXTENT
    }
}

/// Everything the scheduler owns across ticks.
pub struct WorldState {
    /// The parameters in effect; written only by the configuration
    /// collaborator, which pairs every write with a reload request.
    pub config: MapConfig,
    /// The noise field, rebuilt from the configuration on reload.
    pub noise: NoiseField,
    /// The chunks currently materialized.
    pub store: ChunkStore,
    /// Whether rasterization overlays chunk borders.
    pub chunk_borders: ChunkBorderState,
    /// Signals queued by collaborators since the last tick.
    pub queue: MessageQueue,
}

impl WorldState {
    /// A usable world: valid configuration and a consistent store.
    pub open spec fn wf(self) -> bool {
        &&& self.config.valid()
        &&& self.store.wf()
    }

    /// A fresh world around a configuration: empty store, empty queue,
    /// borders hidden, noise derived from the configuration.
    pub fn new(config: MapConfig) -> (world: WorldState)
        requires
            config.valid(),
        ensures
            world.wf(),
            world.config == config,
            world.noise.matches(config),
            world.store.entries_seq().len() == 0,
            world.store.next_handle_spec() == 0,
            world.chunk_borders == ChunkBorderState::Hidden,
            world.queue.messages_seq().len() == 0,
    {
        let noise = NoiseField::new(&config);
        WorldState {
            config,
            noise,
            store: ChunkStore::new(),
            chunk_borders: ChunkBorderState::Hidden,
            queue: MessageQueue::new(),
        }
    }
}

/// One newly materialized chunk, handed to the render collaborator for
/// display registration.
pub struct SpawnedChunk {
    /// The chunk's grid coordinate.
    pub position: ChunkPosition,
    /// The generated tile grid.
    pub chunk: Chunk,
    /// The chunk's rasterization.
    pub bitmap: Bitmap,
    /// World-space placement offset of the bitmap.
    pub offset: (i64, i64),
    /// The render handle minted for the chunk.
    pub handle: RenderHandle,
}

/// What a tick hands to the render collaborator: releases first, then new
/// chunks.
pub struct TickOutput {
    /// Released chunks: after the tick their handles are invalid.
    pub despawned: Vec<(ChunkPosition, RenderHandle)>,
    /// Newly materialized chunks.
    pub spawned: Vec<SpawnedChunk>,
}

/// A correct spawn record: the generated package for its position, and the
/// placement offset that the position's formula gives.
pub open spec fn spawned_chunk_wf(
    spawned: SpawnedChunk,
    field: NoiseField,
    config: MapConfig,
    borders: ChunkBorderState,
) -> bool {
    &&& package_wf((spawned.position, spawned.chunk, spawned.bitmap), spawned.position, field, config, borders)
    &&& spawned.offset.0 == placement_offset_spec(config.chunk_size_spec(), spawned.position.x as int)
    &&& spawned.offset.1 == placement_offset_spec(config.chunk_size_spec(), spawned.position.y as int)
}

/// Whether a materialized chunk survives a tick with its handle: no reload
/// was pending, and the viewport — if it was usable — still sees it.
pub open spec fn retained(
    position: ChunkPosition,
    world: WorldState,
    viewport: Option<Viewport>,
) -> bool {
    &&& !reload_requested(world.queue.messages_seq())
    &&& world.store.has_position(position)
    &&& (viewport_active(viewport) ==> in_visible_range(
        position,
        (viewport->Some_0).camera,
        (viewport->Some_0).half_extent,
        world.config,
    ))
}

/// Whether a tick has usable viewport data: a camera is present and both
/// half-extents are nonzero. Anything else — no camera, or a degenerate
/// zero extent — is transient unavailability: the tick leaves the
/// materialized set alone and retries next tick.
pub open spec fn viewport_active(viewport: Option<Viewport>) -> bool {
    &&& viewport is Some
    &&& (viewport->Some_0).half_extent.0 > 0
    &&& (viewport->Some_0).half_extent.1 > 0
}

/// Headroom the handle counter must keep so that one tick can mint a handle
/// for every position of a maximal visible set.
pub const HANDLE_HEADROOM: u64 = 0x10000000000;

/// A reload is idempotent with respect to coverage: the visible set depends
/// only on the viewport and the configuration, so the tick after a reload —
/// which found the store empty — materializes exactly the coordinate set
/// that any earlier tick materialized under the same viewport and
/// configuration. Only the handles are fresh.
pub proof fn lemma_reload_repopulates(
    before: ChunkStore,
    after: ChunkStore,
    v: Viewport,
    config: MapConfig,
)
    requires
        forall|p: ChunkPosition| #[trigger] before.has_position(p) == in_visible_range(
            p,
            v.camera,
            v.half_extent,
            config,
        ),
        forall|p: ChunkPosition| #[trigger] after.has_position(p) == in_visible_range(
            p,
            v.camera,
            v.half_extent,
            config,
        ),
    ensures
        before.spawned_set() == after.spawned_set(),
{
    assert(before.spawned_set() =~= after.spawned_set());
}

/// Runs one tick: drains the queue (a pending reload despawns everything
/// and rebuilds the noise field; border toggles flip the border state),
/// computes the visible set for the viewport, despawns every stale chunk,
/// generates the missing chunks in one parallel batch, and applies the
/// results sequentially. Without usable viewport data — no camera, or a
/// viewport with a zero extent — the tick only handles the queue and
/// leaves the materialized set alone: a no-op, not an error.
pub fn tick(world: &mut WorldState, viewport: Option<Viewport>) -> (output: TickOutput)
    requires
        old(world).wf(),
        old(world).noise.matches(old(world).config) || reload_requested(
            old(world).queue.messages_seq(),
        ),
        match viewport {
            Some(v) => v.in_bounds(),
            None => true,
        },
        old(world).store.next_handle_spec() <= u64::MAX - HANDLE_HEADROOM,
    ensures
        final(world).wf(),
        final(world).config == old(world).config,
        final(world).queue.messages_seq().len() == 0,
        final(world).chunk_borders == border_after(
            old(world).chunk_borders,
            old(world).queue.messages_seq(),
        ),
        final(world).noise.matches(old(world).config),
        !reload_requested(old(world).queue.messages_seq()) ==> final(world).noise == old(
            world,
        ).noise,
        final(world).store.next_handle_spec() == old(world).store.next_handle_spec()
            + output.spawned@.len(),
        viewport_active(viewport) ==> forall|p: ChunkPosition| #[trigger] final(world).store.has_position(p)
            == in_visible_range(
            p,
            (viewport->Some_0).camera,
            (viewport->Some_0).half_extent,
            old(world).config,
        ),
        !viewport_active(viewport) ==> forall|p: ChunkPosition| #[trigger] final(world).store.has_position(p)
            == retained(p, *old(world), viewport),
        forall|p: ChunkPosition|
            retained(p, *old(world), viewport) ==> #[trigger] final(world).store.has_position(p)
                && final(world).store.handle_of(p) == old(world).store.handle_of(p),
        forall|i: int|
            0 <= i < output.despawned@.len() ==> old(world).store.has_position(
                (#[trigger] output.despawned@[i]).0,
            ) && output.despawned@[i].1 == old(world).store.handle_of(output.despawned@[i].0),
        forall|p: ChunkPosition|
            (exists|i: int|
                0 <= i < output.despawned@.len() && (#[trigger] output.despawned@[i]).0 == p) == (
            old(world).store.has_position(p) && !retained(p, *old(world), viewport)),
        forall|i: int, j: int|
            0 <= i < output.despawned@.len() && 0 <= j < output.despawned@.len() && i != j ==> (
            #[trigger] output.despawned@[i]).0 != (#[trigger] output.despawned@[j]).0,
        forall|p: ChunkPosition|
            (exists|i: int|
                0 <= i < output.spawned@.len() && (#[trigger] output.spawned@[i]).position == p)
                == (viewport_active(viewport) && #[trigger] in_visible_range(
                p,
                (viewport->Some_0).camera,
                (viewport->Some_0).half_extent,
                old(world).config,
            ) && !retained(p, *old(world), viewport)),
        forall|i: int|
            0 <= i < output.spawned@.len() ==> spawned_chunk_wf(
                #[trigger] output.spawned@[i],
                final(world).noise,
                old(world).config,
                final(world).chunk_borders,
            ),
        forall|i: int|
            0 <= i < output.spawned@.len() ==> (#[trigger] output.spawned@[i]).handle >= old(
                world,
            ).store.next_handle_spec(),
        forall|i: int|
            0 <= i < output.spawned@.len() ==> final(world).store.has_position(
                (#[trigger] output.spawned@[i]).position,
            ) && final(world).store.handle_of(output.spawned@[i].position)
                == output.spawned@[i].handle,
        forall|i: int, j: int|
            0 <= i < output.spawned@.len() && 0 <= j < output.spawned@.len() && i != j ==> (
            #[trigger] output.spawned@[i]).position != (#[trigger] output.spawned@[j]).position
                && output.spawned@[i].handle != output.spawned@[j].handle,
        output.spawned@.len() <= HANDLE_HEADROOM,
{
    let ghost w0 = *old(world);
    let flags = world.queue.drain();
    let reload = flags.0;
    if flags.1 {
        world.chunk_borders = world.chunk_borders.next();
    }
    let mut despawned: Vec<(ChunkPosition, RenderHandle)> = Vec::new();
    if reload {
        despawned = world.store.drain_all();
        world.noise = NoiseField::new(&world.config);
        proof {
            w0.store.lemma_entries_characterize();
        }
    }
    let ghost store_mid = world.store;
    let ghost despawned_mid = despawned@;
    let ghost noise_mid = world.noise;
    let ghost borders_mid = world.chunk_borders;
    proof {
        assert(noise_mid.chunk_tile_count == w0.config.chunk_tile_count);
        if reload {
            assert(forall|i: int|
                0 <= i < despawned_mid.len() ==> w0.store.has_position(
                    (#[trigger] despawned_mid[i]).0,
                ) && despawned_mid[i].1 == w0.store.handle_of(despawned_mid[i].0));
        }
        // After the reload phase the store holds exactly the entries that
        // were not dropped, with their old handles.
        assert(forall|p: ChunkPosition| #[trigger] store_mid.has_position(p) == (!reload
            && w0.store.has_position(p)));
        assert(forall|p: ChunkPosition|
            store_mid.has_position(p) ==> #[trigger] store_mid.handle_of(p)
                == w0.store.handle_of(p));
        assert forall|p: ChunkPosition|
            (exists|i: int|
                0 <= i < despawned_mid.len() && (#[trigger] despawned_mid[i]).0 == p) == (reload
            && w0.store.has_position(p)) by {
            if reload && w0.store.has_position(p) {
                let k = w0.store.index_of(p);
                assert(despawned_mid[k].0 == p);
            }
        }
    }
    let active = match viewport {
        Some(v) => v.half_extent.0 >= 1 && v.half_extent.1 >= 1,
        None => false,
    };
    proof {
        assert(active == viewport_active(viewport));
    }
    if !active {
        {
            let output = TickOutput { despawned, spawned: Vec::new() };
            proof {
                assert(world.store == store_mid);
                assert forall|p: ChunkPosition|
                    (exists|i: int|
                        0 <= i < output.despawned@.len() && (#[trigger] output.despawned@[i]).0
                            == p) == (w0.store.has_position(p) && !retained(p, w0, viewport)) by {
                    if exists|i: int|
                        0 <= i < output.despawned@.len() && (#[trigger] output.despawned@[i]).0
                            == p {
                        let i = choose|i: int|
                            0 <= i < output.despawned@.len() && (
                            #[trigger] output.despawned@[i]).0 == p;
                        assert(despawned_mid[i].0 == p);
                    }
                    if w0.store.has_position(p) && !retained(p, w0, viewport) {
                        assert(reload);
                        let k = w0.store.index_of(p);
                        assert(despawned_mid[k].0 == p);
                        assert(output.despawned@[k].0 == p);
                    }
                }
            }
            output
        }
    } else {
        {
            let v = viewport.unwrap();
            let visible = visible_set(v.camera, v.half_extent, &world.config);
            let diff = diff_visible(&world.store, &visible);
            let to_spawn = diff.0;
            let to_despawn = diff.1;
            // Despawn every stale chunk before any spawn is applied.
            let mut d: usize = 0;
            while d < to_despawn.len()
                invariant
                    world.store.wf(),
                    world.config == w0.config,
                    world.noise == noise_mid,
                    world.chunk_borders == borders_mid,
                    world.queue.messages_seq().len() == 0,
                    d <= to_despawn@.len(),
                    world.store.next_handle_spec() == store_mid.next_handle_spec(),
                    forall|a: int, b: int|
                        0 <= a < to_despawn@.len() && 0 <= b < to_despawn@.len() && a != b
                            ==> #[trigger] to_despawn@[a] != #[trigger] to_despawn@[b],
                    forall|p: ChunkPosition| #[trigger] to_despawn@.contains(p) == (
                    store_mid.has_position(p) && !visible@.contains(p)),
                    forall|p: ChunkPosition| #[trigger] world.store.has_position(p) == (
                    store_mid.has_position(p) && !to_despawn@.take(d as int).contains(p)),
                    forall|p: ChunkPosition|
                        world.store.has_position(p) ==> #[trigger] world.store.handle_of(p)
                            == store_mid.handle_of(p),
                    despawned@ == despawned_mid + to_despawn@.take(d as int).map_values(
                        |p: ChunkPosition| (p, store_mid.handle_of(p)),
                    ),
                decreases to_despawn@.len() - d,
            {
                let position = to_despawn[d];
                proof {
                    assert(to_despawn@.contains(position));
                    assert(!to_despawn@.take(d as int).contains(position)) by {
                        if to_despawn@.take(d as int).contains(position) {
                            let k = choose|k: int|
                                0 <= k < d && to_despawn@.take(d as int)[k] == position;
                            assert(to_despawn@[k] == to_despawn@[d as int]);
                        }
                    }
                    assert(world.store.has_position(position));
                }
                let released = world.store.remove(position);
                match released {
                    Some(handle) => {
                        despawned.push((position, handle));
                    },
                    None => {
                        // Unreachable: the position was still materialized.
                        proof {
                            assert(false);
                        }
                    },
                }
                proof {
                    let taken = to_despawn@.take(d as int);
                    let taken_next = to_despawn@.take(d + 1);
                    assert(taken_next.drop_last() =~= taken);
                    assert(taken_next.last() == position);
                    assert forall|p: ChunkPosition| #[trigger] taken_next.contains(p) == (
                    taken.contains(p) || p == position) by {
                        if taken_next.contains(p) {
                            let k = choose|k: int| 0 <= k < taken_next.len() && taken_next[k] == p;
                            if k < taken.len() {
                                assert(taken[k] == p);
                            }
                        }
                        if taken.contains(p) {
                            let k = choose|k: int| 0 <= k < taken.len() && taken[k] == p;
                            assert(taken_next[k] == p);
                        }
                        if p == position {
                            assert(taken_next[d as int] == p);
                        }
                    }
                    assert(despawned@ =~= despawned_mid + taken_next.map_values(
                        |p: ChunkPosition| (p, store_mid.handle_of(p)),
                    ));
                }
                d += 1;
            }
            proof {
                assert(to_despawn@.take(to_despawn@.len() as int) =~= to_despawn@);
            }
            let ghost store_desp = world.store;
            // Generate the whole batch in parallel, then apply sequentially.
            let mut packages = generate_batch(
                &to_spawn,
                &world.noise,
                &world.config,
                world.chunk_borders,
            );
            let ghost all_packages = packages@;
            let mut spawned: Vec<SpawnedChunk> = Vec::new();
            let mut s: usize = 0;
            while s < to_spawn.len()
                invariant
                    world.store.wf(),
                    world.config == w0.config,
                    world.noise == noise_mid,
                    world.chunk_borders == borders_mid,
                    world.queue.messages_seq().len() == 0,
                    w0.config.valid(),
                    s <= to_spawn@.len(),
                    to_spawn@.len() <= visible@.len(),
                    visible@.len() <= 0x10000000000,
                    store_desp.next_handle_spec() <= u64::MAX - HANDLE_HEADROOM,
                    all_packages.len() == to_spawn@.len(),
                    packages@ == all_packages.skip(s as int),
                    forall|i: int|
                        0 <= i < to_spawn@.len() ==> #[trigger] package_wf(
                            all_packages[i],
                            to_spawn@[i],
                            world.noise,
                            w0.config,
                            world.chunk_borders,
                        ),
                    forall|a: int, b: int|
                        0 <= a < to_spawn@.len() && 0 <= b < to_spawn@.len() && a != b
                            ==> #[trigger] to_spawn@[a] != #[trigger] to_spawn@[b],
                    forall|p: ChunkPosition| #[trigger] to_spawn@.contains(p) == (
                    visible@.contains(p) && !store_desp.has_position(p)),
                    world.store.next_handle_spec() == store_desp.next_handle_spec() + s,
                    forall|p: ChunkPosition| #[trigger] world.store.has_position(p) == (
                    store_desp.has_position(p) || to_spawn@.take(s as int).contains(p)),
                    forall|p: ChunkPosition|
                        store_desp.has_position(p) ==> #[trigger] world.store.handle_of(p)
                            == store_desp.handle_of(p),
                    spawned@.len() == s,
                    forall|k: int|
                        0 <= k < s ==> (#[trigger] spawned@[k]).position == to_spawn@[k],
                    forall|k: int|
                        0 <= k < s ==> (#[trigger] spawned@[k]).handle
                            == store_desp.next_handle_spec() + k,
                    forall|k: int|
                        0 <= k < s ==> spawned_chunk_wf(
                            #[trigger] spawned@[k],
                            world.noise,
                            w0.config,
                            world.chunk_borders,
                        ),
                    forall|k: int|
                        0 <= k < s ==> world.store.has_position(
                            (#[trigger] spawned@[k]).position,
                        ) && world.store.handle_of(spawned@[k].position) == spawned@[k].handle,
                decreases to_spawn@.len() - s,
            {
                let package = packages.remove(0);
                let position = package.0;
                proof {
                    assert(packages@ =~= all_packages.skip(s + 1));
                    assert(package == all_packages[s as int]);
                    assert(package_wf(
                        package,
                        to_spawn@[s as int],
                        world.noise,
                        w0.config,
                        world.chunk_borders,
                    ));
                    assert(to_spawn@.contains(to_spawn@[s as int]));
                    assert(!to_spawn@.take(s as int).contains(position)) by {
                        if to_spawn@.take(s as int).contains(position) {
                            let k = choose|k: int|
                                0 <= k < s && to_spawn@.take(s as int)[k] == position;
                            assert(to_spawn@[k] == to_spawn@[s as int]);
                        }
                    }
                }
                let handle = world.store.insert(position);
                let offset = position.placement_offset(&world.config);
                let record = SpawnedChunk {
                    position,
                    chunk: package.1,
                    bitmap: package.2,
                    offset,
                    handle,
                };
                spawned.push(record);
                proof {
                    let taken = to_spawn@.take(s as int);
                    let taken_next = to_spawn@.take(s + 1);
                    assert forall|p: ChunkPosition| #[trigger] taken_next.contains(p) == (
                    taken.contains(p) || p == position) by {
                        if taken_next.contains(p) {
                            let k = choose|k: int| 0 <= k < taken_next.len() && taken_next[k] == p;
                            if k < taken.len() {
                                assert(taken[k] == p);
                            }
                        }
                        if taken.contains(p) {
                            let k = choose|k: int| 0 <= k < taken.len() && taken[k] == p;
                            assert(taken_next[k] == p);
                        }
                        if p == position {
                            assert(taken_next[s as int] == p);
                        }
                    }
                }
                s += 1;
            }
            proof {
                assert(to_spawn@.take(to_spawn@.len() as int) =~= to_spawn@);
            }
            let output = TickOutput { despawned, spawned };
            proof {
                assert forall|p: ChunkPosition| #[trigger] world.store.has_position(p)
                    == in_visible_range(p, v.camera, v.half_extent, w0.config) by {
                    assert(visible@.contains(p) == in_visible_range(
                        p,
                        v.camera,
                        v.half_extent,
                        w0.config,
                    ));
                }
                assert forall|p: ChunkPosition|
                    (exists|i: int|
                        0 <= i < output.despawned@.len() && (#[trigger] output.despawned@[i]).0
                            == p) == (w0.store.has_position(p) && !retained(p, w0, viewport)) by {
                    if exists|i: int|
                        0 <= i < output.despawned@.len() && (#[trigger] output.despawned@[i]).0
                            == p {
                        let i = choose|i: int|
                            0 <= i < output.despawned@.len() && (
                            #[trigger] output.despawned@[i]).0 == p;
                        if i < despawned_mid.len() {
                        } else {
                            assert(to_despawn@[i - despawned_mid.len()] == p);
                            assert(to_despawn@.contains(p));
                        }
                    }
                    if w0.store.has_position(p) && !retained(p, w0, viewport) {
                        if reload {
                            let i = choose|i: int|
                                0 <= i < despawned_mid.len() && (#[trigger] despawned_mid[i]).0
                                    == p;
                            assert(output.despawned@[i].0 == p);
                        } else {
                            assert(to_despawn@.contains(p));
                            let k = choose|k: int|
                                0 <= k < to_despawn@.len() && to_despawn@[k] == p;
                            assert(output.despawned@[despawned_mid.len() + k].0 == p);
                        }
                    }
                }
                assert forall|i: int| 0 <= i < output.despawned@.len() implies w0.store.has_position(
                    (#[trigger] output.despawned@[i]).0,
                ) && output.despawned@[i].1 == w0.store.handle_of(output.despawned@[i].0) by {
                    if i >= despawned_mid.len() {
                        assert(output.despawned@[i] == (to_despawn@[i - despawned_mid.len()], store_mid.handle_of(to_despawn@[i - despawned_mid.len()])));
                        assert(to_despawn@.contains(to_despawn@[i - despawned_mid.len()]));
                    }
                }
                assert forall|i: int, j: int|
                    0 <= i < output.despawned@.len() && 0 <= j < output.despawned@.len() && i != j implies (
                #[trigger] output.despawned@[i]).0 != (#[trigger] output.despawned@[j]).0 by {
                    if i < despawned_mid.len() && j < despawned_mid.len() {
                        assert(despawned_mid[i] == w0.store.entries_seq()[i]);
                        assert(despawned_mid[j] == w0.store.entries_seq()[j]);
                    } else if i >= despawned_mid.len() && j >= despawned_mid.len() {
                        assert(to_despawn@[i - despawned_mid.len()] != to_despawn@[j
                            - despawned_mid.len()]);
                    } else {
                        assert(despawned_mid.len() == 0 || to_despawn@.len() == 0) by {
                            if reload {
                                if to_despawn@.len() > 0 {
                                    assert(to_despawn@.contains(to_despawn@[0]));
                                }
                            }
                        }
                    }
                }
                assert forall|p: ChunkPosition|
                    (exists|i: int|
                        0 <= i < output.spawned@.len() && (#[trigger] output.spawned@[i]).position
                            == p) == (in_visible_range(p, v.camera, v.half_extent, w0.config)
                    && !retained(p, w0, viewport)) by {
                    if exists|i: int|
                        0 <= i < output.spawned@.len() && (#[trigger] output.spawned@[i]).position
                            == p {
                        let i = choose|i: int|
                            0 <= i < output.spawned@.len() && (
                            #[trigger] output.spawned@[i]).position == p;
                        assert(to_spawn@[i] == p);
                        assert(to_spawn@.contains(p));
                    }
                    if in_visible_range(p, v.camera, v.half_extent, w0.config) && !retained(
                        p,
                        w0,
                        viewport,
                    ) {
                        assert(visible@.contains(p));
                        assert(to_spawn@.contains(p));
                        let k = choose|k: int| 0 <= k < to_spawn@.len() && to_spawn@[k] == p;
                        assert(output.spawned@[k].position == p);
                    }
                }
                assert forall|p: ChunkPosition| retained(p, w0, viewport) implies #[trigger] world.store.has_position(
                    p,
                ) && world.store.handle_of(p) == w0.store.handle_of(p) by {
                    assert(store_desp.has_position(p));
                }
            }
            output
        }
    }
}

} // verus!
