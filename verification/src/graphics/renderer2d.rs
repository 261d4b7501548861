//! The batched quad renderer.
//!
//! Between `begin` and `submit` every drawn quad is appended to the batch
//! of its (texture, depth index) pair. `submit` turns the batches into the
//! frame's draw calls: one for each batch that holds instances, lower depth
//! first, batches of equal depth in the order in which they were first
//! drawn into. Each call also says what to do with the batch's instance
//! buffer, which grows to the instance count when it is too small and is
//! never shrunk.
//!
//! The renderer issues no GPU command itself: the caller acquires the
//! frame, hands the outcome to `submit` and carries out the returned calls.

use crate::assets::texture::Texture2DCoordinates;
use crate::assets::AssetHandle;
use crate::graphics::shapes::Quad;
use crate::graphics::shapes::QuadView;
use vstd::prelude::*;

verus! {

/// The indices of the two triangles that make up the unit quad.
pub const QUAD_INDICES: [u16; 6] = [0, 1, 2, 2, 3, 0];

/// Whether `bytes` holds each of `indices` as two bytes, the low byte
/// first.
pub open spec fn is_low_byte_first(indices: Seq<u16>, bytes: Seq<u8>) -> bool {
    &&& bytes.len() == 2 * indices.len()
    &&& forall|i: int|
        0 <= i < indices.len() ==> bytes[2 * i] == (#[trigger] indices[i]) % 256 && bytes[2 * i + 1] == indices[i]
            / 256
}

/// Whether `bytes` holds each of `indices` as two bytes, the high byte
/// first.
pub open spec fn is_high_byte_first(indices: Seq<u16>, bytes: Seq<u8>) -> bool {
    &&& bytes.len() == 2 * indices.len()
    &&& forall|i: int|
        0 <= i < indices.len() ==> bytes[2 * i] == (#[trigger] indices[i]) / 256 && bytes[2 * i + 1] == indices[i]
            % 256
}

/// `bytemuck::cast_slice` from `u16` to `u8`: the memory of `indices`, byte
/// by byte. Each index takes two bytes, in the byte order of the machine,
/// which is one of two; the cast cannot fail, as bytes need no alignment
/// and leave no remainder.
#[verifier::external_body]
fn index_bytes(indices: &[u16]) -> (bytes: Vec<u8>)
    ensures
        is_low_byte_first(indices@, bytes@) || is_high_byte_first(indices@, bytes@),
{
    bytemuck::cast_slice::<u16, u8>(indices).to_vec()
}

/// The contents of the index buffer of the unit quad: `QUAD_INDICES` as
/// bytes, in the byte order of the machine.
pub fn quad_index_bytes() -> (bytes: Vec<u8>)
    ensures
        bytes@ == seq![0u8, 0u8, 1u8, 0u8, 2u8, 0u8, 2u8, 0u8, 3u8, 0u8, 0u8, 0u8] || bytes@ == seq![
            0u8,
            0u8,
            0u8,
            1u8,
            0u8,
            2u8,
            0u8,
            2u8,
            0u8,
            3u8,
            0u8,
            0u8,
        ],
{
    let indices = QUAD_INDICES;
    let bytes = index_bytes(indices.as_slice());
    proof {
        let listed = indices@;
        assert(listed.len() == 6);
        assert(listed[0] == 0 && listed[1] == 1 && listed[2] == 2 && listed[3] == 2 && listed[4] == 3
            && listed[5] == 0);
        if is_low_byte_first(listed, bytes@) {
            assert(bytes@ =~= seq![0u8, 0u8, 1u8, 0u8, 2u8, 0u8, 2u8, 0u8, 3u8, 0u8, 0u8, 0u8]);
        } else {
            assert(bytes@ =~= seq![0u8, 0u8, 0u8, 1u8, 0u8, 2u8, 0u8, 2u8, 0u8, 3u8, 0u8, 0u8]);
        }
    }
    bytes
}

/// How many instances a newly created batch reserves room for.
pub const MAX_QUAD: usize = 100_000;

/// What is drawn for one quad: its transform, its colour and the rectangle
/// of the texture that covers it.
pub struct QuadInstanceData<S> {
    pub model: [S; 16],
    pub color: [S; 4],
    pub tex_coords_size: [S; 2],
    pub tex_coords_offset: [S; 2],
}

/// Why the next frame of a surface could not be acquired.
#[derive(Debug, PartialEq, Eq, Structural, Clone, Copy)]
pub enum SurfaceError {
    Timeout,
    Outdated,
    Lost,
    OutOfMemory,
    Other,
}

/// What the caller does about a frame that could not be acquired.
#[derive(Debug, PartialEq, Eq, Structural, Clone, Copy)]
pub enum SurfaceRecovery {
    /// A passing condition: configure the surface again, at its current
    /// size, and draw the next frame as usual.
    Reconfigure,
    /// Anything else: report the error and drop the frame.
    Abandon,
}

impl SurfaceError {
    /// A surface that is outdated or lost is configured again; every other
    /// error abandons the frame.
    pub fn recovery(&self) -> (recovery: SurfaceRecovery)
        ensures
            recovery == (if *self == SurfaceError::Outdated || *self == SurfaceError::Lost {
                SurfaceRecovery::Reconfigure
            } else {
                SurfaceRecovery::Abandon
            }),
    {
        match self {
            SurfaceError::Outdated | SurfaceError::Lost => SurfaceRecovery::Reconfigure,
            _ => SurfaceRecovery::Abandon,
        }
    }
}

/// What happens to the instance buffer of a batch before it is drawn.
#[derive(Debug, PartialEq, Eq, Structural, Clone, Copy)]
pub enum BufferUpdate {
    /// The batch has no buffer yet: create one that holds exactly its
    /// instances.
    Allocate,
    /// The buffer is too small: destroy it and create one that holds
    /// exactly the instances.
    Reallocate,
    /// The buffer is large enough: write the instances over its start.
    Overwrite,
}

/// One indexed, instanced draw call of a frame.
pub struct DrawCall<T> {
    /// The texture to bind.
    pub texture: AssetHandle<T>,
    /// The depth index of the batch.
    pub depth: i32,
    /// Which batch the instances come from.
    pub batch: usize,
    /// How many instances to draw: all that the batch holds.
    pub instance_count: usize,
    /// What to do with the instance buffer of the batch first.
    pub buffer: BufferUpdate,
}

/// What a batch holds: its key, its instances in the order in which they
/// were drawn, and how many instances its buffer has room for, if it has a
/// buffer.
pub struct BatchView<T, S> {
    pub texture: AssetHandle<T>,
    pub depth: i32,
    pub instances: Seq<QuadInstanceData<S>>,
    pub capacity: Option<nat>,
}

impl<T, S> BatchView<T, S> {
    /// Whether this is the batch of `texture` at `depth`.
    pub open spec fn has_key(self, texture: AssetHandle<T>, depth: i32) -> bool {
        self.texture == texture && self.depth == depth
    }

    /// The batch with one more instance at its end.
    pub open spec fn with_instance(self, instance: QuadInstanceData<S>) -> Self {
        BatchView { instances: self.instances.push(instance), ..self }
    }

    /// The batch at the start of a frame: no instances, the buffer kept.
    pub open spec fn cleared(self) -> Self {
        BatchView { instances: Seq::empty(), ..self }
    }

    /// The batch after its draw call: a batch that holds instances has a
    /// buffer with room for them all, and an empty batch is left alone.
    pub open spec fn submitted(self) -> Self {
        if self.instances.len() > 0 {
            BatchView { capacity: capacity_after(self.capacity, self.instances.len()), ..self }
        } else {
            self
        }
    }
}

/// What is done to a buffer with room for `capacity` instances, if there is
/// one, when `count` instances are to be drawn from it.
pub open spec fn buffer_update(capacity: Option<nat>, count: nat) -> BufferUpdate {
    match capacity {
        None => BufferUpdate::Allocate,
        Some(room) => if room < count {
            BufferUpdate::Reallocate
        } else {
            BufferUpdate::Overwrite
        },
    }
}

/// The room of the buffer after `buffer_update`: exactly `count` where it
/// was created or created anew, and what it was where it was large enough.
pub open spec fn capacity_after(capacity: Option<nat>, count: nat) -> Option<nat> {
    match capacity {
        None => Some(count),
        Some(room) => if room < count {
            Some(count)
        } else {
            Some(room)
        },
    }
}

/// No two batches have the same (texture, depth index) key.
pub open spec fn distinct_keys<T, S>(batches: Seq<BatchView<T, S>>) -> bool {
    forall|i: int, j: int|
        0 <= i < j < batches.len() ==> !(#[trigger] batches[i]).has_key(
            (#[trigger] batches[j]).texture,
            batches[j].depth,
        )
}

/// Whether some batch has the key (`texture`, `depth`).
pub open spec fn has_batch<T, S>(batches: Seq<BatchView<T, S>>, texture: AssetHandle<T>, depth: i32) -> bool {
    exists|i: int| 0 <= i < batches.len() && (#[trigger] batches[i]).has_key(texture, depth)
}

/// The batches after one quad was drawn with the key (`texture`, `depth`):
/// the batch with that key has `instance` appended, and where there was no
/// such batch a new one, without a buffer, is added behind the others and
/// holds just `instance`.
pub open spec fn batches_drawn<T, S>(
    batches: Seq<BatchView<T, S>>,
    texture: AssetHandle<T>,
    depth: i32,
    instance: QuadInstanceData<S>,
) -> Seq<BatchView<T, S>> {
    if has_batch(batches, texture, depth) {
        Seq::new(
            batches.len(),
            |i: int|
                if batches[i].has_key(texture, depth) {
                    batches[i].with_instance(instance)
                } else {
                    batches[i]
                },
        )
    } else {
        batches.push(
            BatchView { texture, depth, instances: seq![instance], capacity: None },
        )
    }
}

/// The batches at the start of a frame: each one kept, with its key and
/// its buffer, and emptied of instances.
pub open spec fn batches_cleared<T, S>(batches: Seq<BatchView<T, S>>) -> Seq<BatchView<T, S>> {
    Seq::new(batches.len(), |i: int| batches[i].cleared())
}

/// The batches after the draw calls of a frame.
pub open spec fn batches_submitted<T, S>(batches: Seq<BatchView<T, S>>) -> Seq<BatchView<T, S>> {
    Seq::new(batches.len(), |i: int| batches[i].submitted())
}

/// Whether the batch at index `batch` holds any instance.
pub open spec fn holds_instances<T, S>(batches: Seq<BatchView<T, S>>, batch: int) -> bool {
    batches[batch].instances.len() > 0
}

/// Whether `call` is the draw call of the batch at index `batch`: it binds
/// the texture of the batch, draws all of its instances and treats its
/// buffer as `buffer_update` says.
pub open spec fn is_draw_call_of<T, S>(batches: Seq<BatchView<T, S>>, batch: int, call: DrawCall<T>) -> bool {
    &&& call.texture == batches[batch].texture
    &&& call.depth == batches[batch].depth
    &&& call.batch == batch
    &&& call.instance_count == batches[batch].instances.len()
    &&& call.buffer == buffer_update(batches[batch].capacity, batches[batch].instances.len())
}

/// The order of draw calls: by depth index, lower first, and among equal
/// depths by the position of the batch, which is the order in which the
/// batches were created.
pub open spec fn drawn_before<T>(first: DrawCall<T>, second: DrawCall<T>) -> bool {
    first.depth < second.depth || (first.depth == second.depth && first.batch < second.batch)
}

/// `plan` holds, in drawing order, exactly the draw calls of those among
/// the first `count` batches that hold instances.
pub open spec fn plans_batches<T, S>(batches: Seq<BatchView<T, S>>, count: int, plan: Seq<DrawCall<T>>) -> bool {
    &&& forall|k: int|
        0 <= k < plan.len() ==> {
            &&& 0 <= (#[trigger] plan[k]).batch < count
            &&& batches[plan[k].batch as int].instances.len() > 0
            &&& is_draw_call_of(batches, plan[k].batch as int, plan[k])
        }
    &&& forall|k: int, l: int|
        0 <= k < l < plan.len() ==> drawn_before(#[trigger] plan[k], #[trigger] plan[l])
    &&& forall|b: int|
        0 <= b < count && #[trigger] holds_instances(batches, b) ==> exists|k: int|
            0 <= k < plan.len() && (#[trigger] plan[k]).batch == b
}

/// `plan` is the frame of `batches`: one draw call for each batch that
/// holds instances, and none for an empty one, in drawing order.
pub open spec fn is_frame_plan<T, S>(batches: Seq<BatchView<T, S>>, plan: Seq<DrawCall<T>>) -> bool {
    plans_batches(batches, batches.len() as int, plan)
}

/// A set of instances that are drawn with one texture at one depth, and the
/// room of the GPU buffer that backs them.
pub struct QuadsInstanceDataBuffer<T, S> {
    texture: AssetHandle<T>,
    depth: i32,
    quads: Vec<QuadInstanceData<S>>,
    buffer_len: Option<usize>,
}

impl<T, S> View for QuadsInstanceDataBuffer<T, S> {
    type V = BatchView<T, S>;

    closed spec fn view(&self) -> BatchView<T, S> {
        BatchView {
            texture: self.texture,
            depth: self.depth,
            instances: self.quads@,
            capacity: match self.buffer_len {
                Some(room) => Some(room as nat),
                None => None,
            },
        }
    }
}

impl<T, S> QuadsInstanceDataBuffer<T, S> {
    /// An empty batch for the key (`texture`, `depth`), without a buffer.
    fn new(texture: AssetHandle<T>, depth: i32, quads_capacity: usize) -> (batch: Self)
        ensures
            batch@ == (BatchView::<T, S> { texture, depth, instances: Seq::empty(), capacity: None }),
    {
        Self { texture, depth, quads: Vec::with_capacity(quads_capacity), buffer_len: None }
    }

    fn clear(&mut self)
        ensures
            final(self)@ == old(self)@.cleared(),
    {
        self.quads.clear();
    }

    fn push(&mut self, quad: QuadInstanceData<S>)
        ensures
            final(self)@ == old(self)@.with_instance(quad),
    {
        self.quads.push(quad);
    }

    /// What `submit` does to the buffer of a batch that holds instances.
    fn buffer_update(&self) -> (update: BufferUpdate)
        ensures
            update == buffer_update(self@.capacity, self@.instances.len()),
    {
        match self.buffer_len {
            None => BufferUpdate::Allocate,
            Some(room) => if room < self.quads.len() {
                BufferUpdate::Reallocate
            } else {
                BufferUpdate::Overwrite
            },
        }
    }

    /// Records the buffer that the draw call leaves behind.
    fn reallocate_instance_buffer(&mut self)
        ensures
            final(self)@ == old(self)@.submitted(),
    {
        let count = self.quads.len();
        if count > 0 {
            match self.buffer_len {
                None => {
                    self.buffer_len = Some(count);
                },
                Some(room) => {
                    if room < count {
                        self.buffer_len = Some(count);
                    }
                },
            }
        }
    }
}

/// A plan of the first `count` batches becomes a plan of the first
/// `count + 1` when the call of the batch at index `count` is put behind
/// the last call whose depth is not above its own. `after` is the plan
/// with that call at index `position`.
proof fn lemma_plan_insert<T, S>(
    batches: Seq<BatchView<T, S>>,
    count: int,
    plan: Seq<DrawCall<T>>,
    after: Seq<DrawCall<T>>,
    position: int,
    call: DrawCall<T>,
)
    requires
        0 <= count < batches.len(),
        count <= usize::MAX,
        plans_batches(batches, count, plan),
        batches[count].instances.len() > 0,
        is_draw_call_of(batches, count, call),
        0 <= position <= plan.len(),
        forall|k: int| position <= k < plan.len() ==> (#[trigger] plan[k]).depth > call.depth,
        position > 0 ==> plan[position - 1].depth <= call.depth,
        after.len() == plan.len() + 1,
        forall|k: int| 0 <= k < position ==> #[trigger] after[k] == plan[k],
        forall|k: int| position < k < after.len() ==> #[trigger] after[k] == plan[k - 1],
        after[position] == call,
    ensures
        plans_batches(batches, count + 1, after),
{
    assert(call.batch == count);
    assert forall|k: int| 0 <= k < after.len() implies {
        &&& 0 <= (#[trigger] after[k]).batch < count + 1
        &&& batches[after[k].batch as int].instances.len() > 0
        &&& is_draw_call_of(batches, after[k].batch as int, after[k])
    } by {
        if k < position {
            assert(after[k] == plan[k]);
        } else if k > position {
            assert(after[k] == plan[k - 1]);
        }
    }
    assert forall|k: int, l: int| 0 <= k < l < after.len() implies drawn_before(
        #[trigger] after[k],
        #[trigger] after[l],
    ) by {
        if k == position {
            assert(after[l] == plan[l - 1]);
            assert(plan[l - 1].depth > call.depth);
        } else if l == position {
            assert(after[k] == plan[k]);
            assert(plan[k].batch < count);
            if k < position - 1 {
                assert(drawn_before(plan[k], plan[position - 1]));
            }
            assert(plan[k].depth <= call.depth);
        } else {
            let first = if k < position { k } else { k - 1 };
            let second = if l < position { l } else { l - 1 };
            assert(after[k] == plan[first]);
            assert(after[l] == plan[second]);
            assert(drawn_before(plan[first], plan[second]));
        }
    }
    assert forall|b: int| 0 <= b < count + 1 && #[trigger] holds_instances(batches, b) implies exists|k: int|
        0 <= k < after.len() && (#[trigger] after[k]).batch == b by {
        if b == count {
            assert(after[position].batch == b);
        } else {
            let k = choose|k: int| 0 <= k < plan.len() && (#[trigger] plan[k]).batch == b;
            if k < position {
                assert(after[k] == plan[k]);
                assert(after[k].batch == b);
            } else {
                assert(after[k + 1] == plan[k]);
                assert(after[k + 1].batch == b);
            }
        }
    }
}

/// The instance that is drawn for `quad` with the rectangle `coords` of its
/// texture: the quad's cached transform and its colour.
pub open spec fn instance_of<S>(quad: QuadView<S>, coords: Texture2DCoordinates<S>) -> QuadInstanceData<S> {
    QuadInstanceData {
        model: quad.transform,
        color: quad.color,
        tex_coords_size: coords.size,
        tex_coords_offset: coords.offset,
    }
}

/// What a renderer holds: whether a frame is being recorded, the clear
/// colour and the camera of the frame, the texture and the rectangle that
/// untextured quads are drawn with, and the batches in the order in which
/// they were created.
pub struct Renderer2DView<T, S, C> {
    pub recording: bool,
    pub clear_color: C,
    pub camera: Option<[S; 16]>,
    pub white_texture: AssetHandle<T>,
    pub full_texture: Texture2DCoordinates<S>,
    pub batches: Seq<BatchView<T, S>>,
}

impl<T, S, C> Renderer2DView<T, S, C> {
    /// Each key has one batch, and a frame that is being recorded has a
    /// camera.
    pub open spec fn wf(self) -> bool {
        &&& distinct_keys(self.batches)
        &&& self.recording ==> self.camera is Some
    }

    /// The renderer after `begin`.
    pub open spec fn begun(self, clear_color: C, camera: [S; 16]) -> Self {
        Renderer2DView {
            recording: true,
            clear_color,
            camera: Some(camera),
            batches: batches_cleared(self.batches),
            ..self
        }
    }

    /// The renderer after one quad was drawn.
    pub open spec fn drawn(self, texture: AssetHandle<T>, depth: i32, instance: QuadInstanceData<S>) -> Self {
        Renderer2DView { batches: batches_drawn(self.batches, texture, depth, instance), ..self }
    }

    /// The renderer after `submit`: no frame is being recorded, and where
    /// the frame was acquired the buffers are those that the draw calls
    /// leave behind.
    pub open spec fn submitted(self, acquired: bool) -> Self {
        Renderer2DView {
            recording: false,
            batches: if acquired {
                batches_submitted(self.batches)
            } else {
                self.batches
            },
            ..self
        }
    }
}

/// Collects the quads of a frame into batches and plans the frame's draw
/// calls.
pub struct Renderer2D<T, S, C> {
    recording: bool,
    clear_color: C,
    camera_uniform: Option<[S; 16]>,
    white_texture: AssetHandle<T>,
    full_texture: Texture2DCoordinates<S>,
    quads_instances: Vec<QuadsInstanceDataBuffer<T, S>>,
}

impl<T, S, C> View for Renderer2D<T, S, C> {
    type V = Renderer2DView<T, S, C>;

    closed spec fn view(&self) -> Renderer2DView<T, S, C> {
        Renderer2DView {
            recording: self.recording,
            clear_color: self.clear_color,
            camera: self.camera_uniform,
            white_texture: self.white_texture,
            full_texture: self.full_texture,
            batches: Seq::new(self.quads_instances@.len(), |i: int| self.quads_instances@[i]@),
        }
    }
}

impl<T, S: Copy, C> Renderer2D<T, S, C> {
    /// The invariant of a renderer. `new` establishes it and every method
    /// keeps it.
    pub open spec fn wf(&self) -> bool {
        self@.wf()
    }

    /// A renderer that is not recording and has no batches. Quads without
    /// a texture of their own will be drawn with the rectangle
    /// `full_texture` of `white_texture`.
    pub fn new(white_texture: AssetHandle<T>, full_texture: Texture2DCoordinates<S>, clear_color: C) -> (renderer: Self)
        ensures
            renderer.wf(),
            renderer@ == (Renderer2DView {
                recording: false,
                clear_color,
                camera: None,
                white_texture,
                full_texture,
                batches: Seq::empty(),
            }),
    {
        let renderer = Self {
            recording: false,
            clear_color,
            camera_uniform: None,
            white_texture,
            full_texture,
            quads_instances: Vec::new(),
        };
        assert(renderer@.batches =~= Seq::empty());
        renderer
    }

    /// Whether a frame is being recorded.
    pub fn is_recording(&self) -> (recording: bool)
        ensures
            recording == self@.recording,
    {
        self.recording
    }

    /// The colour that the frame is cleared with.
    pub fn clear_color(&self) -> (clear_color: &C)
        ensures
            *clear_color == self@.clear_color,
    {
        &self.clear_color
    }

    /// The camera matrix of the frame, once a frame was begun.
    pub fn camera(&self) -> (camera: Option<[S; 16]>)
        ensures
            camera == self@.camera,
    {
        self.camera_uniform
    }

    /// The texture that untextured quads are drawn with.
    pub fn white_texture(&self) -> (texture: AssetHandle<T>)
        ensures
            texture == self@.white_texture,
    {
        self.white_texture
    }

    /// The number of batches.
    pub fn batch_count(&self) -> (count: usize)
        ensures
            count == self@.batches.len(),
    {
        self.quads_instances.len()
    }

    /// The texture and the depth index of the batch at index `batch`.
    pub fn batch_key(&self, batch: usize) -> (key: (AssetHandle<T>, i32))
        requires
            batch < self@.batches.len(),
        ensures
            key.0 == self@.batches[batch as int].texture,
            key.1 == self@.batches[batch as int].depth,
    {
        (self.quads_instances[batch].texture, self.quads_instances[batch].depth)
    }

    /// The instances of the batch at index `batch`, in drawing order.
    pub fn instances(&self, batch: usize) -> (instances: &Vec<QuadInstanceData<S>>)
        requires
            batch < self@.batches.len(),
        ensures
            instances@ == self@.batches[batch as int].instances,
    {
        &self.quads_instances[batch].quads
    }

    /// How many instances the buffer of the batch at index `batch` has room
    /// for, if the batch has a buffer.
    pub fn buffer_capacity(&self, batch: usize) -> (capacity: Option<usize>)
        requires
            batch < self@.batches.len(),
        ensures
            match capacity {
                Some(room) => self@.batches[batch as int].capacity == Some(room as nat),
                None => self@.batches[batch as int].capacity is None,
            },
    {
        self.quads_instances[batch].buffer_len
    }

    /// Opens a frame: takes its clear colour and camera and empties every
    /// batch. The batches themselves and their buffers are kept.
    pub fn begin(&mut self, clear_color: C, camera: [S; 16])
        requires
            old(self).wf(),
        ensures
            final(self).wf(),
            final(self)@ == old(self)@.begun(clear_color, camera),
    {
        self.clear_color = clear_color;
        self.camera_uniform = Some(camera);
        self.recording = true;
        let count = self.quads_instances.len();
        let mut i: usize = 0;
        while i < count
            invariant
                i <= count,
                count == self.quads_instances@.len(),
                count == old(self).quads_instances@.len(),
                self.recording,
                self.clear_color == clear_color,
                self.camera_uniform == Some(camera),
                self.white_texture == old(self).white_texture,
                self.full_texture == old(self).full_texture,
                forall|j: int| 0 <= j < i ==> self.quads_instances@[j]@ == old(self).quads_instances@[j]@.cleared(),
                forall|j: int| i <= j < count ==> self.quads_instances@[j] == old(self).quads_instances@[j],
            decreases count - i,
        {
            self.quads_instances[i].clear();
            i = i + 1;
        }
        assert(self@.batches =~= batches_cleared(old(self)@.batches));
    }

    /// The index of the batch with the key (`texture`, `depth`).
    fn find_batch(&self, texture: AssetHandle<T>, depth: i32) -> (found: Option<usize>)
        ensures
            match found {
                Some(i) => i < self@.batches.len() && self@.batches[i as int].has_key(texture, depth),
                None => !has_batch(self@.batches, texture, depth),
            },
    {
        let count = self.quads_instances.len();
        let mut i: usize = 0;
        while i < count
            invariant
                i <= count,
                count == self.quads_instances@.len(),
                forall|j: int| 0 <= j < i ==> !(#[trigger] self@.batches[j]).has_key(texture, depth),
            decreases count - i,
        {
            if self.quads_instances[i].texture == texture && self.quads_instances[i].depth == depth {
                return Some(i);
            }
            i = i + 1;
        }
        None
    }

    /// Draws `quad` with the rectangle `atlas_coords` of the texture
    /// `texture_handle`: one instance, made of the quad's transform and
    /// colour and of the rectangle, is appended to the batch of the texture
    /// and the quad's depth index. A batch is created where this is the
    /// first quad of its key. The transform is taken from the quad's cache,
    /// which `compute` refills first if it is stale.
    pub fn draw_quad_textured<F: FnOnce([S; 2], [S; 2], S) -> [S; 16]>(
        &mut self,
        quad: &mut Quad<S>,
        texture_handle: AssetHandle<T>,
        atlas_coords: Texture2DCoordinates<S>,
        compute: F,
    )
        requires
            old(self).wf(),
            old(self)@.recording,
            old(quad)@.needs_update ==> call_requires(
                compute,
                (old(quad)@.position, old(quad)@.size, old(quad)@.rotation),
            ),
        ensures
            final(self).wf(),
            final(quad)@ == old(quad)@.refreshed(final(quad)@.transform),
            old(quad)@.needs_update ==> call_ensures(
                compute,
                (old(quad)@.position, old(quad)@.size, old(quad)@.rotation),
                final(quad)@.transform,
            ),
            final(self)@ == old(self)@.drawn(
                texture_handle,
                old(quad)@.z_index,
                instance_of(final(quad)@, atlas_coords),
            ),
    {
        let depth = quad.get_z_index();
        let model = quad.get_transform(compute);
        let instance = QuadInstanceData {
            model,
            color: quad.get_color(),
            tex_coords_size: atlas_coords.size,
            tex_coords_offset: atlas_coords.offset,
        };
        match self.find_batch(texture_handle, depth) {
            Some(i) => {
                self.quads_instances[i].push(instance);
                assert(self@.batches =~= batches_drawn(old(self)@.batches, texture_handle, depth, instance)) by {
                    assert(old(self)@.batches[i as int].has_key(texture_handle, depth));
                }
            },
            None => {
                let mut batch = QuadsInstanceDataBuffer::new(texture_handle, depth, MAX_QUAD);
                batch.push(instance);
                assert(batch@.instances =~= seq![instance]);
                self.quads_instances.push(batch);
                assert(self@.batches =~= batches_drawn(old(self)@.batches, texture_handle, depth, instance));
            },
        }
    }

    /// Draws `quad` without a texture of its own: with the whole of the
    /// white texture, so that the quad shows its colour alone.
    pub fn draw_quad<F: FnOnce([S; 2], [S; 2], S) -> [S; 16]>(&mut self, quad: &mut Quad<S>, compute: F)
        requires
            old(self).wf(),
            old(self)@.recording,
            old(quad)@.needs_update ==> call_requires(
                compute,
                (old(quad)@.position, old(quad)@.size, old(quad)@.rotation),
            ),
        ensures
            final(self).wf(),
            final(quad)@ == old(quad)@.refreshed(final(quad)@.transform),
            old(quad)@.needs_update ==> call_ensures(
                compute,
                (old(quad)@.position, old(quad)@.size, old(quad)@.rotation),
                final(quad)@.transform,
            ),
            final(self)@ == old(self)@.drawn(
                old(self)@.white_texture,
                old(quad)@.z_index,
                instance_of(final(quad)@, old(self)@.full_texture),
            ),
    {
        self.draw_quad_textured(quad, self.white_texture, self.full_texture, compute);
    }

    /// The draw calls of the frame, in drawing order.
    fn plan_frame(&self) -> (plan: Vec<DrawCall<T>>)
        ensures
            is_frame_plan(self@.batches, plan@),
    {
        let mut plan: Vec<DrawCall<T>> = Vec::new();
        let count = self.quads_instances.len();
        let mut i: usize = 0;
        while i < count
            invariant
                i <= count,
                count == self.quads_instances@.len(),
                plans_batches(self@.batches, i as int, plan@),
            decreases count - i,
        {
            let instance_count = self.quads_instances[i].quads.len();
            if instance_count > 0 {
                let call = DrawCall {
                    texture: self.quads_instances[i].texture,
                    depth: self.quads_instances[i].depth,
                    batch: i,
                    instance_count,
                    buffer: self.quads_instances[i].buffer_update(),
                };
                assert(is_draw_call_of(self@.batches, i as int, call));
                let mut position = plan.len();
                while position > 0 && plan[position - 1].depth > call.depth
                    invariant
                        position <= plan@.len(),
                        forall|k: int| position <= k < plan@.len() ==> (#[trigger] plan@[k]).depth > call.depth,
                    decreases position,
                {
                    position = position - 1;
                }
                let ghost before = plan@;
                plan.insert(position, call);
                proof {
                    before.insert_ensures(position as int, call);
                    assert forall|k: int| position < k < plan@.len() implies #[trigger] plan@[k] == before[k - 1] by {
                        assert(before.insert(position as int, call)[(k - 1) + 1] == before[k - 1]);
                    }
                    lemma_plan_insert(self@.batches, i as int, before, plan@, position as int, call);
                }
            }
            i = i + 1;
        }
        plan
    }

    /// Closes the frame. `acquired` is what acquiring the next frame of the
    /// surface gave.
    ///
    /// Where the frame was acquired, the result holds the draw calls of the
    /// frame in drawing order, and every batch that is drawn has, from now
    /// on, a buffer with room for its instances. Where it was not, the
    /// error is handed back and the frame is dropped: nothing is drawn and
    /// no buffer changes. Either way no frame is being recorded afterwards.
    pub fn submit(&mut self, acquired: Result<(), SurfaceError>) -> (frame: Result<Vec<DrawCall<T>>, SurfaceError>)
        requires
            old(self).wf(),
            old(self)@.recording,
        ensures
            final(self).wf(),
            final(self)@ == old(self)@.submitted(acquired is Ok),
            match acquired {
                Ok(_) => frame is Ok && is_frame_plan(old(self)@.batches, frame->Ok_0@),
                Err(error) => frame == Err::<Vec<DrawCall<T>>, SurfaceError>(error),
            },
    {
        self.recording = false;
        match acquired {
            Err(error) => {
                assert(self@.batches =~= old(self)@.batches);
                Err(error)
            },
            Ok(_) => {
                let plan = self.plan_frame();
                let count = self.quads_instances.len();
                let mut i: usize = 0;
                while i < count
                    invariant
                        i <= count,
                        count == self.quads_instances@.len(),
                        count == old(self).quads_instances@.len(),
                        !self.recording,
                        self.clear_color == old(self).clear_color,
                        self.camera_uniform == old(self).camera_uniform,
                        self.white_texture == old(self).white_texture,
                        self.full_texture == old(self).full_texture,
                        forall|j: int|
                            0 <= j < i ==> self.quads_instances@[j]@ == old(self).quads_instances@[j]@.submitted(),
                        forall|j: int| i <= j < count ==> self.quads_instances@[j] == old(self).quads_instances@[j],
                    decreases count - i,
                {
                    self.quads_instances[i].reallocate_instance_buffer();
                    i = i + 1;
                }
                assert(self@.batches =~= batches_submitted(old(self)@.batches));
                Ok(plan)
            },
        }
    }
}

/// Two plans of the same batches agree on their first `upto` calls.
proof fn lemma_plans_agree<T, S>(
    batches: Seq<BatchView<T, S>>,
    first: Seq<DrawCall<T>>,
    second: Seq<DrawCall<T>>,
    upto: int,
)
    requires
        is_frame_plan(batches, first),
        is_frame_plan(batches, second),
        0 <= upto <= first.len(),
        upto <= second.len(),
    ensures
        forall|k: int| 0 <= k < upto ==> first[k] == second[k],
    decreases upto,
{
    if upto > 0 {
        lemma_plans_agree(batches, first, second, upto - 1);
        let k = upto - 1;
        let b1 = first[k].batch as int;
        let b2 = second[k].batch as int;
        assert(holds_instances(batches, b1));
        assert(holds_instances(batches, b2));
        let m2 = choose|m: int| 0 <= m < second.len() && (#[trigger] second[m]).batch == b1;
        let m1 = choose|m: int| 0 <= m < first.len() && (#[trigger] first[m]).batch == b2;
        if m2 < k {
            assert(first[m2] == second[m2]);
            assert(drawn_before(first[m2], first[k]));
        }
        if m1 < k {
            assert(first[m1] == second[m1]);
            assert(drawn_before(second[m1], second[k]));
        }
        if m2 > k {
            assert(drawn_before(second[k], second[m2]));
            if m1 > k {
                assert(drawn_before(first[k], first[m1]));
            }
        }
        assert(m2 == k);
    }
}

/// The frame of a set of batches is one sequence of draw calls and no
/// other.
pub proof fn lemma_frame_plan_is_unique<T, S>(
    batches: Seq<BatchView<T, S>>,
    first: Seq<DrawCall<T>>,
    second: Seq<DrawCall<T>>,
)
    requires
        is_frame_plan(batches, first),
        is_frame_plan(batches, second),
    ensures
        first == second,
{
    let shorter = if first.len() <= second.len() { first.len() as int } else { second.len() as int };
    lemma_plans_agree(batches, first, second, shorter);
    if first.len() < second.len() {
        let b = second[shorter].batch as int;
        assert(holds_instances(batches, b));
        let m = choose|m: int| 0 <= m < first.len() && (#[trigger] first[m]).batch == b;
        assert(first[m] == second[m]);
        assert(drawn_before(second[m], second[shorter]));
    }
    if second.len() < first.len() {
        let b = first[shorter].batch as int;
        assert(holds_instances(batches, b));
        let m = choose|m: int| 0 <= m < second.len() && (#[trigger] second[m]).batch == b;
        assert(first[m] == second[m]);
        assert(drawn_before(first[m], first[shorter]));
    }
    assert(first =~= second);
}

/// A frame has one draw call for each key: no two calls of a frame have
/// the same texture and depth index, and every batch that holds instances
/// has a call, which draws all of them.
pub proof fn lemma_one_call_per_key<T, S>(batches: Seq<BatchView<T, S>>, plan: Seq<DrawCall<T>>)
    requires
        distinct_keys(batches),
        is_frame_plan(batches, plan),
    ensures
        forall|k: int, l: int|
            0 <= k < l < plan.len() ==> !((#[trigger] plan[k]).texture == (#[trigger] plan[l]).texture
                && plan[k].depth == plan[l].depth),
        forall|b: int|
            0 <= b < batches.len() && #[trigger] holds_instances(batches, b) ==> exists|k: int|
                0 <= k < plan.len() && (#[trigger] plan[k]).texture == batches[b].texture && plan[k].depth
                    == batches[b].depth && plan[k].instance_count == batches[b].instances.len(),
        forall|k: int| 0 <= k < plan.len() ==> (#[trigger] plan[k]).instance_count > 0,
{
    assert forall|k: int, l: int| 0 <= k < l < plan.len() implies !((#[trigger] plan[k]).texture == (
    #[trigger] plan[l]).texture && plan[k].depth == plan[l].depth) by {
        let bk = plan[k].batch as int;
        let bl = plan[l].batch as int;
        assert(drawn_before(plan[k], plan[l]));
        if plan[k].texture == plan[l].texture && plan[k].depth == plan[l].depth {
            assert(bk < bl);
            assert(batches[bk].has_key(batches[bl].texture, batches[bl].depth));
        }
    }
    assert forall|b: int| 0 <= b < batches.len() && #[trigger] holds_instances(batches, b) implies exists|k: int|
        0 <= k < plan.len() && (#[trigger] plan[k]).texture == batches[b].texture && plan[k].depth
            == batches[b].depth && plan[k].instance_count == batches[b].instances.len() by {
        let k = choose|k: int| 0 <= k < plan.len() && (#[trigger] plan[k]).batch == b;
        assert(is_draw_call_of(batches, b, plan[k]));
    }
}

/// Draw calls go by depth: a call of lower depth index stands before every
/// call of higher depth index.
pub proof fn lemma_lower_depth_first<T, S>(
    batches: Seq<BatchView<T, S>>,
    plan: Seq<DrawCall<T>>,
    lower: int,
    higher: int,
)
    requires
        is_frame_plan(batches, plan),
        0 <= lower < plan.len(),
        0 <= higher < plan.len(),
        plan[lower].depth < plan[higher].depth,
    ensures
        lower < higher,
{
    if higher < lower {
        assert(drawn_before(plan[higher], plan[lower]));
    }
}

/// Drawing keeps one batch for each key, touches no batch of another key,
/// and appends to the batch of its own key, which it creates if need be.
pub proof fn lemma_draw_appends<T, S>(
    batches: Seq<BatchView<T, S>>,
    texture: AssetHandle<T>,
    depth: i32,
    instance: QuadInstanceData<S>,
)
    requires
        distinct_keys(batches),
    ensures
        ({
            let after = batches_drawn(batches, texture, depth, instance);
            &&& distinct_keys(after)
            &&& has_batch(after, texture, depth)
            &&& after.len() == batches.len() + (if has_batch(batches, texture, depth) {
                0int
            } else {
                1int
            })
            &&& forall|i: int|
                0 <= i < batches.len() ==> (#[trigger] after[i]).texture == batches[i].texture && after[i].depth
                    == batches[i].depth && after[i].capacity == batches[i].capacity
            &&& forall|i: int|
                0 <= i < batches.len() && !batches[i].has_key(texture, depth) ==> #[trigger] after[i]
                    == batches[i]
            &&& forall|i: int|
                0 <= i < after.len() && (#[trigger] after[i]).has_key(texture, depth) ==> after[i].instances
                    == (if i < batches.len() {
                    batches[i].instances
                } else {
                    Seq::empty()
                }).push(instance)
        }),
{
    let after = batches_drawn(batches, texture, depth, instance);
    if has_batch(batches, texture, depth) {
        let i = choose|i: int| 0 <= i < batches.len() && (#[trigger] batches[i]).has_key(texture, depth);
        assert(after[i].has_key(texture, depth));
        assert forall|i: int, j: int| 0 <= i < j < after.len() implies !(#[trigger] after[i]).has_key(
            (#[trigger] after[j]).texture,
            after[j].depth,
        ) by {
            assert(!batches[i].has_key(batches[j].texture, batches[j].depth));
        }
    } else {
        let last = batches.len() as int;
        assert(after[last].has_key(texture, depth));
        assert(after[last].instances =~= Seq::<QuadInstanceData<S>>::empty().push(instance));
        assert forall|i: int, j: int| 0 <= i < j < after.len() implies !(#[trigger] after[i]).has_key(
            (#[trigger] after[j]).texture,
            after[j].depth,
        ) by {
            if j < last {
                assert(!batches[i].has_key(batches[j].texture, batches[j].depth));
            } else {
                assert(!batches[i].has_key(texture, depth));
            }
        }
    }
}

/// Two quads drawn with one texture at one depth index end up in one
/// batch, the second behind the first, and a frame draws that batch with a
/// single call.
pub proof fn lemma_same_key_accumulates<T, S>(
    batches: Seq<BatchView<T, S>>,
    texture: AssetHandle<T>,
    depth: i32,
    first: QuadInstanceData<S>,
    second: QuadInstanceData<S>,
    plan: Seq<DrawCall<T>>,
)
    requires
        distinct_keys(batches),
        is_frame_plan(batches_drawn(batches_drawn(batches, texture, depth, first), texture, depth, second), plan),
    ensures
        ({
            let once = batches_drawn(batches, texture, depth, first);
            let twice = batches_drawn(once, texture, depth, second);
            &&& distinct_keys(twice)
            &&& twice.len() == once.len()
            &&& forall|i: int|
                0 <= i < twice.len() && (#[trigger] twice[i]).has_key(texture, depth) ==> twice[i].instances
                    == (if i < batches.len() {
                    batches[i].instances
                } else {
                    Seq::empty()
                }).push(first).push(second)
            &&& exists|k: int|
                0 <= k < plan.len() && (#[trigger] plan[k]).texture == texture && plan[k].depth == depth
                    && twice[plan[k].batch as int].has_key(texture, depth) && plan[k].instance_count
                    == twice[plan[k].batch as int].instances.len()
            &&& forall|k: int, l: int|
                0 <= k < plan.len() && 0 <= l < plan.len() && (#[trigger] plan[k]).texture == texture
                    && plan[k].depth == depth && (#[trigger] plan[l]).texture == texture && plan[l].depth
                    == depth ==> k == l
        }),
{
    let once = batches_drawn(batches, texture, depth, first);
    let twice = batches_drawn(once, texture, depth, second);
    lemma_draw_appends(batches, texture, depth, first);
    lemma_draw_appends(once, texture, depth, second);
    lemma_one_call_per_key(twice, plan);
    let b = choose|b: int| 0 <= b < twice.len() && (#[trigger] twice[b]).has_key(texture, depth);
    assert(twice[b].instances.len() > 0);
    assert(holds_instances(twice, b));
    assert forall|i: int| 0 <= i < twice.len() && (#[trigger] twice[i]).has_key(texture, depth) implies twice[i].instances
        == (if i < batches.len() {
        batches[i].instances
    } else {
        Seq::empty()
    }).push(first).push(second) by {
        assert(once[i].has_key(texture, depth));
    }
    let k = choose|k: int|
        0 <= k < plan.len() && (#[trigger] plan[k]).texture == twice[b].texture && plan[k].depth
            == twice[b].depth && plan[k].instance_count == twice[b].instances.len();
    assert(is_draw_call_of(twice, plan[k].batch as int, plan[k]));
    assert forall|k: int, l: int|
        0 <= k < plan.len() && 0 <= l < plan.len() && (#[trigger] plan[k]).texture == texture && plan[k].depth
            == depth && (#[trigger] plan[l]).texture == texture && plan[l].depth == depth implies k == l by {
        if k < l {
            assert(!(plan[k].texture == plan[l].texture && plan[k].depth == plan[l].depth));
        }
        if l < k {
            assert(!(plan[l].texture == plan[k].texture && plan[l].depth == plan[k].depth));
        }
    }
}

/// `begin` empties every batch, whatever was drawn before and whether or
/// not the frame before was submitted: the frame that is then submitted
/// holds what was drawn since the last `begin` and nothing else. The
/// batches and their buffers outlive the frame.
pub proof fn lemma_begin_clears<T, S, C>(
    renderer: Renderer2DView<T, S, C>,
    clear_color: C,
    camera: [S; 16],
    plan: Seq<DrawCall<T>>,
)
    requires
        renderer.wf(),
    ensures
        ({
            let begun = renderer.begun(clear_color, camera);
            &&& begun.wf()
            &&& begun.recording
            &&& begun.clear_color == clear_color
            &&& begun.camera == Some(camera)
            &&& begun.batches.len() == renderer.batches.len()
            &&& forall|i: int|
                0 <= i < begun.batches.len() ==> {
                    &&& (#[trigger] begun.batches[i]).instances.len() == 0
                    &&& begun.batches[i].texture == renderer.batches[i].texture
                    &&& begun.batches[i].depth == renderer.batches[i].depth
                    &&& begun.batches[i].capacity == renderer.batches[i].capacity
                }
            &&& is_frame_plan(begun.batches, plan) ==> plan.len() == 0
            &&& begun.begun(clear_color, camera) == begun
        }),
{
    let begun = renderer.begun(clear_color, camera);
    assert forall|i: int, j: int| 0 <= i < j < begun.batches.len() implies !(#[trigger] begun.batches[i]).has_key(
        (#[trigger] begun.batches[j]).texture,
        begun.batches[j].depth,
    ) by {
        assert(!renderer.batches[i].has_key(renderer.batches[j].texture, renderer.batches[j].depth));
    }
    if is_frame_plan(begun.batches, plan) && plan.len() > 0 {
        assert(begun.batches[plan[0].batch as int].instances.len() > 0);
    }
    assert(begun.begun(clear_color, camera).batches =~= begun.batches);
}

/// The first quad drawn after `begin` is alone in its batch.
pub proof fn lemma_first_draw_after_begin<T, S, C>(
    renderer: Renderer2DView<T, S, C>,
    clear_color: C,
    camera: [S; 16],
    texture: AssetHandle<T>,
    depth: i32,
    instance: QuadInstanceData<S>,
)
    requires
        renderer.wf(),
    ensures
        ({
            let drawn = renderer.begun(clear_color, camera).drawn(texture, depth, instance);
            &&& drawn.wf()
            &&& forall|i: int|
                0 <= i < drawn.batches.len() ==> (#[trigger] drawn.batches[i]).instances == (if drawn.batches[i].has_key(
                    texture,
                    depth,
                ) {
                    seq![instance]
                } else {
                    Seq::empty()
                })
        }),
{
    let begun = renderer.begun(clear_color, camera);
    lemma_begin_clears(renderer, clear_color, camera, Seq::empty());
    lemma_draw_appends(begun.batches, texture, depth, instance);
    let drawn = begun.drawn(texture, depth, instance);
    assert forall|i: int| 0 <= i < drawn.batches.len() implies (#[trigger] drawn.batches[i]).instances == (if drawn.batches[i].has_key(
        texture,
        depth,
    ) {
        seq![instance]
    } else {
        Seq::empty()
    }) by {
        if drawn.batches[i].has_key(texture, depth) {
            if i < begun.batches.len() {
                assert(begun.batches[i].instances =~= Seq::empty());
            }
            assert(drawn.batches[i].instances =~= seq![instance]);
        } else {
            assert(begun.batches[i].instances =~= Seq::empty());
            assert(drawn.batches[i] == begun.batches[i]);
        }
    }
}

/// A buffer with room for fewer instances than are drawn is created anew,
/// once, with room for exactly those instances; a frame that then draws no
/// more than that writes into the buffer as it is.
pub proof fn lemma_buffer_grows_once(capacity: nat, count: nat, fewer: nat)
    requires
        capacity < count,
        fewer <= count,
    ensures
        buffer_update(Some(capacity), count) == BufferUpdate::Reallocate,
        capacity_after(Some(capacity), count) == Some(count),
        buffer_update(Some(count), fewer) == BufferUpdate::Overwrite,
        capacity_after(Some(count), fewer) == Some(count),
{
}

/// A batch that is drawn for the first time gets a buffer with room for
/// exactly its instances.
pub proof fn lemma_first_buffer(count: nat)
    ensures
        buffer_update(None, count) == BufferUpdate::Allocate,
        capacity_after(None, count) == Some(count),
{
}

/// A buffer never shrinks and, once a batch has one, is never lost.
pub proof fn lemma_buffer_never_shrinks<T, S>(batch: BatchView<T, S>)
    ensures
        batch.capacity is Some ==> batch.submitted().capacity is Some && batch.submitted().capacity->0
            >= batch.capacity->0,
        batch.capacity is Some ==> batch.cleared().capacity == batch.capacity,
        batch.instances.len() > 0 ==> batch.submitted().capacity is Some && batch.submitted().capacity->0
            >= batch.instances.len(),
        batch.submitted().instances == batch.instances,
        batch.submitted().texture == batch.texture,
        batch.submitted().depth == batch.depth,
{
}

/// One quad as it is drawn: the key of its batch and its instance.
pub struct Draw<T, S> {
    pub texture: AssetHandle<T>,
    pub depth: i32,
    pub instance: QuadInstanceData<S>,
}

/// The batches after the quads `draws` were drawn, one after the other.
pub open spec fn batches_drawn_all<T, S>(batches: Seq<BatchView<T, S>>, draws: Seq<Draw<T, S>>) -> Seq<
    BatchView<T, S>,
>
    decreases draws.len(),
{
    if draws.len() == 0 {
        batches
    } else {
        batches_drawn(
            batches_drawn_all(batches, draws.drop_last()),
            draws.last().texture,
            draws.last().depth,
            draws.last().instance,
        )
    }
}

/// The instances of those among `draws` that have the key (`texture`,
/// `depth`), in the order in which they were drawn.
pub open spec fn instances_drawn_with<T, S>(draws: Seq<Draw<T, S>>, texture: AssetHandle<T>, depth: i32) -> Seq<
    QuadInstanceData<S>,
>
    decreases draws.len(),
{
    if draws.len() == 0 {
        Seq::empty()
    } else if draws.last().texture == texture && draws.last().depth == depth {
        instances_drawn_with(draws.drop_last(), texture, depth).push(draws.last().instance)
    } else {
        instances_drawn_with(draws.drop_last(), texture, depth)
    }
}

/// Drawing any number of quads sorts them by key and keeps their order:
/// each batch ends with what it held before and, behind that, the
/// instances of the quads of its key, in drawing order. No batch is lost or
/// changes its key or its buffer, and a key of which no quad was drawn gets
/// no batch.
pub proof fn lemma_draws_are_batched<T, S>(batches: Seq<BatchView<T, S>>, draws: Seq<Draw<T, S>>)
    requires
        distinct_keys(batches),
    ensures
        ({
            let after = batches_drawn_all(batches, draws);
            &&& distinct_keys(after)
            &&& after.len() >= batches.len()
            &&& forall|i: int|
                0 <= i < batches.len() ==> (#[trigger] after[i]).texture == batches[i].texture && after[i].depth
                    == batches[i].depth && after[i].capacity == batches[i].capacity
            &&& forall|i: int|
                0 <= i < after.len() ==> (#[trigger] after[i]).instances == (if i < batches.len() {
                    batches[i].instances
                } else {
                    Seq::empty()
                }) + instances_drawn_with(draws, after[i].texture, after[i].depth)
            &&& forall|texture: AssetHandle<T>, depth: i32|
                !has_batch(after, texture, depth) ==> (#[trigger] instances_drawn_with(draws, texture, depth)).len()
                    == 0
        }),
    decreases draws.len(),
{
    let after = batches_drawn_all(batches, draws);
    if draws.len() == 0 {
        assert forall|i: int| 0 <= i < after.len() implies (#[trigger] after[i]).instances == (if i
            < batches.len() {
            batches[i].instances
        } else {
            Seq::empty()
        }) + instances_drawn_with(draws, after[i].texture, after[i].depth) by {
            assert(after[i].instances =~= batches[i].instances + Seq::<QuadInstanceData<S>>::empty());
        }
    } else {
        let earlier = draws.drop_last();
        let last = draws.last();
        let before = batches_drawn_all(batches, earlier);
        lemma_draws_are_batched(batches, earlier);
        lemma_draw_appends(before, last.texture, last.depth, last.instance);
        assert forall|i: int| 0 <= i < after.len() implies (#[trigger] after[i]).instances == (if i
            < batches.len() {
            batches[i].instances
        } else {
            Seq::empty()
        }) + instances_drawn_with(draws, after[i].texture, after[i].depth) by {
            let held = if i < batches.len() {
                batches[i].instances
            } else {
                Seq::empty()
            };
            if i < before.len() {
                assert(after[i].texture == before[i].texture && after[i].depth == before[i].depth);
                assert(before[i].instances == held + instances_drawn_with(
                    earlier,
                    before[i].texture,
                    before[i].depth,
                ));
                if before[i].has_key(last.texture, last.depth) {
                    assert(after[i].has_key(last.texture, last.depth));
                    assert(after[i].instances =~= held + instances_drawn_with(
                        draws,
                        after[i].texture,
                        after[i].depth,
                    ));
                } else {
                    assert(after[i] == before[i]);
                }
            } else {
                assert(!has_batch(before, last.texture, last.depth));
                assert(after[i].has_key(last.texture, last.depth)) by {
                    assert(after =~= before.push(
                        BatchView {
                            texture: last.texture,
                            depth: last.depth,
                            instances: seq![last.instance],
                            capacity: None,
                        },
                    ));
                }
                assert(instances_drawn_with(earlier, last.texture, last.depth).len() == 0);
                assert(after[i].instances =~= held + instances_drawn_with(
                    draws,
                    after[i].texture,
                    after[i].depth,
                ));
            }
        }
        assert forall|texture: AssetHandle<T>, depth: i32| !has_batch(after, texture, depth) implies (
        #[trigger] instances_drawn_with(draws, texture, depth)).len() == 0 by {
            assert(after == batches_drawn(before, last.texture, last.depth, last.instance));
            assert(after.len() >= before.len());
            assert(has_batch(after, last.texture, last.depth));
            if has_batch(before, texture, depth) {
                let i = choose|i: int| 0 <= i < before.len() && (#[trigger] before[i]).has_key(texture, depth);
                assert(after[i].texture == before[i].texture && after[i].depth == before[i].depth);
                assert(after[i].has_key(texture, depth));
            }
            assert(!has_batch(before, texture, depth));
            assert(!(last.texture == texture && last.depth == depth));
            assert(instances_drawn_with(earlier, texture, depth).len() == 0);
        }
    }
}

/// The frame that follows `begin` holds what was drawn since and nothing
/// else, however many quads were drawn before and after it. Every draw
/// call of the frame draws, in drawing order, the instances of the quads of
/// its key that were drawn since `begin`, and every such quad is drawn by
/// the call of its key.
pub proof fn lemma_frame_holds_what_was_drawn<T, S, C>(
    renderer: Renderer2DView<T, S, C>,
    clear_color: C,
    camera: [S; 16],
    draws: Seq<Draw<T, S>>,
    plan: Seq<DrawCall<T>>,
)
    requires
        renderer.wf(),
        is_frame_plan(batches_drawn_all(renderer.begun(clear_color, camera).batches, draws), plan),
    ensures
        ({
            let batches = batches_drawn_all(renderer.begun(clear_color, camera).batches, draws);
            &&& distinct_keys(batches)
            &&& forall|i: int|
                0 <= i < batches.len() ==> (#[trigger] batches[i]).instances == instances_drawn_with(
                    draws,
                    batches[i].texture,
                    batches[i].depth,
                )
            &&& forall|k: int|
                0 <= k < plan.len() ==> {
                    &&& (#[trigger] plan[k]).instance_count == instances_drawn_with(
                        draws,
                        plan[k].texture,
                        plan[k].depth,
                    ).len()
                    &&& plan[k].instance_count > 0
                    &&& batches[plan[k].batch as int].instances == instances_drawn_with(
                        draws,
                        plan[k].texture,
                        plan[k].depth,
                    )
                }
            &&& forall|texture: AssetHandle<T>, depth: i32|
                (#[trigger] instances_drawn_with(draws, texture, depth)).len() > 0 ==> exists|k: int|
                    0 <= k < plan.len() && (#[trigger] plan[k]).texture == texture && plan[k].depth == depth
        }),
{
    let begun = renderer.begun(clear_color, camera);
    let batches = batches_drawn_all(begun.batches, draws);
    lemma_begin_clears(renderer, clear_color, camera, Seq::empty());
    lemma_draws_are_batched(begun.batches, draws);
    assert forall|i: int| 0 <= i < batches.len() implies (#[trigger] batches[i]).instances == instances_drawn_with(
        draws,
        batches[i].texture,
        batches[i].depth,
    ) by {
        if i < begun.batches.len() {
            assert(begun.batches[i].instances =~= Seq::empty());
        }
        assert(batches[i].instances =~= instances_drawn_with(draws, batches[i].texture, batches[i].depth));
    }
    lemma_one_call_per_key(batches, plan);
    assert forall|k: int| 0 <= k < plan.len() implies {
        &&& (#[trigger] plan[k]).instance_count == instances_drawn_with(draws, plan[k].texture, plan[k].depth).len()
        &&& plan[k].instance_count > 0
        &&& batches[plan[k].batch as int].instances == instances_drawn_with(draws, plan[k].texture, plan[k].depth)
    } by {
        assert(is_draw_call_of(batches, plan[k].batch as int, plan[k]));
    }
    assert forall|texture: AssetHandle<T>, depth: i32| (#[trigger] instances_drawn_with(
        draws,
        texture,
        depth,
    )).len() > 0 implies exists|k: int|
        0 <= k < plan.len() && (#[trigger] plan[k]).texture == texture && plan[k].depth == depth by {
        assert(has_batch(batches, texture, depth));
        let b = choose|b: int| 0 <= b < batches.len() && (#[trigger] batches[b]).has_key(texture, depth);
        assert(holds_instances(batches, b));
    }
}

} // verus!
