//! What is decided about the graphics card, and what each frame takes.

use vstd::prelude::*;

use crate::number::{Real, ONE};

pub mod circles;
pub mod laws;
pub mod renderdoc;

verus! {

/// The maximum number of frames in flight.
pub const MAX_FRAMES: usize = 2;

/// The size of what all shaders share in bytes: two numbers.
pub const GLOBAL_UBO_SIZE: u64 = 8;

/// A kind of memory of a graphics card, with one bit for each of its properties.
#[derive(Copy, Clone, Debug)]
pub struct MemoryType {
    pub properties: u16,
}

/// What a resource requires of the memory that it is kept in: one bit for each memory type that
/// will do.
#[derive(Copy, Clone, Debug)]
pub struct Requirements {
    pub type_mask: u64,
}

/// Whether a memory type has all of some properties.
pub open spec fn has_properties(memory: MemoryType, properties: u16) -> bool {
    memory.properties & properties == properties
}

/// Whether all requirements allow for the memory type at `id`.
pub open spec fn allowed(requirements: Seq<Requirements>, id: int) -> bool {
    forall|i: int|
        0 <= i < requirements.len() ==> (#[trigger] requirements[i]).type_mask & (1u64 << (
        id as u64)) != 0
}

/// Whether the memory type at `id` satisfies all requirements with the given properties.
pub open spec fn suitable(
    memory_types: Seq<MemoryType>,
    requirements: Seq<Requirements>,
    properties: u16,
    id: int,
) -> bool {
    &&& 0 <= id < memory_types.len()
    &&& allowed(requirements, id)
    &&& has_properties(memory_types[id], properties)
}

/// Whether no memory type at all satisfies all requirements with the given properties.
pub open spec fn none_suitable(
    memory_types: Seq<MemoryType>,
    requirements: Seq<Requirements>,
    properties: u16,
) -> bool {
    forall|id: int| !#[trigger] suitable(memory_types, requirements, properties, id)
}

/// Picks a memory type satisfying `requirements` with `properties`,
/// or returns `None` if none could be found.
pub fn select_memory_type(
    memory_types: &[MemoryType],
    requirements: &[Requirements],
    properties: u16,
) -> (selected: Option<usize>)
    requires
        memory_types@.len() <= 64,
    ensures
        match selected {
            Some(id) => {
                &&& suitable(memory_types@, requirements@, properties, id as int)
                &&& forall|other: int|
                    0 <= other < id ==> !#[trigger] suitable(
                        memory_types@,
                        requirements@,
                        properties,
                        other,
                    )
            },
            None => forall|other: int| !#[trigger]
                suitable(memory_types@, requirements@, properties, other),
        },
        selected is None ==> none_suitable(memory_types@, requirements@, properties),
{
    let mut type_mask: u64 = !0u64;
    let mut at: usize = 0;
    proof {
        assert(forall|id: u64| id < 64 ==> #[trigger] (1u64 << id) & !0u64 != 0) by (bit_vector);
        assert forall|id: u64| id < 64 implies #[trigger] (!0u64 & (1u64 << id)) != 0 by {
            assert((1u64 << id) & !0u64 == !0u64 & (1u64 << id)) by (bit_vector);
            assert((1u64 << id) & !0u64 != 0);
        }
    }
    while at < requirements.len()
        invariant
            at <= requirements@.len(),
            forall|id: u64|
                id < 64 ==> (#[trigger] (type_mask & (1u64 << id)) != 0 <==> allowed(
                    requirements@.take(at as int),
                    id as int,
                )),
        decreases requirements@.len() - at,
    {
        let mask: u64 = requirements[at].type_mask;
        let before: u64 = type_mask;
        type_mask = mask & type_mask;
        proof {
            assert forall|id: u64| id < 64 implies (#[trigger] (type_mask & (1u64 << id)) != 0
                <==> allowed(requirements@.take(at + 1), id as int)) by {
                assert((mask & before) & (1u64 << id) != 0 <==> mask & (1u64 << id) != 0 && before
                    & (1u64 << id) != 0) by (bit_vector)
                    requires
                        id < 64,
                ;
                lemma_allowed_one_more(requirements@, at as int, id as int);
            }
        }
        at = at + 1;
    }
    assert(requirements@.take(requirements@.len() as int) =~= requirements@);
    let mut id: usize = 0;
    while id < memory_types.len()
        invariant
            id <= memory_types@.len() <= 64,
            forall|id: u64|
                id < 64 ==> (#[trigger] (type_mask & (1u64 << id)) != 0 <==> allowed(
                    requirements@,
                    id as int,
                )),
            forall|other: int|
                0 <= other < id ==> !#[trigger] suitable(
                    memory_types@,
                    requirements@,
                    properties,
                    other,
                ),
        decreases memory_types@.len() - id,
    {
        let bit: u64 = 1u64 << (id as u64);
        if type_mask & bit != 0 && memory_types[id].properties & properties == properties {
            return Some(id);
        }
        id = id + 1;
    }
    None
}

proof fn lemma_allowed_one_more(requirements: Seq<Requirements>, at: int, id: int)
    requires
        0 <= at < requirements.len(),
    ensures
        allowed(requirements.take(at + 1), id) <==> allowed(requirements.take(at), id)
            && requirements[at].type_mask & (1u64 << (id as u64)) != 0,
{
    let more = requirements.take(at + 1);
    let less = requirements.take(at);
    if allowed(more, id) {
        assert forall|i: int| 0 <= i < less.len() implies (#[trigger] less[i]).type_mask & (1u64
            << (id as u64)) != 0 by {
            assert(more[i] == less[i]);
        }
        assert(more[at] == requirements[at]);
    }
    if allowed(less, id) && requirements[at].type_mask & (1u64 << (id as u64)) != 0 {
        assert forall|i: int| 0 <= i < more.len() implies (#[trigger] more[i]).type_mask & (1u64
            << (id as u64)) != 0 by {
            if i < at {
                assert(more[i] == less[i]);
            }
        }
    }
}

/// What a family of queues can be used for.
#[derive(Copy, Clone, Debug, PartialEq, Eq, Structural)]
pub struct QueueFamily {
    /// Transfer, and nothing else.
    pub transfer: bool,
    /// Graphics that can be shown on the surface in question.
    pub graphics: bool,
}

/// Which families of queues to use.
#[derive(Copy, Clone, Debug, PartialEq, Eq, Structural)]
pub enum Families {
    Single(usize),
    Separate { graphics: usize, transfer: usize },
}

/// Whether this is the first family that is made for transfer.
pub open spec fn first_transfer(families: Seq<QueueFamily>, at: int) -> bool {
    &&& 0 <= at < families.len()
    &&& families[at].transfer
    &&& forall|i: int| 0 <= i < at ==> !(#[trigger] families[i]).transfer
}

/// Whether this is the first family that can be used for graphics.
pub open spec fn first_graphics(families: Seq<QueueFamily>, at: int) -> bool {
    &&& 0 <= at < families.len()
    &&& families[at].graphics
    &&& forall|i: int| 0 <= i < at ==> !(#[trigger] families[i]).graphics
}

/// Whether any family can be used for graphics.
pub open spec fn any_graphics(families: Seq<QueueFamily>) -> bool {
    exists|i: int| 0 <= i < families.len() && (#[trigger] families[i]).graphics
}

/// Whether any family is made for transfer.
pub open spec fn any_transfer(families: Seq<QueueFamily>) -> bool {
    exists|i: int| 0 <= i < families.len() && (#[trigger] families[i]).transfer
}

/// Picks the families of queues of an adapter to use, if there is any for graphics.
///
/// This tries to get a separate graphics and transfer queue,
/// since that's apparently faster.
pub fn pick_families(families: &[QueueFamily]) -> (picked: Option<Families>)
    ensures
        match picked {
            None => !any_graphics(families@),
            Some(Families::Single(graphics)) => {
                &&& first_graphics(families@, graphics as int)
                &&& !any_transfer(families@)
            },
            Some(Families::Separate { graphics, transfer }) => {
                &&& first_graphics(families@, graphics as int)
                &&& first_transfer(families@, transfer as int)
            },
        },
{
    let mut graphics: Option<usize> = None;
    let mut transfer: Option<usize> = None;
    let mut at: usize = 0;
    while at < families.len()
        invariant
            at <= families@.len(),
            match graphics {
                Some(first) => first < at && first_graphics(families@, first as int),
                None => forall|i: int| 0 <= i < at ==> !(#[trigger] families@[i]).graphics,
            },
            match transfer {
                Some(first) => first < at && first_transfer(families@, first as int),
                None => forall|i: int| 0 <= i < at ==> !(#[trigger] families@[i]).transfer,
            },
        decreases families@.len() - at,
    {
        if families[at].graphics && graphics.is_none() {
            graphics = Some(at);
        }
        if families[at].transfer && transfer.is_none() {
            transfer = Some(at);
        }
        at = at + 1;
    }
    match graphics {
        None => None,
        Some(graphics) => match transfer {
            None => Some(Families::Single(graphics)),
            Some(transfer) => Some(Families::Separate { graphics, transfer }),
        },
    }
}

/// Whether no family of any adapter can be used for graphics.
pub open spec fn none_with_graphics(adapters: Seq<Vec<QueueFamily>>) -> bool {
    forall|i: int| 0 <= i < adapters.len() ==> !any_graphics((#[trigger] adapters[i])@)
}

/// Picks the first adapter with a graphics queue family, and the families of queues to use.
pub fn pick_adapter(adapters: &Vec<Vec<QueueFamily>>) -> (picked: Option<(usize, Families)>)
    ensures
        match picked {
            Some((adapter, families)) => {
                &&& adapter < adapters@.len()
                &&& any_graphics(adapters@[adapter as int]@)
                &&& forall|i: int|
                    0 <= i < adapter ==> !any_graphics((#[trigger] adapters@[i])@)
                &&& match families {
                    Families::Single(graphics) => {
                        &&& first_graphics(adapters@[adapter as int]@, graphics as int)
                        &&& !any_transfer(adapters@[adapter as int]@)
                    },
                    Families::Separate { graphics, transfer } => {
                        &&& first_graphics(adapters@[adapter as int]@, graphics as int)
                        &&& first_transfer(adapters@[adapter as int]@, transfer as int)
                    },
                }
            },
            None => forall|i: int|
                0 <= i < adapters@.len() ==> !any_graphics((#[trigger] adapters@[i])@),
        },
        picked is None ==> none_with_graphics(adapters@),
{
    let mut at: usize = 0;
    while at < adapters.len()
        invariant
            at <= adapters@.len(),
            forall|i: int| 0 <= i < at ==> !any_graphics((#[trigger] adapters@[i])@),
        decreases adapters@.len() - at,
    {
        let families: &Vec<QueueFamily> = &adapters[at];
        if let Some(picked) = pick_families(families.as_slice()) {
            return Some((at, picked));
        }
        at = at + 1;
    }
    None
}

/// Which color format to use.
#[derive(Copy, Clone, Debug, PartialEq, Eq, Structural)]
pub enum ColorFormat {
    /// The surface takes any, so it is the default one.
    Default,
    /// One of those that the surface lists.
    Listed(usize),
}

/// Picks a color format: the first one of the preferred kind, else the first one.
///
/// `preferred` says of all formats that the surface lists whether they are of that kind.
pub fn pick_color_format(preferred: &Option<Vec<bool>>) -> (picked: ColorFormat)
    requires
        preferred matches Some(list) ==> list@.len() > 0,
    ensures
        match preferred {
            None => picked == ColorFormat::Default,
            Some(list) => {
                &&& picked matches ColorFormat::Listed(at)
                &&& at < list@.len()
                &&& if list@.contains(true) {
                    list@[at as int] && forall|i: int| 0 <= i < at ==> !#[trigger] list@[i]
                } else {
                    at == 0
                }
            },
        },
{
    match preferred {
        None => ColorFormat::Default,
        Some(list) => {
            let mut at: usize = 0;
            while at < list.len()
                invariant
                    *preferred == Some(*list),
                    at <= list@.len(),
                    forall|i: int| 0 <= i < at ==> !#[trigger] list@[i],
                decreases list@.len() - at,
            {
                if list[at] {
                    assert(list@.contains(true)) by {
                        assert(list@[at as int] == true);
                    }
                    return ColorFormat::Listed(at);
                }
                at = at + 1;
            }
            ColorFormat::Listed(0)
        },
    }
}

/// This exists because nvidia GPUs have a separate queue family that
/// only supports transfer, but is faster than the generic graphics
/// queue family at transfering. Other GPUs don't appear have this, so
/// both need to be supported.
#[derive(Copy, Clone, Debug, PartialEq, Eq, Structural)]
pub enum QueueGroups {
    /// The count of queues of the only group.
    Single(usize),
    Separate,
}

/// One of the queues.
#[derive(Copy, Clone, Debug, PartialEq, Eq, Structural)]
pub enum Queue {
    Graphics(usize),
    Transfer(usize),
}

impl QueueGroups {
    /// Gets the main graphics command queue.
    ///
    /// This is always the first queue for the graphics queue group.
    pub fn graphics_queue(&self) -> (queue: Queue)
        ensures
            queue == Queue::Graphics(0),
    {
        Queue::Graphics(0)
    }

    /// Gets the main transfer command queue.
    ///
    /// If there is not a separate transfer queue, this is the second
    /// graphics queue. If there is only one graphics queue, it just
    /// returns the same queue as a call to `graphics_queue`
    pub fn transfer_queue(&self) -> (queue: Queue)
        ensures
            queue == (match self {
                QueueGroups::Single(queues) => if *queues > 1 {
                    Queue::Graphics(1)
                } else {
                    Queue::Graphics(0)
                },
                QueueGroups::Separate => Queue::Transfer(0),
            }),
    {
        match self {
            QueueGroups::Single(queues) => {
                if *queues > 1 {
                    Queue::Graphics(1)
                } else {
                    Queue::Graphics(0)
                }
            },
            QueueGroups::Separate => Queue::Transfer(0),
        }
    }
}

/// When frames are shown.
#[derive(Copy, Clone, Debug, PartialEq, Eq, Structural)]
pub enum PresentMode {
    Immediate,
    Relaxed,
    Fifo,
    Mailbox,
}

/// The part of the screen that is drawn to.
#[derive(Copy, Clone, Debug, PartialEq, Eq, Structural)]
pub struct Viewport {
    pub x: i16,
    pub y: i16,
    pub w: i16,
    pub h: i16,
}

impl Viewport {
    /// All of a surface of the given size.
    pub fn new(width: u32, height: u32) -> (viewport: Viewport)
        ensures
            viewport == (Viewport { x: 0, y: 0, w: width as i16, h: height as i16 }),
    {
        Viewport {
            x: 0,
            y: 0,
            w: #[verifier::truncate] (width as i16),
            h: #[verifier::truncate] (height as i16),
        }
    }

    /// How the axes have to be scaled to fit a square onto the screen.
    ///
    /// `ratio` divides two lengths.
    pub fn scale<F: Fn(i16, i16) -> Real>(&self, ratio: F) -> (scale: [Real; 2])
        requires
            call_requires(ratio, (self.h, self.w)),
            call_requires(ratio, (self.w, self.h)),
        ensures
            self.h < self.w ==> call_ensures(ratio, (self.h, self.w), scale@[0]) && scale@[1].bits
                == ONE,
            self.h >= self.w ==> scale@[0].bits == ONE && call_ensures(
                ratio,
                (self.w, self.h),
                scale@[1],
            ),
    {
        if self.h < self.w {
            [ratio(self.h, self.w), Real { bits: ONE }]
        } else {
            [Real { bits: ONE }, ratio(self.w, self.h)]
        }
    }
}

/// What has to be done about a frame, apart from drawing it.
#[derive(Copy, Clone, Debug)]
pub struct Frames {
    pub present_mode: PresentMode,
    /// Which of the frames in flight is the next one.
    pub current_frame: usize,
    pub swapchain_update: bool,
    pub viewport_update: bool,
    pub first_frame: bool,
}

impl Frames {
    pub open spec fn wf(self) -> bool {
        self.current_frame < MAX_FRAMES
    }

    /// Whether what all shaders share has to be updated.
    pub open spec fn updates_ubo(self) -> bool {
        self.first_frame || self.viewport_update
    }

    /// Whether the swapchain has to be built anew.
    pub open spec fn rebuilds(self) -> bool {
        self.swapchain_update || self.viewport_update
    }

    /// The next frame, after one has been drawn.
    pub open spec fn after(self, presented: bool) -> Frames {
        Frames {
            present_mode: self.present_mode,
            current_frame: ((self.current_frame + 1) % MAX_FRAMES as int) as usize,
            swapchain_update: !presented,
            viewport_update: false,
            first_frame: false,
        }
    }

    /// Nothing has been drawn yet.
    pub fn new(present_mode: PresentMode) -> (frames: Frames)
        ensures
            frames.wf(),
            frames == (Frames {
                present_mode,
                current_frame: 0,
                swapchain_update: false,
                viewport_update: false,
                first_frame: true,
            }),
    {
        Frames {
            present_mode,
            current_frame: 0,
            swapchain_update: false,
            viewport_update: false,
            first_frame: true,
        }
    }

    /// Changes when frames are shown, which takes a new swapchain.
    pub fn set_present_mode(&mut self, present_mode: PresentMode)
        requires
            old(self).wf(),
        ensures
            final(self).wf(),
            *final(self) == (Frames { present_mode, swapchain_update: true, ..*old(self) }),
    {
        self.present_mode = present_mode;
        self.swapchain_update = true;
    }

    /// Returns whether the swapchain has to be built anew.
    pub fn needs_swapchain(&self) -> (needed: bool)
        ensures
            needed == self.rebuilds(),
    {
        self.swapchain_update || self.viewport_update
    }

    /// Takes a new swapchain into account.
    pub fn swapchain_built(&mut self, before: Viewport, after: Viewport)
        requires
            old(self).wf(),
        ensures
            final(self).wf(),
            *final(self) == (Frames {
                viewport_update: old(self).viewport_update || before != after,
                ..*old(self)
            }),
    {
        if before != after {
            self.viewport_update = true;
        }
    }

    /// Returns whether what all shaders share has to be updated.
    pub fn ubo_update(&self) -> (needed: bool)
        ensures
            needed == self.updates_ubo(),
    {
        self.first_frame || self.viewport_update
    }

    /// Goes on to the next frame, after one has been drawn. If it could not be presented, the
    /// swapchain may be bad.
    pub fn next(&mut self, presented: bool)
        requires
            old(self).wf(),
        ensures
            final(self).wf(),
            *final(self) == old(self).after(presented),
    {
        self.current_frame = (self.current_frame + 1) % MAX_FRAMES;
        self.swapchain_update = false;
        self.viewport_update = false;
        self.first_frame = false;
        if !presented {
            self.swapchain_update = true;
        }
    }
}

/// What all shaders share is updated for the first frame, and after that only when the viewport
/// has changed. The swapchain is only built anew when that is wanted or the last frame could
/// not be presented.
pub proof fn law_updates_only_when_needed(frames: Frames, presented: bool)
    requires
        frames.wf(),
    ensures
        !frames.after(presented).updates_ubo(),
        frames.after(presented).rebuilds() <==> !presented,
        frames.after(presented).present_mode == frames.present_mode,
{
}

/// A frame is drawn with what the frame before the last one was drawn with, so that there are
/// never more than `MAX_FRAMES` in flight.
pub proof fn law_frames_take_turns(frames: Frames, first: bool, second: bool)
    requires
        frames.wf(),
    ensures
        frames.after(first).current_frame != frames.current_frame,
        frames.after(first).after(second).current_frame == frames.current_frame,
{
}

} // verus!
