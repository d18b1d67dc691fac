//! What is decided about the graphics card, said of the results of the decisions alone.

use vstd::prelude::*;

use crate::graphics::circles::Circle;
use crate::graphics::renderdoc::{init, trigger_capture, Capture, RenderDoc};
use crate::graphics::{
    any_graphics, pick_adapter, pick_color_format, pick_families, select_memory_type, suitable, ColorFormat, Families,
    Frames, MemoryType, PresentMode, Queue, QueueFamily, QueueGroups, Requirements, Viewport,
};
use crate::number::Real;

verus! {

/// A memory type is selected that every requirement allows for and that has all of the properties,
/// and it is the first such one. None is selected only if there is none.
pub proof fn law_first_suitable_memory(
    memory_types: &[MemoryType],
    requirements: &[Requirements],
    properties: u16,
    selected: Option<usize>,
)
    requires
        call_ensures(select_memory_type, (memory_types, requirements, properties), selected),
    ensures
        selected is Some ==> {
            &&& selected->0 < memory_types@.len()
            &&& memory_types@[selected->0 as int].properties & properties == properties
            &&& forall|i: int|
                0 <= i < requirements@.len() ==> (#[trigger] requirements@[i]).type_mask & (1u64
                    << (selected->0 as u64)) != 0
        },
        forall|other: int|
            0 <= other < (if selected is Some {
                selected->0 as int
            } else {
                memory_types@.len() as int
            }) ==> {
                ||| (#[trigger] memory_types@[other]).properties & properties != properties
                ||| exists|i: int|
                    0 <= i < requirements@.len() && (#[trigger] requirements@[i]).type_mask & (1u64
                        << (other as u64)) == 0
            },
{
    assert forall|other: int|
        0 <= other < (if selected is Some {
            selected->0 as int
        } else {
            memory_types@.len() as int
        }) implies {
        ||| (#[trigger] memory_types@[other]).properties & properties != properties
        ||| exists|i: int|
            0 <= i < requirements@.len() && (#[trigger] requirements@[i]).type_mask & (1u64 << (
            other as u64)) == 0
    } by {
        match selected {
            Some(id) => {
                assert(0 <= other < id);
            },
            None => {},
        }
        assert(!suitable(memory_types@, requirements@, properties, other));
    }
}

/// Families of queues are picked exactly if there is one for graphics: the first of these, and the
/// first one that is made for transfer if there is any.
pub proof fn law_families_picked(families: &[QueueFamily], picked: Option<Families>)
    requires
        call_ensures(pick_families, (families,), picked),
    ensures
        picked is None <==> forall|i: int|
            0 <= i < families@.len() ==> !(#[trigger] families@[i]).graphics,
        picked matches Some(Families::Single(graphics)) ==> {
            &&& graphics < families@.len() && families@[graphics as int].graphics
            &&& forall|i: int| 0 <= i < graphics ==> !(#[trigger] families@[i]).graphics
            &&& forall|i: int| 0 <= i < families@.len() ==> !(#[trigger] families@[i]).transfer
        },
        picked matches Some(Families::Separate { graphics, transfer }) ==> {
            &&& graphics < families@.len() && families@[graphics as int].graphics
            &&& forall|i: int| 0 <= i < graphics ==> !(#[trigger] families@[i]).graphics
            &&& transfer < families@.len() && families@[transfer as int].transfer
            &&& forall|i: int| 0 <= i < transfer ==> !(#[trigger] families@[i]).transfer
        },
{
}

/// The first adapter that has a family for graphics is picked, and none only if there is none.
pub proof fn law_first_adapter_picked(
    adapters: Vec<Vec<QueueFamily>>,
    picked: Option<(usize, Families)>,
)
    requires
        call_ensures(pick_adapter, (&adapters,), picked),
    ensures
        picked is Some ==> {
            let adapter = (picked->0).0;
            let graphics = match (picked->0).1 {
                Families::Single(graphics) => graphics,
                Families::Separate { graphics, .. } => graphics,
            };
            &&& adapter < adapters@.len()
            &&& graphics < adapters@[adapter as int]@.len()
            &&& adapters@[adapter as int]@[graphics as int].graphics
            &&& forall|i: int|
                0 <= i < graphics ==> !(#[trigger] adapters@[adapter as int]@[i]).graphics
        },
        forall|other: int, i: int|
            0 <= other < (if picked is Some {
                (picked->0).0 as int
            } else {
                adapters@.len() as int
            }) && 0 <= i < adapters@[other]@.len() ==> !(
            #[trigger] adapters@[other]@[i]).graphics,
{
    assert forall|other: int, i: int|
        0 <= other < (if picked is Some {
            (picked->0).0 as int
        } else {
            adapters@.len() as int
        }) && 0 <= i < adapters@[other]@.len() implies !(
    #[trigger] adapters@[other]@[i]).graphics by {
        match picked {
            Some((adapter, families)) => {
                assert(0 <= other < adapter);
            },
            None => {},
        }
        assert(!any_graphics(adapters@[other]@));
    }
}

/// Of the color formats that are listed, the first preferred one is picked, or else the first one. If
/// none are listed, it is the default one.
pub proof fn law_preferred_format_picked(preferred: Option<Vec<bool>>, picked: ColorFormat)
    requires
        call_ensures(pick_color_format, (&preferred,), picked),
        preferred is Some ==> preferred->0@.len() > 0,
    ensures
        preferred is None <==> picked == ColorFormat::Default,
        preferred is Some ==> {
            let list = preferred->0@;
            &&& picked is Listed
            &&& picked->Listed_0 < list.len()
            &&& list[picked->Listed_0 as int] ==> forall|i: int|
                0 <= i < picked->Listed_0 ==> !#[trigger] list[i]
            &&& !list[picked->Listed_0 as int] ==> picked->Listed_0 == 0 && forall|i: int|
                0 <= i < list.len() ==> !#[trigger] list[i]
        },
{
    if preferred is Some {
        let list = preferred->0@;
        assert forall|i: int| 0 <= i < list.len() && #[trigger] list[i] implies list.contains(
            true,
        ) by {}
    }
}

/// Graphics go to the first graphics queue. Transfers go to a queue of their own if there is one, else
/// to the second graphics queue, else to the first.
pub proof fn law_queues(groups: QueueGroups, graphics: Queue, transfer: Queue)
    requires
        call_ensures(QueueGroups::graphics_queue, (&groups,), graphics),
        call_ensures(QueueGroups::transfer_queue, (&groups,), transfer),
    ensures
        graphics == Queue::Graphics(0),
        groups == QueueGroups::Separate ==> transfer == Queue::Transfer(0),
        groups is Single && groups->Single_0 >= 2 ==> transfer == Queue::Graphics(1),
        groups is Single && groups->Single_0 < 2 ==> transfer == Queue::Graphics(0),
{
}

/// A viewport covers all of a surface, and the longer axis is scaled down to fit a square.
pub proof fn law_viewport<F: Fn(i16, i16) -> Real>(
    width: u32,
    height: u32,
    viewport: Viewport,
    ratio: F,
    scale: [Real; 2],
)
    requires
        call_ensures(Viewport::new, (width, height), viewport),
        call_ensures(Viewport::scale::<F>, (&viewport, ratio), scale),
        width <= 0x7fff,
        height <= 0x7fff,
    ensures
        viewport.x == 0 && viewport.y == 0 && viewport.w == width && viewport.h == height,
        width > height ==> call_ensures(ratio, (viewport.h, viewport.w), scale@[0])
            && scale@[1].bits == 0x3f80_0000,
        width <= height ==> scale@[0].bits == 0x3f80_0000 && call_ensures(
            ratio,
            (viewport.w, viewport.h),
            scale@[1],
        ),
{
}

/// The swapchain is built anew exactly if that was asked for, the viewport has changed, or the last
/// frame could not be presented. What all shaders share is updated for the first frame, and after
/// that only when the viewport has changed. Two frames take turns.
pub proof fn law_frames(
    mode: PresentMode,
    other: PresentMode,
    start: Frames,
    drawn: &mut Frames,
    changed: &mut Frames,
    presented: bool,
    first_swapchain: bool,
    first_update: bool,
    next_swapchain: bool,
    next_update: bool,
    asked_swapchain: bool,
)
    requires
        call_ensures(Frames::new, (mode,), start),
        call_ensures(Frames::needs_swapchain, (&start,), first_swapchain),
        call_ensures(Frames::ubo_update, (&start,), first_update),
        call_ensures(Frames::next, (drawn, presented), ()),
        call_ensures(Frames::needs_swapchain, (final(drawn),), next_swapchain),
        call_ensures(Frames::ubo_update, (final(drawn),), next_update),
        call_ensures(Frames::set_present_mode, (changed, other), ()),
        call_ensures(Frames::needs_swapchain, (final(changed),), asked_swapchain),
        *old(changed) == *final(drawn),
        old(drawn).current_frame < 2,
    ensures
        start.present_mode == mode,
        !first_swapchain,
        first_update,
        next_swapchain == !presented,
        !next_update,
        final(drawn).present_mode == old(drawn).present_mode,
        final(drawn).current_frame == 1 - old(drawn).current_frame,
        asked_swapchain,
        final(changed).present_mode == other,
{
}

/// A new swapchain changes the viewport exactly if it has another one; then what all shaders share
/// has to be updated.
pub proof fn law_new_swapchain(
    frames: &mut Frames,
    before: Viewport,
    after: Viewport,
    update: bool,
    old_update: bool,
)
    requires
        call_ensures(Frames::swapchain_built, (frames, before, after), ()),
        call_ensures(Frames::ubo_update, (old(frames),), old_update),
        call_ensures(Frames::ubo_update, (final(frames),), update),
    ensures
        update <==> old_update || before != after,
        final(frames).current_frame == old(frames).current_frame,
        final(frames).present_mode == old(frames).present_mode,
        final(frames).swapchain_update == old(frames).swapchain_update,
{
}

/// A circle is described to the shaders by its radius, a padding word, its center, and its color,
/// which is opaque.
pub proof fn law_circle_words(circle: Circle, words: [u32; 8])
    requires
        call_ensures(Circle::push_constants, (&circle,), words),
    ensures
        words@[0] == circle.radius.bits,
        words@[1] == 0,
        words@[2] == circle.center.x.bits && words@[3] == circle.center.y.bits,
        words@[4] == circle.color.red.bits,
        words@[5] == circle.color.green.bits,
        words@[6] == circle.color.blue.bits,
        words@[7] == 0x3f80_0000,
{
}

/// Frames are captured exactly if the tool could be loaded, and as many as wanted.
pub proof fn law_captures(loaded: bool, rd: RenderDoc, n_frames: u32, capture: Capture)
    requires
        call_ensures(init, (loaded,), rd),
        call_ensures(trigger_capture, (&rd, n_frames), capture),
    ensures
        !loaded ==> capture == Capture::Nothing,
        loaded && n_frames == 1 ==> capture == Capture::NextFrame,
        loaded && n_frames != 1 ==> capture == Capture::NextFrames(n_frames),
{
}

} // verus!
