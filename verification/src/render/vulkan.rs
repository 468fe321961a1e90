//! Choices made while the Vulkan device is set up: which queue families carry
//! the graphical and the transfer queue, and which of the created queues is
//! which.
//!
//! Enumerating devices, asking the surface and creating the device stay with
//! the caller, which hands over what it learned of each queue family.

use vstd::prelude::*;
use vulkano::device::DeviceCreationError;
use vulkano_win::CreationError;

verus! {

#[verifier::external_type_specification]
#[verifier::external_body]
pub struct ExCreationError(CreationError);

#[verifier::external_type_specification]
#[verifier::external_body]
pub struct ExDeviceCreationError(DeviceCreationError);

/// Possible errors that may happen while the Vulkan state is created.
#[derive(Debug)]
pub enum VulkanStateError {
    /// Window or surface couldn't be created.
    CannotCreateWindow(CreationError),
    /// Cannot find requested GPU.
    GPUNotFound(usize),
    /// Graphical queue family couldn't be found.
    GraphicalQueueFamilyNotAvailable,
    /// Transfer queue family couldn't be found.
    TransferQueueFamilyNotAvailable,
    /// Device couldn't be created.
    CannotCreateDevice(DeviceCreationError),
    /// Graphical queue was requested but never created.
    GraphicalQueueNotCreated,
    /// Transfer queue was requested but never created.
    TransferQueueNotCreated,
}

/// What the set-up reads of one queue family of the chosen GPU.
#[derive(Clone, Copy, Debug, PartialEq, Eq, Structural)]
pub struct QueueFamilyCaps {
    /// The family supports graphics operations.
    pub supports_graphics: bool,
    /// The window's surface can be presented from this family.
    pub surface_supported: bool,
    /// The family declares transfer support explicitly.
    pub explicitly_supports_transfers: bool,
}

/// Whether a family can carry the queue of the kind asked for: the graphical
/// queue needs graphics and presentation to the surface, the transfer queue an
/// explicit transfer capability.
pub open spec fn qualifies(family: QueueFamilyCaps, graphical: bool) -> bool {
    if graphical {
        family.supports_graphics && family.surface_supported
    } else {
        family.explicitly_supports_transfers
    }
}

/// Some family of `families` can carry the queue of the kind asked for.
pub open spec fn has_family(families: Seq<QueueFamilyCaps>, graphical: bool) -> bool {
    exists|i: int| 0 <= i < families.len() && #[trigger] qualifies(families[i], graphical)
}

/// `i` is the first family of `families` that can carry the queue of the kind
/// asked for.
pub open spec fn is_first_family(families: Seq<QueueFamilyCaps>, i: int, graphical: bool) -> bool {
    &&& 0 <= i < families.len()
    &&& qualifies(families[i], graphical)
    &&& forall|j: int| 0 <= j < i ==> !#[trigger] qualifies(families[j], graphical)
}

/// The families chosen for the two queues, by their index among the GPU's
/// queue families.
#[derive(Clone, Copy, Debug, PartialEq, Eq, Structural)]
pub struct QueueFamilySelection {
    pub graphical: usize,
    pub transfer: usize,
}

/// Index of the first family that can carry the queue of the kind asked for.
fn find_first_family(families: &[QueueFamilyCaps], graphical: bool) -> (r: Option<usize>)
    ensures
        match r {
            Some(i) => is_first_family(families@, i as int, graphical),
            None => !has_family(families@, graphical),
        },
{
    let mut i: usize = 0;
    while i < families.len()
        invariant
            i <= families@.len(),
            forall|j: int| 0 <= j < i ==> !#[trigger] qualifies(families@[j], graphical),
        decreases families@.len() - i,
    {
        let f = families[i];
        let fits = if graphical {
            f.supports_graphics && f.surface_supported
        } else {
            f.explicitly_supports_transfers
        };
        if fits {
            return Some(i);
        }
        i = i + 1;
    }
    None
}

/// Chooses the queue families of the device: the graphical queue goes to the
/// first family that supports graphics and can present to the surface, the
/// transfer queue to the first family that supports transfers explicitly.
/// Without the first the error is `GraphicalQueueFamilyNotAvailable`; with it
/// but without the second, `TransferQueueFamilyNotAvailable`.
pub fn select_queue_families(families: &[QueueFamilyCaps]) -> (r: Result<
    QueueFamilySelection,
    VulkanStateError,
>)
    ensures
        !has_family(families@, true) ==> r matches Err(
            VulkanStateError::GraphicalQueueFamilyNotAvailable,
        ),
        has_family(families@, true) && !has_family(families@, false) ==> r matches Err(
            VulkanStateError::TransferQueueFamilyNotAvailable,
        ),
        r is Ok <==> has_family(families@, true) && has_family(families@, false),
        r matches Ok(s) ==> is_first_family(families@, s.graphical as int, true)
            && is_first_family(families@, s.transfer as int, false),
{
    let graphical = match find_first_family(families, true) {
        Some(i) => i,
        None => {
            return Err(VulkanStateError::GraphicalQueueFamilyNotAvailable);
        },
    };
    let transfer = match find_first_family(families, false) {
        Some(i) => i,
        None => {
            return Err(VulkanStateError::TransferQueueFamilyNotAvailable);
        },
    };
    Ok(QueueFamilySelection { graphical, transfer })
}

/// Takes the two queues the device was created with, in the order they were
/// requested: the graphical queue first, then the transfer queue. With no
/// queue the error is `GraphicalQueueNotCreated`, with one
/// `TransferQueueNotCreated`; queues past the second are dropped.
pub fn split_queues<Q>(queues: Vec<Q>) -> (r: Result<(Q, Q), VulkanStateError>)
    ensures
        queues@.len() == 0 ==> r matches Err(VulkanStateError::GraphicalQueueNotCreated),
        queues@.len() == 1 ==> r matches Err(VulkanStateError::TransferQueueNotCreated),
        queues@.len() >= 2 ==> r == Ok::<(Q, Q), VulkanStateError>((queues@[0], queues@[1])),
{
    let mut queues = queues;
    if queues.len() == 0 {
        return Err(VulkanStateError::GraphicalQueueNotCreated);
    }
    if queues.len() == 1 {
        return Err(VulkanStateError::TransferQueueNotCreated);
    }
    let graphical = queues.remove(0);
    let transfer = queues.remove(0);
    Ok((graphical, transfer))
}

} // verus!
