//! The fixed vocabulary of access types: how a pass may use a resource at
//! one point of the schedule. The pairwise comparison of the previous and
//! the newly declared access decides whether a barrier is emitted.

use vstd::prelude::*;

verus! {

/// How a resource is used at one point in the graph. `Nothing` doubles as
/// the tag of a freshly created (uninitialized) resource and of an imported
/// resource whose owner declares no prior access.
#[derive(Clone, Copy, PartialEq, Eq, Structural, Debug)]
pub enum AccessType {
    Nothing,
    TransferRead,
    TransferWrite,
    ComputeShaderRead,
    ComputeShaderWrite,
    ColorAttachmentWrite,
    DepthStencilAttachmentWrite,
    IndexBuffer,
    IndirectBuffer,
    VertexShaderRead,
    FragmentShaderRead,
    AnyShaderReadSampled,
}

/// An access through which a pass may read a resource.
pub open spec fn spec_is_read_access(a: AccessType) -> bool {
    match a {
        AccessType::TransferRead => true,
        AccessType::ComputeShaderRead => true,
        AccessType::IndexBuffer => true,
        AccessType::IndirectBuffer => true,
        AccessType::VertexShaderRead => true,
        AccessType::FragmentShaderRead => true,
        AccessType::AnyShaderReadSampled => true,
        _ => false,
    }
}

/// An access through which a pass may write a resource.
pub open spec fn spec_is_write_access(a: AccessType) -> bool {
    match a {
        AccessType::TransferWrite => true,
        AccessType::ComputeShaderWrite => true,
        AccessType::ColorAttachmentWrite => true,
        AccessType::DepthStencilAttachmentWrite => true,
        _ => false,
    }
}

/// An access usable for a raster attachment declaration.
pub open spec fn spec_is_attachment_access(a: AccessType) -> bool {
    a == AccessType::ColorAttachmentWrite || a == AccessType::DepthStencilAttachmentWrite
}

#[verifier::when_used_as_spec(spec_is_read_access)]
pub fn is_read_access(a: AccessType) -> (r: bool)
    ensures
        r == spec_is_read_access(a),
{
    match a {
        AccessType::TransferRead => true,
        AccessType::ComputeShaderRead => true,
        AccessType::IndexBuffer => true,
        AccessType::IndirectBuffer => true,
        AccessType::VertexShaderRead => true,
        AccessType::FragmentShaderRead => true,
        AccessType::AnyShaderReadSampled => true,
        _ => false,
    }
}

#[verifier::when_used_as_spec(spec_is_write_access)]
pub fn is_write_access(a: AccessType) -> (r: bool)
    ensures
        r == spec_is_write_access(a),
{
    match a {
        AccessType::TransferWrite => true,
        AccessType::ComputeShaderWrite => true,
        AccessType::ColorAttachmentWrite => true,
        AccessType::DepthStencilAttachmentWrite => true,
        _ => false,
    }
}

#[verifier::when_used_as_spec(spec_is_attachment_access)]
pub fn is_attachment_access(a: AccessType) -> (r: bool)
    ensures
        r == spec_is_attachment_access(a),
{
    match a {
        AccessType::ColorAttachmentWrite => true,
        AccessType::DepthStencilAttachmentWrite => true,
        _ => false,
    }
}

/// Two consecutive accesses need a barrier exactly when the access changes:
/// repeating the same access (in particular a read after the same read) is
/// free, while any change of access requires one transition.
pub open spec fn spec_needs_barrier(prev: AccessType, next: AccessType) -> bool {
    prev != next
}

#[verifier::when_used_as_spec(spec_needs_barrier)]
pub fn needs_barrier(prev: AccessType, next: AccessType) -> (r: bool)
    ensures
        r == spec_needs_barrier(prev, next),
{
    prev != next
}

} // verus!
