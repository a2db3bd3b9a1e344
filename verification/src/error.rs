use vstd::prelude::*;

verus! {

/// The ways reflection can fail. Every failure of building or resolving a
/// module is classified as exactly one of these kinds; the library never
/// formats prose for them.
#[derive(Clone, Copy, Debug, PartialEq, Eq, Structural)]
pub enum Error {
    /// The byte buffer's length is not a multiple of four.
    UnalignedBuffer,
    /// An instruction's declared word count is zero or runs past the end of
    /// the word buffer.
    TruncatedStream,
    /// The buffer is too short for a header, or the magic number, version
    /// word or ID bound is not acceptable.
    MalformedHeader,
    /// An instruction redefines an ID that already names a type or a
    /// variable.
    DuplicateDefinition,
    /// A resource variable lacks a descriptor-set or binding decoration.
    MissingBindingDecoration,
    /// A resource variable's type chain does not end in a recognized
    /// resource type.
    UnresolvableResourceType,
    /// Two resolved bindings share the same (set, binding) slot.
    DuplicateBindingSlot,
}

} // verus!
