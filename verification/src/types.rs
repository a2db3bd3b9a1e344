use vstd::prelude::*;

verus! {

// The data model: the per-ID records the module builder collects, and the
// resolved binding values the resolution engine hands out. ID tables are
// kept as association lists in insertion order; a lookup finds the first
// entry for an ID, and the builder keeps the IDs of types and variables
// unique.

/// What the builder records of a type-defining instruction. Component
/// references are kept by ID and resolved only when a variable is
/// classified, so forward and self-referential declarations are harmless.
#[derive(Clone, Copy, Debug, PartialEq, Eq, Structural)]
pub enum TypeDesc {
    /// An image type: dimensionality, depth and arrayed markers, the
    /// multisample marker, and how the image is sampled.
    Image { dim: u32, depth: u32, arrayed: u32, ms: u32, sampled: u32 },
    /// A sampler type.
    Sampler,
    /// An image type pre-combined with a sampler; `image` is the ID of the
    /// underlying image type.
    SampledImage { image: u32 },
    /// A sized array; `length_id` names a constant holding the element
    /// count.
    Array { elem: u32, length_id: u32 },
    /// An array whose length is fixed only at run time.
    RuntimeArray { elem: u32 },
    /// A structure type; members play no part in binding resolution.
    Struct,
    /// A pointer in a storage class to a pointee type.
    Pointer { storage: u32, pointee: u32 },
    /// Any other recognized type-defining instruction (scalars, vectors,
    /// matrices, opaque types); never a resource on its own.
    Other,
}

/// A module-scope variable declaration: the ID of its (pointer) type and
/// its storage class.
#[derive(Clone, Copy, Debug, PartialEq, Eq, Structural)]
pub struct VarDecl {
    pub type_id: u32,
    pub storage: u32,
}

/// One decoration instruction: the decorated ID, the decoration kind, and
/// its first literal operand (zero when the decoration carries none).
#[derive(Clone, Copy, Debug, PartialEq, Eq, Structural)]
pub struct DecEntry {
    pub target: u32,
    pub dec: u32,
    pub literal: u32,
}

/// A debug name attached to an ID: the name's bytes, copied out of the
/// instruction stream up to its terminator.
#[derive(Clone, Debug, PartialEq, Eq)]
pub struct NameEntry {
    pub id: u32,
    pub bytes: Vec<u8>,
}

/// The classification of a resolved binding's resource.
#[derive(Clone, Copy, Debug, PartialEq, Eq, Structural)]
pub enum ResourceKind {
    Sampler,
    CombinedImageSampler,
    SampledImage,
    StorageImage,
    UniformBuffer,
    StorageBuffer,
    UniformBufferDynamic,
    StorageBufferDynamic,
    InputAttachment,
}

/// The mathematical value of one resolved binding.
pub ghost struct BindingView {
    pub id: u32,
    pub name: Option<Seq<u8>>,
    pub set: u32,
    pub binding: u32,
    pub kind: ResourceKind,
    pub count: u32,
    pub input_attachment_index: u32,
    pub dim: u32,
    pub multisampled: bool,
    pub arrayed: bool,
}

/// One resource binding as resolved from a module: the originating
/// variable's ID, its debug name if one was declared, its descriptor-set
/// and binding indices, its resource kind, and its element count (1 for a
/// scalar binding, the array length for a sized array, 0 for a
/// runtime-sized array). The image fields are meaningful for image-kind
/// bindings and zero or false otherwise. All fields are copied out of the
/// module; no value refers back into the word buffer.
#[derive(Clone, Debug, PartialEq, Eq)]
pub struct ResolvedBinding {
    pub id: u32,
    pub name: Option<Vec<u8>>,
    pub set: u32,
    pub binding: u32,
    pub kind: ResourceKind,
    pub count: u32,
    pub input_attachment_index: u32,
    pub dim: u32,
    pub multisampled: bool,
    pub arrayed: bool,
}

impl View for ResolvedBinding {
    type V = BindingView;

    open spec fn view(&self) -> BindingView {
        BindingView {
            id: self.id,
            name: match self.name {
                Some(ref v) => Some(v@),
                None => None,
            },
            set: self.set,
            binding: self.binding,
            kind: self.kind,
            count: self.count,
            input_attachment_index: self.input_attachment_index,
            dim: self.dim,
            multisampled: self.multisampled,
            arrayed: self.arrayed,
        }
    }
}

/// The mathematical value of one descriptor set.
pub ghost struct SetView {
    pub set: u32,
    pub bindings: Seq<BindingView>,
}

/// A descriptor set: its index and its bindings in ascending binding
/// order.
#[derive(Clone, Debug, PartialEq, Eq)]
pub struct DescriptorSet {
    pub set: u32,
    pub bindings: Vec<ResolvedBinding>,
}

/// The binding values a binding vector denotes.
pub open spec fn bindings_view(s: Seq<ResolvedBinding>) -> Seq<BindingView> {
    s.map_values(|b: ResolvedBinding| b@)
}

/// The set values a set vector denotes.
pub open spec fn sets_view(s: Seq<DescriptorSet>) -> Seq<SetView> {
    s.map_values(|d: DescriptorSet| d@)
}

impl View for DescriptorSet {
    type V = SetView;

    open spec fn view(&self) -> SetView {
        SetView { set: self.set, bindings: bindings_view(self.bindings@) }
    }
}

/// The first value an association list holds for an ID.
pub open spec fn alist_lookup<T>(s: Seq<(u32, T)>, id: u32) -> Option<T>
    decreases s.len(),
{
    if s.len() == 0 {
        None
    } else if s[0].0 == id {
        Some(s[0].1)
    } else {
        alist_lookup(s.drop_first(), id)
    }
}

/// A lookup sees only entries for the looked-up ID: skipping the front of
/// the list does not change the result while no entry for the ID is
/// skipped.
pub proof fn lemma_alist_lookup_step<T>(s: Seq<(u32, T)>, id: u32, i: int)
    requires
        0 <= i < s.len(),
        s[i].0 != id,
    ensures
        alist_lookup(s.skip(i), id) == alist_lookup(s.skip(i + 1), id),
{
    assert(s.skip(i).drop_first() =~= s.skip(i + 1));
    assert(s.skip(i)[0] == s[i]);
}

/// Finds the first entry for an ID, scanning in insertion order.
pub fn alist_get<T: Copy>(s: &Vec<(u32, T)>, id: u32) -> (r: Option<T>)
    ensures
        r == alist_lookup(s@, id),
{
    let mut i: usize = 0;
    proof {
        assert(s@.skip(0) =~= s@);
    }
    while i < s.len()
        invariant
            i <= s@.len(),
            alist_lookup(s@, id) == alist_lookup(s@.skip(i as int), id),
        decreases s@.len() - i,
    {
        if s[i].0 == id {
            proof {
                assert(s@.skip(i as int)[0] == s@[i as int]);
            }
            return Some(s[i].1);
        }
        proof {
            lemma_alist_lookup_step(s@, id, i as int);
        }
        i = i + 1;
    }
    proof {
        assert(s@.skip(i as int) =~= Seq::<(u32, T)>::empty());
    }
    None
}

/// Copies a byte vector.
pub fn copy_bytes(v: &Vec<u8>) -> (r: Vec<u8>)
    ensures
        r@ == v@,
{
    let mut r: Vec<u8> = Vec::new();
    let mut i: usize = 0;
    while i < v.len()
        invariant
            i <= v@.len(),
            r@ == v@.subrange(0, i as int),
        decreases v@.len() - i,
    {
        r.push(v[i]);
        proof {
            assert(v@.subrange(0, i + 1 as int) =~= v@.subrange(0, i as int).push(v@[i as int]));
        }
        i = i + 1;
    }
    proof {
        assert(v@.subrange(0, v@.len() as int) =~= v@);
    }
    r
}

/// Copies one resolved binding; the copy denotes the same value.
pub fn copy_binding(b: &ResolvedBinding) -> (r: ResolvedBinding)
    ensures
        r@ == b@,
{
    let name = match &b.name {
        Some(v) => Some(copy_bytes(v)),
        None => None,
    };
    ResolvedBinding {
        id: b.id,
        name,
        set: b.set,
        binding: b.binding,
        kind: b.kind,
        count: b.count,
        input_attachment_index: b.input_attachment_index,
        dim: b.dim,
        multisampled: b.multisampled,
        arrayed: b.arrayed,
    }
}

/// Appending a binding appends its value to the denoted sequence.
pub proof fn lemma_bindings_view_push(s: Seq<ResolvedBinding>, b: ResolvedBinding)
    ensures
        bindings_view(s.push(b)) == bindings_view(s).push(b@),
{
    assert(bindings_view(s.push(b)) =~= bindings_view(s).push(b@));
}

/// Appending a set appends its value to the denoted sequence.
pub proof fn lemma_sets_view_push(s: Seq<DescriptorSet>, d: DescriptorSet)
    ensures
        sets_view(s.push(d)) == sets_view(s).push(d@),
{
    assert(sets_view(s.push(d)) =~= sets_view(s).push(d@));
}

/// Copies one descriptor set; the copy denotes the same value.
pub fn copy_set(s: &DescriptorSet) -> (r: DescriptorSet)
    ensures
        r@ == s@,
{
    let mut bindings: Vec<ResolvedBinding> = Vec::new();
    let mut i: usize = 0;
    while i < s.bindings.len()
        invariant
            i <= s.bindings@.len(),
            bindings_view(bindings@) == bindings_view(s.bindings@).subrange(0, i as int),
        decreases s.bindings@.len() - i,
    {
        let ghost prev = bindings@;
        let b = copy_binding(&s.bindings[i]);
        let ghost bv = b@;
        bindings.push(b);
        proof {
            lemma_bindings_view_push(prev, b);
            assert(bindings_view(s.bindings@)[i as int] == s.bindings@[i as int]@);
            assert(bindings_view(bindings@) =~= bindings_view(s.bindings@).subrange(
                0,
                i + 1 as int,
            ));
        }
        i = i + 1;
    }
    proof {
        assert(bindings_view(s.bindings@).subrange(0, s.bindings@.len() as int) =~= bindings_view(
            s.bindings@,
        ));
    }
    DescriptorSet { set: s.set, bindings }
}

} // verus!
