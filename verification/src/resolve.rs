use vstd::prelude::*;

use crate::builder::{Tables, TablesView};
use crate::error::Error;
use crate::spirv::{
    DEC_BINDING, DEC_BUFFER_BLOCK, DEC_DESCRIPTOR_SET, DEC_INPUT_ATTACHMENT_INDEX,
    DIM_SUBPASS_DATA, SC_STORAGE_BUFFER, SC_UNIFORM, SC_UNIFORM_CONSTANT,
};
use crate::types::{
    alist_get, alist_lookup, bindings_view, copy_binding, lemma_alist_lookup_step,
    lemma_bindings_view_push, sets_view, BindingView, DecEntry, DescriptorSet, NameEntry,
    ResolvedBinding, ResourceKind, SetView, TypeDesc,
};

verus! {

// The resolution engine: a pure function of the built tables. It filters
// the variables to the resource storage classes, requires a
// descriptor-set and a binding decoration on each, walks the type chain
// to a terminal resource type, and accumulates the bindings in ascending
// (set, binding) order, rejecting a slot declared twice.

/// The first literal the decoration list holds for a target ID and a
/// decoration kind.
pub open spec fn dec_lookup(s: Seq<DecEntry>, target: u32, dec: u32) -> Option<u32>
    decreases s.len(),
{
    if s.len() == 0 {
        None
    } else if s[0].target == target && s[0].dec == dec {
        Some(s[0].literal)
    } else {
        dec_lookup(s.drop_first(), target, dec)
    }
}

proof fn lemma_dec_lookup_step(s: Seq<DecEntry>, target: u32, dec: u32, i: int)
    requires
        0 <= i < s.len(),
        !(s[i].target == target && s[i].dec == dec),
    ensures
        dec_lookup(s.skip(i), target, dec) == dec_lookup(s.skip(i + 1), target, dec),
{
    assert(s.skip(i).drop_first() =~= s.skip(i + 1));
    assert(s.skip(i)[0] == s[i]);
}

/// Finds the first decoration of a kind on a target, scanning in stream
/// order.
pub fn dec_get(s: &Vec<DecEntry>, target: u32, dec: u32) -> (r: Option<u32>)
    ensures
        r == dec_lookup(s@, target, dec),
{
    let mut i: usize = 0;
    proof {
        assert(s@.skip(0) =~= s@);
    }
    while i < s.len()
        invariant
            i <= s@.len(),
            dec_lookup(s@, target, dec) == dec_lookup(s@.skip(i as int), target, dec),
        decreases s@.len() - i,
    {
        if s[i].target == target && s[i].dec == dec {
            proof {
                assert(s@.skip(i as int)[0] == s@[i as int]);
            }
            return Some(s[i].literal);
        }
        proof {
            lemma_dec_lookup_step(s@, target, dec, i as int);
        }
        i = i + 1;
    }
    proof {
        assert(s@.skip(i as int) =~= Seq::<DecEntry>::empty());
    }
    None
}

/// Finds the debug name recorded for an ID, copied out.
pub fn name_get(names: &Vec<NameEntry>, id: u32) -> (r: Option<Vec<u8>>)
    ensures
        match r {
            Some(v) => alist_lookup(crate::builder::names_view(names@), id) == Some(v@),
            None => alist_lookup(crate::builder::names_view(names@), id) is None,
        },
{
    let ghost full = crate::builder::names_view(names@);
    let mut i: usize = 0;
    proof {
        assert(full.skip(0) =~= full);
    }
    while i < names.len()
        invariant
            i <= names@.len(),
            full == crate::builder::names_view(names@),
            alist_lookup(full, id) == alist_lookup(full.skip(i as int), id),
        decreases names@.len() - i,
    {
        proof {
            assert(full[i as int] == (names@[i as int].id, names@[i as int].bytes@));
        }
        if names[i].id == id {
            proof {
                assert(full.skip(i as int)[0] == full[i as int]);
            }
            return Some(crate::types::copy_bytes(&names[i].bytes));
        }
        proof {
            lemma_alist_lookup_step(full, id, i as int);
        }
        i = i + 1;
    }
    proof {
        assert(full.skip(i as int) =~= Seq::<(u32, Seq<u8>)>::empty());
    }
    None
}

/// Whether a storage class can carry a descriptor binding. Push-constant
/// storage is deliberately not here: such variables carry no set or
/// binding and are skipped, not rejected.
pub open spec fn resource_storage_class(storage: u32) -> bool {
    storage == SC_UNIFORM_CONSTANT || storage == SC_UNIFORM || storage == SC_STORAGE_BUFFER
}

/// Walks the type chain from `tid` through sized and runtime arrays to a
/// terminal type, multiplying up the element count; a runtime-sized array
/// makes the count the unbounded sentinel 0. The result is the terminal
/// type's ID and the count. A dangling reference, a missing or zero array
/// length, a count that leaves `u32`, or a cyclic chain (fuel runs out)
/// is unresolvable.
pub open spec fn spec_walk(
    types: Seq<(u32, TypeDesc)>,
    consts: Seq<(u32, u32)>,
    tid: u32,
    count: u32,
    fuel: nat,
) -> Result<(u32, u32), Error>
    decreases fuel,
{
    if fuel == 0 {
        Err(Error::UnresolvableResourceType)
    } else {
        match alist_lookup(types, tid) {
            None => Err(Error::UnresolvableResourceType),
            Some(td) => match td {
                TypeDesc::Array { elem, length_id } => match alist_lookup(consts, length_id) {
                    None => Err(Error::UnresolvableResourceType),
                    Some(n) => if n == 0 {
                        Err(Error::UnresolvableResourceType)
                    } else if count * n > u32::MAX {
                        Err(Error::UnresolvableResourceType)
                    } else {
                        spec_walk(types, consts, elem, (count * n) as u32, (fuel - 1) as nat)
                    },
                },
                TypeDesc::RuntimeArray { elem } => spec_walk(
                    types,
                    consts,
                    elem,
                    0,
                    (fuel - 1) as nat,
                ),
                _ => Ok((tid, count)),
            },
        }
    }
}

/// The executable type-chain walk, starting with count 1 and fuel enough
/// for any chain without a cycle.
pub fn walk_type(types: &Vec<(u32, TypeDesc)>, consts: &Vec<(u32, u32)>, tid0: u32) -> (r: Result<
    (u32, u32),
    Error,
>)
    ensures
        r == spec_walk(types@, consts@, tid0, 1, types@.len() as nat),
{
    let mut tid = tid0;
    let mut count: u32 = 1;
    let mut fuel: usize = types.len();
    while fuel > 0
        invariant
            fuel <= types@.len(),
            spec_walk(types@, consts@, tid0, 1, types@.len() as nat) == spec_walk(
                types@,
                consts@,
                tid,
                count,
                fuel as nat,
            ),
        decreases fuel,
    {
        match alist_get(types, tid) {
            None => {
                return Err(Error::UnresolvableResourceType);
            },
            Some(td) => match td {
                TypeDesc::Array { elem, length_id } => match alist_get(consts, length_id) {
                    None => {
                        return Err(Error::UnresolvableResourceType);
                    },
                    Some(n) => {
                        if n == 0 {
                            return Err(Error::UnresolvableResourceType);
                        }
                        proof {
                            assert((count as int) * (n as int) <= 0xFFFF_FFFFu64 * 0xFFFF_FFFFu64)
                                by (nonlinear_arith)
                                requires
                                    count <= 0xFFFF_FFFFu32,
                                    n <= 0xFFFF_FFFFu32,
                            ;
                        }
                        let prod = (count as u64) * (n as u64);
                        if prod > u32::MAX as u64 {
                            return Err(Error::UnresolvableResourceType);
                        }
                        count = prod as u32;
                        tid = elem;
                        fuel = fuel - 1;
                    },
                },
                TypeDesc::RuntimeArray { elem } => {
                    count = 0;
                    tid = elem;
                    fuel = fuel - 1;
                },
                _ => {
                    return Ok((tid, count));
                },
            },
        }
    }
    Err(Error::UnresolvableResourceType)
}

/// Classifies the terminal type `tid` of a variable `var_id` declared in
/// `storage`. A sampler type is a sampler; a sampled-image type is a
/// combined image and sampler, with the image traits of its image type; a
/// plain image type is an input attachment when its dimension is
/// subpass-data or the variable carries an input-attachment-index
/// decoration, a storage image when it is declared for storage access,
/// and a sampled image otherwise; a structure is a storage buffer in
/// storage-buffer storage, and in uniform storage a storage buffer under
/// the legacy buffer-block decoration and a uniform buffer otherwise.
/// Anything else is unresolvable. The result carries the kind and, for
/// image kinds, the dimension, multisample and arrayed traits.
pub open spec fn spec_classify(t: TablesView, var_id: u32, storage: u32, tid: u32) -> Result<
    (ResourceKind, u32, bool, bool),
    Error,
> {
    match alist_lookup(t.types, tid) {
        None => Err(Error::UnresolvableResourceType),
        Some(td) => match td {
            TypeDesc::Sampler => Ok((ResourceKind::Sampler, 0, false, false)),
            TypeDesc::SampledImage { image } => match alist_lookup(t.types, image) {
                Some(
                    TypeDesc::Image { dim, depth: _, arrayed, ms, sampled: _ },
                ) => Ok((ResourceKind::CombinedImageSampler, dim, ms != 0, arrayed != 0)),
                _ => Err(Error::UnresolvableResourceType),
            },
            TypeDesc::Image { dim, depth: _, arrayed, ms, sampled } => {
                if dim == DIM_SUBPASS_DATA || dec_lookup(
                    t.decorations,
                    var_id,
                    DEC_INPUT_ATTACHMENT_INDEX,
                ) is Some {
                    Ok((ResourceKind::InputAttachment, dim, ms != 0, arrayed != 0))
                } else if sampled == 2 {
                    Ok((ResourceKind::StorageImage, dim, ms != 0, arrayed != 0))
                } else {
                    Ok((ResourceKind::SampledImage, dim, ms != 0, arrayed != 0))
                }
            },
            TypeDesc::Struct => {
                if storage == SC_STORAGE_BUFFER {
                    Ok((ResourceKind::StorageBuffer, 0, false, false))
                } else if storage == SC_UNIFORM {
                    if dec_lookup(t.decorations, tid, DEC_BUFFER_BLOCK) is Some {
                        Ok((ResourceKind::StorageBuffer, 0, false, false))
                    } else {
                        Ok((ResourceKind::UniformBuffer, 0, false, false))
                    }
                } else {
                    Err(Error::UnresolvableResourceType)
                }
            },
            _ => Err(Error::UnresolvableResourceType),
        },
    }
}

/// The executable counterpart of `spec_classify`.
fn classify(t: &Tables, var_id: u32, storage: u32, tid: u32) -> (r: Result<
    (ResourceKind, u32, bool, bool),
    Error,
>)
    ensures
        r == spec_classify(t@, var_id, storage, tid),
{
    match alist_get(&t.types, tid) {
        None => Err(Error::UnresolvableResourceType),
        Some(td) => match td {
            TypeDesc::Sampler => Ok((ResourceKind::Sampler, 0, false, false)),
            TypeDesc::SampledImage { image } => match alist_get(&t.types, image) {
                Some(
                    TypeDesc::Image { dim, depth: _, arrayed, ms, sampled: _ },
                ) => Ok((ResourceKind::CombinedImageSampler, dim, ms != 0, arrayed != 0)),
                _ => Err(Error::UnresolvableResourceType),
            },
            TypeDesc::Image { dim, depth: _, arrayed, ms, sampled } => {
                if dim == DIM_SUBPASS_DATA || dec_get(
                    &t.decorations,
                    var_id,
                    DEC_INPUT_ATTACHMENT_INDEX,
                ).is_some() {
                    Ok((ResourceKind::InputAttachment, dim, ms != 0, arrayed != 0))
                } else if sampled == 2 {
                    Ok((ResourceKind::StorageImage, dim, ms != 0, arrayed != 0))
                } else {
                    Ok((ResourceKind::SampledImage, dim, ms != 0, arrayed != 0))
                }
            },
            TypeDesc::Struct => {
                if storage == SC_STORAGE_BUFFER {
                    Ok((ResourceKind::StorageBuffer, 0, false, false))
                } else if storage == SC_UNIFORM {
                    if dec_get(&t.decorations, tid, DEC_BUFFER_BLOCK).is_some() {
                        Ok((ResourceKind::StorageBuffer, 0, false, false))
                    } else {
                        Ok((ResourceKind::UniformBuffer, 0, false, false))
                    }
                } else {
                    Err(Error::UnresolvableResourceType)
                }
            },
            _ => Err(Error::UnresolvableResourceType),
        },
    }
}

/// How one variable resolves: skipped when its storage class carries no
/// binding; otherwise it needs both a descriptor-set and a binding
/// decoration, a pointer type, and a classifiable pointee chain.
pub open spec fn spec_resolve_var(t: TablesView, id: u32, v: crate::types::VarDecl) -> Result<
    Option<BindingView>,
    Error,
> {
    if !resource_storage_class(v.storage) {
        Ok(None)
    } else {
        match (dec_lookup(t.decorations, id, DEC_DESCRIPTOR_SET), dec_lookup(
            t.decorations,
            id,
            DEC_BINDING,
        )) {
            (Some(set), Some(binding)) => match alist_lookup(t.types, v.type_id) {
                Some(TypeDesc::Pointer { storage: _, pointee }) => match spec_walk(
                    t.types,
                    t.constants,
                    pointee,
                    1,
                    t.types.len() as nat,
                ) {
                    Ok((tid, count)) => match spec_classify(t, id, v.storage, tid) {
                        Ok((kind, dim, ms, arrayed)) => Ok(
                            Some(
                                BindingView {
                                    id,
                                    name: alist_lookup(t.names, id),
                                    set,
                                    binding,
                                    kind,
                                    count,
                                    input_attachment_index: match dec_lookup(
                                        t.decorations,
                                        id,
                                        DEC_INPUT_ATTACHMENT_INDEX,
                                    ) {
                                        Some(x) => x,
                                        None => 0,
                                    },
                                    dim,
                                    multisampled: ms,
                                    arrayed,
                                },
                            ),
                        ),
                        Err(e) => Err(e),
                    },
                    Err(e) => Err(e),
                },
                _ => Err(Error::UnresolvableResourceType),
            },
            _ => Err(Error::MissingBindingDecoration),
        }
    }
}

/// The executable counterpart of `spec_resolve_var`.
pub fn resolve_var(t: &Tables, id: u32, v: crate::types::VarDecl) -> (r: Result<
    Option<ResolvedBinding>,
    Error,
>)
    ensures
        match r {
            Ok(Some(b)) => spec_resolve_var(t@, id, v) == Ok::<Option<BindingView>, Error>(
                Some(b@),
            ),
            Ok(None) => spec_resolve_var(t@, id, v) == Ok::<Option<BindingView>, Error>(None),
            Err(e) => spec_resolve_var(t@, id, v) == Err::<Option<BindingView>, Error>(e),
        },
{
    if !(v.storage == SC_UNIFORM_CONSTANT || v.storage == SC_UNIFORM || v.storage
        == SC_STORAGE_BUFFER) {
        return Ok(None);
    }
    let seto = dec_get(&t.decorations, id, DEC_DESCRIPTOR_SET);
    let bindo = dec_get(&t.decorations, id, DEC_BINDING);
    let (set, binding) = match (seto, bindo) {
        (Some(s), Some(b)) => (s, b),
        _ => {
            return Err(Error::MissingBindingDecoration);
        },
    };
    let pointee = match alist_get(&t.types, v.type_id) {
        Some(TypeDesc::Pointer { storage: _, pointee }) => pointee,
        _ => {
            return Err(Error::UnresolvableResourceType);
        },
    };
    let (tid, count) = match walk_type(&t.types, &t.constants, pointee) {
        Ok(p) => p,
        Err(e) => {
            return Err(e);
        },
    };
    let (kind, dim, ms, arrayed) = match classify(t, id, v.storage, tid) {
        Ok(c) => c,
        Err(e) => {
            return Err(e);
        },
    };
    let name = name_get(&t.names, id);
    let input_attachment_index = match dec_get(&t.decorations, id, DEC_INPUT_ATTACHMENT_INDEX) {
        Some(x) => x,
        None => 0,
    };
    Ok(
        Some(
            ResolvedBinding {
                id,
                name,
                set,
                binding,
                kind,
                count,
                input_attachment_index,
                dim,
                multisampled: ms,
                arrayed,
            },
        ),
    )
}

/// The order of binding slots: by set index, then by binding index.
pub open spec fn binding_key_lt(a: BindingView, b: BindingView) -> bool {
    a.set < b.set || (a.set == b.set && a.binding < b.binding)
}

/// Two bindings laying claim to the same slot.
pub open spec fn binding_key_eq(a: BindingView, b: BindingView) -> bool {
    a.set == b.set && a.binding == b.binding
}

/// Every binding stands strictly before every later one: ascending sets,
/// and ascending bindings within a set, with no slot repeated.
pub open spec fn strictly_ordered(s: Seq<BindingView>) -> bool {
    forall|i: int, j: int| 0 <= i < j < s.len() ==> binding_key_lt(s[i], s[j])
}

/// Inserts a binding into a slot-ordered sequence at its slot's place, or
/// rejects it when its slot is already taken.
pub open spec fn spec_insert_sorted(s: Seq<BindingView>, b: BindingView) -> Result<
    Seq<BindingView>,
    Error,
>
    decreases s.len(),
{
    if s.len() == 0 {
        Ok(seq![b])
    } else if binding_key_lt(b, s[0]) {
        Ok(seq![b] + s)
    } else if binding_key_eq(b, s[0]) {
        Err(Error::DuplicateBindingSlot)
    } else {
        match spec_insert_sorted(s.drop_first(), b) {
            Ok(r) => Ok(seq![s[0]] + r),
            Err(e) => Err(e),
        }
    }
}

/// Where the scan for the insertion place stops, the recursive insertion
/// either finds the duplicate slot there or splices the binding in there.
proof fn lemma_insert_sorted_at(s: Seq<BindingView>, b: BindingView, idx: int)
    requires
        0 <= idx <= s.len(),
        forall|k: int| 0 <= k < idx ==> binding_key_lt(s[k], b),
        idx < s.len() ==> !binding_key_lt(s[idx], b),
    ensures
        idx < s.len() && binding_key_eq(b, s[idx]) ==> spec_insert_sorted(s, b) == Err::<
            Seq<BindingView>,
            Error,
        >(Error::DuplicateBindingSlot),
        !(idx < s.len() && binding_key_eq(b, s[idx])) ==> spec_insert_sorted(s, b) == Ok::<
            Seq<BindingView>,
            Error,
        >(s.take(idx) + seq![b] + s.skip(idx)),
    decreases idx,
{
    if idx == 0 {
        if s.len() == 0 {
            assert(s.take(0) + seq![b] + s.skip(0) =~= seq![b]);
        } else if binding_key_eq(b, s[0]) {
        } else {
            assert(binding_key_lt(b, s[0]));
            assert(s.take(0) + seq![b] + s.skip(0) =~= seq![b] + s);
        }
    } else {
        assert(binding_key_lt(s[0], b));
        assert(!binding_key_lt(b, s[0]));
        assert(!binding_key_eq(b, s[0]));
        lemma_insert_sorted_at(s.drop_first(), b, idx - 1);
        assert(idx < s.len() ==> s.drop_first()[idx - 1] == s[idx]);
        if idx < s.len() && binding_key_eq(b, s[idx]) {
        } else {
            assert(seq![s[0]] + (s.drop_first().take(idx - 1) + seq![b] + s.drop_first().skip(
                idx - 1,
            )) =~= s.take(idx) + seq![b] + s.skip(idx));
        }
    }
}

/// Splicing a binding into a binding vector splices its value into the
/// denoted sequence.
proof fn lemma_bindings_view_insert(s: Seq<ResolvedBinding>, i: int, b: ResolvedBinding)
    requires
        0 <= i <= s.len(),
    ensures
        bindings_view(s.insert(i, b)) == bindings_view(s).take(i) + seq![b@] + bindings_view(
            s,
        ).skip(i),
{
    assert(bindings_view(s.insert(i, b)) =~= bindings_view(s).take(i) + seq![b@] + bindings_view(
        s,
    ).skip(i));
}

fn binding_lt(a: &ResolvedBinding, b: &ResolvedBinding) -> (r: bool)
    ensures
        r == binding_key_lt(a@, b@),
{
    a.set < b.set || (a.set == b.set && a.binding < b.binding)
}

/// Places a binding at its slot's place in the ordered accumulator, or
/// reports the duplicate slot and leaves the accumulator unchanged.
pub fn insert_sorted(acc: &mut Vec<ResolvedBinding>, b: ResolvedBinding) -> (r: Result<(), Error>)
    ensures
        match r {
            Ok(_) => spec_insert_sorted(bindings_view(old(acc)@), b@) == Ok::<
                Seq<BindingView>,
                Error,
            >(bindings_view(final(acc)@)),
            Err(e) => spec_insert_sorted(bindings_view(old(acc)@), b@) == Err::<
                Seq<BindingView>,
                Error,
            >(e) && final(acc)@ == old(acc)@,
        },
{
    let ghost s = bindings_view(acc@);
    let mut idx: usize = 0;
    while idx < acc.len() && binding_lt(&acc[idx], &b)
        invariant
            idx <= acc@.len(),
            s == bindings_view(acc@),
            forall|k: int| 0 <= k < idx ==> binding_key_lt(s[k], b@),
        decreases acc@.len() - idx,
    {
        idx = idx + 1;
    }
    if idx < acc.len() && acc[idx].set == b.set && acc[idx].binding == b.binding {
        proof {
            lemma_insert_sorted_at(s, b@, idx as int);
        }
        return Err(Error::DuplicateBindingSlot);
    }
    proof {
        lemma_insert_sorted_at(s, b@, idx as int);
    }
    let ghost bv = b@;
    let ghost prev = acc@;
    acc.insert(idx, b);
    proof {
        lemma_bindings_view_insert(prev, idx as int, b);
        assert(bindings_view(acc@) == s.take(idx as int) + seq![bv] + s.skip(idx as int));
    }
    Ok(())
}

/// Resolves the variables from index `i` on, in declaration order, into
/// the slot-ordered accumulator.
pub open spec fn spec_resolve_from(t: TablesView, i: nat, acc: Seq<BindingView>) -> Result<
    Seq<BindingView>,
    Error,
>
    decreases t.variables.len() - i,
{
    if i >= t.variables.len() {
        Ok(acc)
    } else {
        let (id, v) = t.variables[i as int];
        match spec_resolve_var(t, id, v) {
            Err(e) => Err(e),
            Ok(None) => spec_resolve_from(t, i + 1, acc),
            Ok(Some(b)) => match spec_insert_sorted(acc, b) {
                Err(e) => Err(e),
                Ok(acc2) => spec_resolve_from(t, i + 1, acc2),
            },
        }
    }
}

/// All resolved bindings of a module's tables, in ascending (set,
/// binding) order, or the first error the declaration-order walk meets.
pub open spec fn spec_resolve_all(t: TablesView) -> Result<Seq<BindingView>, Error> {
    spec_resolve_from(t, 0, Seq::empty())
}

/// The executable resolution walk over the variable table.
pub fn resolve_all(t: &Tables) -> (r: Result<Vec<ResolvedBinding>, Error>)
    ensures
        match r {
            Ok(v) => spec_resolve_all(t@) == Ok::<Seq<BindingView>, Error>(bindings_view(v@)),
            Err(e) => spec_resolve_all(t@) == Err::<Seq<BindingView>, Error>(e),
        },
{
    let mut acc: Vec<ResolvedBinding> = Vec::new();
    proof {
        assert(bindings_view(acc@) =~= Seq::<BindingView>::empty());
    }
    let mut i: usize = 0;
    while i < t.variables.len()
        invariant
            i <= t.variables@.len(),
            t@.variables == t.variables@,
            spec_resolve_all(t@) == spec_resolve_from(t@, i as nat, bindings_view(acc@)),
        decreases t.variables@.len() - i,
    {
        let (id, v) = t.variables[i];
        let ghost accv = bindings_view(acc@);
        match resolve_var(t, id, v) {
            Err(e) => {
                return Err(e);
            },
            Ok(None) => {
                proof {
                    assert(spec_resolve_from(t@, i as nat, accv) == spec_resolve_from(
                        t@,
                        (i + 1) as nat,
                        accv,
                    ));
                }
                i = i + 1;
            },
            Ok(Some(b)) => {
                match insert_sorted(&mut acc, b) {
                    Err(e) => {
                        return Err(e);
                    },
                    Ok(_) => {
                        proof {
                            assert(spec_resolve_from(t@, i as nat, accv) == spec_resolve_from(
                                t@,
                                (i + 1) as nat,
                                bindings_view(acc@),
                            ));
                        }
                        i = i + 1;
                    },
                }
            },
        }
    }
    Ok(acc)
}

/// Groups a slot-ordered binding sequence into descriptor sets: each run
/// of one set index becomes one set, in the order the runs occur.
pub open spec fn spec_group_from(s: Seq<BindingView>, i: nat, acc: Seq<SetView>) -> Seq<SetView>
    decreases s.len() - i,
{
    if i >= s.len() {
        acc
    } else {
        let b = s[i as int];
        if acc.len() > 0 && acc.last().set == b.set {
            spec_group_from(
                s,
                i + 1,
                acc.update(
                    acc.len() - 1,
                    SetView { set: acc.last().set, bindings: acc.last().bindings.push(b) },
                ),
            )
        } else {
            spec_group_from(s, i + 1, acc.push(SetView { set: b.set, bindings: seq![b] }))
        }
    }
}

/// The descriptor sets a slot-ordered binding sequence denotes.
pub open spec fn spec_group(s: Seq<BindingView>) -> Seq<SetView> {
    spec_group_from(s, 0, Seq::empty())
}

/// The executable grouping of a slot-ordered binding vector.
pub fn group_bindings(flat: &Vec<ResolvedBinding>) -> (r: Vec<DescriptorSet>)
    ensures
        sets_view(r@) == spec_group(bindings_view(flat@)),
{
    let ghost s = bindings_view(flat@);
    let mut out: Vec<DescriptorSet> = Vec::new();
    proof {
        assert(sets_view(out@) =~= Seq::<SetView>::empty());
    }
    let mut i: usize = 0;
    while i < flat.len()
        invariant
            i <= flat@.len(),
            s == bindings_view(flat@),
            spec_group(s) == spec_group_from(s, i as nat, sets_view(out@)),
        decreases flat@.len() - i,
    {
        let ghost acc = sets_view(out@);
        let ghost out0 = out@;
        let b = copy_binding(&flat[i]);
        let ghost bv = b@;
        proof {
            assert(bv == s[i as int]);
        }
        let n = out.len();
        if n > 0 && out[n - 1].set == b.set {
            let mut d = out.remove(n - 1);
            let ghost mid = out@;
            let ghost dbindings = d.bindings@;
            d.bindings.push(b);
            proof {
                crate::types::lemma_bindings_view_push(dbindings, b);
            }
            out.push(d);
            proof {
                assert(mid =~= out0.drop_last());
                assert(sets_view(out@) =~= acc.update(
                    acc.len() - 1,
                    SetView { set: acc.last().set, bindings: acc.last().bindings.push(bv) },
                ));
            }
        } else {
            let bset = b.set;
            let mut bs: Vec<ResolvedBinding> = Vec::new();
            bs.push(b);
            proof {
                assert(bindings_view(bs@) =~= seq![bv]);
            }
            out.push(DescriptorSet { set: bset, bindings: bs });
            proof {
                assert(sets_view(out@) =~= acc.push(SetView { set: bv.set, bindings: seq![bv] }));
            }
        }
        i = i + 1;
    }
    out
}

} // verus!
