use vstd::prelude::*;

use crate::builder::{empty_tables, spec_run, TablesView};
use crate::error::Error;
use crate::module::{spec_build, ModuleView};
use crate::reader::spec_words;
use crate::resolve::{
    binding_key_eq, binding_key_lt, resource_storage_class, spec_group, spec_group_from,
    spec_insert_sorted, spec_resolve_all, spec_resolve_from, spec_resolve_var, strictly_ordered,
};
use crate::spirv::HEADER_WORDS;
use crate::types::BindingView;
use crate::types::SetView;

verus! {

// The laws of the library: what holds of every built module, proved from
// the specifications the executable functions are verified against.

/// An unaligned buffer is rejected as such, before any word or
/// instruction is looked at.
pub proof fn lemma_unaligned_rejected(bytes: Seq<u8>)
    requires
        bytes.len() % 4 != 0,
    ensures
        spec_build(bytes) == Err::<ModuleView, Error>(Error::UnalignedBuffer),
{
}

/// Building keeps the code size: a successfully built module's word
/// buffer spans exactly the bytes it was built from.
pub proof fn lemma_code_size_round_trip(bytes: Seq<u8>, m: ModuleView)
    requires
        spec_build(bytes) == Ok::<ModuleView, Error>(m),
    ensures
        m.words.len() * 4 == bytes.len(),
{
    assert(m.words == spec_words(bytes));
    assert(4 * (bytes.len() / 4) == bytes.len()) by {
        vstd::arithmetic::div_mod::lemma_fundamental_div_mod(bytes.len() as int, 4);
    }
}

/// Enumerating descriptor sets is deterministic: any two results read
/// from the same built module are identical.
pub proof fn lemma_descriptor_sets_deterministic(
    m: ModuleView,
    r1: Seq<SetView>,
    r2: Seq<SetView>,
)
    requires
        r1 == m.sets,
        r2 == m.sets,
    ensures
        r1 == r2,
{
}

/// Membership in a sequence with one binding in front.
proof fn lemma_cons_contains(h: BindingView, t: Seq<BindingView>, x: BindingView)
    ensures
        (seq![h] + t).contains(x) <==> (x == h || t.contains(x)),
{
    let c = seq![h] + t;
    if x == h {
        assert(c[0] == x);
    }
    if t.contains(x) {
        let i = choose|i: int| 0 <= i < t.len() && t[i] == x;
        assert(c[i + 1] == x);
    }
    if c.contains(x) {
        let i = choose|i: int| 0 <= i < c.len() && c[i] == x;
        if i != 0 {
            assert(t[i - 1] == x);
        }
    }
}

/// A successful ordered insertion keeps the sequence strictly ordered and
/// adds exactly the new binding.
proof fn lemma_insert_sorted_ok(s: Seq<BindingView>, b: BindingView, r: Seq<BindingView>)
    requires
        strictly_ordered(s),
        spec_insert_sorted(s, b) == Ok::<Seq<BindingView>, Error>(r),
    ensures
        strictly_ordered(r),
        forall|x: BindingView| r.contains(x) <==> (s.contains(x) || x == b),
    decreases s.len(),
{
    if s.len() == 0 {
        assert(r == seq![b]);
        assert forall|x: BindingView| r.contains(x) <==> (s.contains(x) || x == b) by {
            if x == b {
                assert(r[0] == x);
            }
            if r.contains(x) {
                let i = choose|i: int| 0 <= i < r.len() && r[i] == x;
                assert(x == b);
            }
            if s.contains(x) {
                let i = choose|i: int| 0 <= i < s.len() && s[i] == x;
                assert(false);
            }
        }
    } else if binding_key_lt(b, s[0]) {
        assert(r == seq![b] + s);
        assert forall|i: int, j: int| 0 <= i < j < r.len() implies binding_key_lt(r[i], r[j]) by {
            if i == 0 {
                assert(r[j] == s[j - 1]);
                if j > 1 {
                    assert(binding_key_lt(s[0], s[j - 1]));
                }
            } else {
                assert(r[i] == s[i - 1]);
                assert(r[j] == s[j - 1]);
            }
        }
        assert forall|x: BindingView| r.contains(x) <==> (s.contains(x) || x == b) by {
            lemma_cons_contains(b, s, x);
        }
    } else if binding_key_eq(b, s[0]) {
        assert(false);
    } else {
        let tail = s.drop_first();
        assert(spec_insert_sorted(tail, b) is Ok);
        let r2 = spec_insert_sorted(tail, b)->Ok_0;
        assert(r == seq![s[0]] + r2);
        assert forall|i: int, j: int| 0 <= i < j < tail.len() implies binding_key_lt(
            tail[i],
            tail[j],
        ) by {
            assert(tail[i] == s[i + 1]);
            assert(tail[j] == s[j + 1]);
        }
        lemma_insert_sorted_ok(tail, b, r2);
        assert(binding_key_lt(s[0], b));
        assert forall|i: int, j: int| 0 <= i < j < r.len() implies binding_key_lt(r[i], r[j]) by {
            if i == 0 {
                assert(r[j] == r2[j - 1]);
                assert(r2.contains(r2[j - 1]));
                if tail.contains(r2[j - 1]) {
                    let k = choose|k: int| 0 <= k < tail.len() && tail[k] == r2[j - 1];
                    assert(tail[k] == s[k + 1]);
                    assert(binding_key_lt(s[0], s[k + 1]));
                }
            } else {
                assert(r[i] == r2[i - 1]);
                assert(r[j] == r2[j - 1]);
            }
        }
        assert forall|x: BindingView| r.contains(x) <==> (s.contains(x) || x == b) by {
            lemma_cons_contains(s[0], r2, x);
            assert(s =~= seq![s[0]] + tail);
            lemma_cons_contains(s[0], tail, x);
        }
    }
}

/// The resolution walk only ever extends a strictly ordered accumulator
/// into a strictly ordered result.
proof fn lemma_resolve_from_ordered(
    t: TablesView,
    i: nat,
    acc: Seq<BindingView>,
    flat: Seq<BindingView>,
)
    requires
        strictly_ordered(acc),
        spec_resolve_from(t, i, acc) == Ok::<Seq<BindingView>, Error>(flat),
    ensures
        strictly_ordered(flat),
    decreases t.variables.len() - i,
{
    if i >= t.variables.len() {
    } else {
        let (id, v) = t.variables[i as int];
        let rv = spec_resolve_var(t, id, v);
        if rv is Err {
            assert(false);
        } else if rv->Ok_0 is None {
            lemma_resolve_from_ordered(t, i + 1, acc, flat);
        } else {
            let b = rv->Ok_0->Some_0;
            let ins = spec_insert_sorted(acc, b);
            if ins is Err {
                assert(false);
            } else {
                lemma_insert_sorted_ok(acc, b, ins->Ok_0);
                lemma_resolve_from_ordered(t, i + 1, ins->Ok_0, flat);
            }
        }
    }
}

/// Whatever order a module declares its variables and decorations in, the
/// bindings it resolves to are strictly ordered by set, then binding.
pub proof fn lemma_resolved_ordered(t: TablesView, flat: Seq<BindingView>)
    requires
        spec_resolve_all(t) == Ok::<Seq<BindingView>, Error>(flat),
    ensures
        strictly_ordered(flat),
{
    lemma_resolve_from_ordered(t, 0, Seq::empty(), flat);
}

/// Order invariance: two resolutions that produce the same bindings —
/// however differently the two binaries ordered their declarations —
/// produce them in the same order and group them into identical
/// descriptor sets.
pub proof fn lemma_order_invariance(s1: Seq<BindingView>, s2: Seq<BindingView>)
    requires
        strictly_ordered(s1),
        strictly_ordered(s2),
        forall|x: BindingView| s1.contains(x) <==> s2.contains(x),
    ensures
        s1 == s2,
        spec_group(s1) == spec_group(s2),
    decreases s1.len(),
{
    if s1.len() == 0 {
        if s2.len() > 0 {
            assert(s2[0] == s2[0]);
            assert(s2.contains(s2[0]));
            assert(s1.contains(s2[0]));
            let i = choose|i: int| 0 <= i < s1.len() && s1[i] == s2[0];
            assert(false);
        }
        assert(s1 =~= s2);
    } else {
        assert(s1.contains(s1[0]));
        assert(s2.contains(s1[0]));
        let j = choose|j: int| 0 <= j < s2.len() && s2[j] == s1[0];
        assert(s2.contains(s2[0]));
        assert(s1.contains(s2[0]));
        let k = choose|k: int| 0 <= k < s1.len() && s1[k] == s2[0];
        if j > 0 && k > 0 {
            assert(binding_key_lt(s2[0], s2[j]));
            assert(binding_key_lt(s1[0], s1[k]));
            assert(false);
        }
        assert(s1[0] == s2[0]);
        let t1 = s1.drop_first();
        let t2 = s2.drop_first();
        assert forall|i: int, j2: int| 0 <= i < j2 < t1.len() implies binding_key_lt(
            t1[i],
            t1[j2],
        ) by {
            assert(t1[i] == s1[i + 1]);
            assert(t1[j2] == s1[j2 + 1]);
        }
        assert forall|i: int, j2: int| 0 <= i < j2 < t2.len() implies binding_key_lt(
            t2[i],
            t2[j2],
        ) by {
            assert(t2[i] == s2[i + 1]);
            assert(t2[j2] == s2[j2 + 1]);
        }
        assert forall|x: BindingView| t1.contains(x) <==> t2.contains(x) by {
            if t1.contains(x) {
                let i = choose|i: int| 0 <= i < t1.len() && t1[i] == x;
                assert(s1[i + 1] == x);
                assert(binding_key_lt(s1[0], x));
                assert(s1.contains(x));
                assert(s2.contains(x));
                let j2 = choose|j2: int| 0 <= j2 < s2.len() && s2[j2] == x;
                assert(j2 != 0);
                assert(t2[j2 - 1] == x);
            }
            if t2.contains(x) {
                let i = choose|i: int| 0 <= i < t2.len() && t2[i] == x;
                assert(s2[i + 1] == x);
                assert(binding_key_lt(s2[0], x));
                assert(s2.contains(x));
                assert(s1.contains(x));
                let j2 = choose|j2: int| 0 <= j2 < s1.len() && s1[j2] == x;
                assert(j2 != 0);
                assert(t1[j2 - 1] == x);
            }
        }
        lemma_order_invariance(t1, t2);
        assert forall|k: int| 1 <= k < s1.len() implies s1[k] == s2[k] by {
            assert(t1[k - 1] == s1[k]);
            assert(t2[k - 1] == s2[k]);
        }
        assert(s1 =~= s2);
    }
}

/// The bindings of a grouped result, read set by set in order.
pub open spec fn flatten_sets(s: Seq<SetView>) -> Seq<BindingView>
    decreases s.len(),
{
    if s.len() == 0 {
        Seq::empty()
    } else {
        s[0].bindings + flatten_sets(s.drop_first())
    }
}

/// Appending a set appends its bindings.
proof fn lemma_flatten_push(s: Seq<SetView>, d: SetView)
    ensures
        flatten_sets(s.push(d)) == flatten_sets(s) + d.bindings,
    decreases s.len(),
{
    if s.len() == 0 {
        assert(s.push(d)[0] == d);
        assert(s.push(d).drop_first() =~= Seq::<SetView>::empty());
        assert(flatten_sets(Seq::<SetView>::empty()) == Seq::<BindingView>::empty());
        assert(flatten_sets(s.push(d)) =~= flatten_sets(s) + d.bindings);
    } else {
        assert(s.push(d)[0] == s[0]);
        assert(s.push(d).drop_first() =~= s.drop_first().push(d));
        lemma_flatten_push(s.drop_first(), d);
        assert(flatten_sets(s.push(d)) == s[0].bindings + flatten_sets(s.drop_first().push(d)));
        assert(flatten_sets(s) == s[0].bindings + flatten_sets(s.drop_first()));
        vstd::seq_lib::lemma_concat_associative(
            s[0].bindings,
            flatten_sets(s.drop_first()),
            d.bindings,
        );
    }
}

/// Extending the last set's bindings appends that binding.
proof fn lemma_flatten_update_last(s: Seq<SetView>, b: BindingView)
    requires
        s.len() > 0,
    ensures
        flatten_sets(
            s.update(
                s.len() - 1,
                SetView { set: s.last().set, bindings: s.last().bindings.push(b) },
            ),
        ) == flatten_sets(s) + seq![b],
    decreases s.len(),
{
    let d = SetView { set: s.last().set, bindings: s.last().bindings.push(b) };
    let s2 = s.update(s.len() - 1, d);
    if s.len() == 1 {
        assert(s2[0] == d);
        assert(s2.drop_first() =~= Seq::<SetView>::empty());
        assert(s.drop_first() =~= Seq::<SetView>::empty());
        assert(flatten_sets(s2) =~= flatten_sets(s) + seq![b]);
    } else {
        assert(s2[0] == s[0]);
        assert(s.drop_first().last() == s.last());
        assert(s2.drop_first() =~= s.drop_first().update(s.drop_first().len() - 1, d));
        lemma_flatten_update_last(s.drop_first(), b);
        assert(flatten_sets(s2) =~= flatten_sets(s) + seq![b]);
    }
}

/// Grouping loses no binding and adds none: read back in set order, the
/// grouped result is the flat ordered sequence it was built from.
proof fn lemma_group_from_flatten(s: Seq<BindingView>, i: nat, acc: Seq<SetView>)
    requires
        i <= s.len(),
    ensures
        flatten_sets(spec_group_from(s, i, acc)) == flatten_sets(acc) + s.skip(i as int),
    decreases s.len() - i,
{
    if i >= s.len() {
        assert(s.skip(i as int) =~= Seq::<BindingView>::empty());
        assert(flatten_sets(acc) + s.skip(i as int) =~= flatten_sets(acc));
    } else {
        let b = s[i as int];
        assert(s.skip(i as int) =~= seq![b] + s.skip(i as int + 1));
        if acc.len() > 0 && acc.last().set == b.set {
            let acc2 = acc.update(
                acc.len() - 1,
                SetView { set: acc.last().set, bindings: acc.last().bindings.push(b) },
            );
            lemma_flatten_update_last(acc, b);
            lemma_group_from_flatten(s, i + 1, acc2);
            assert((flatten_sets(acc) + seq![b]) + s.skip(i as int + 1) =~= flatten_sets(acc)
                + s.skip(i as int));
        } else {
            let d = SetView { set: b.set, bindings: seq![b] };
            lemma_flatten_push(acc, d);
            lemma_group_from_flatten(s, i + 1, acc.push(d));
            assert((flatten_sets(acc) + seq![b]) + s.skip(i as int + 1) =~= flatten_sets(acc)
                + s.skip(i as int));
        }
    }
}

/// Grouping preserves the bindings and their order.
pub proof fn lemma_group_preserves_bindings(s: Seq<BindingView>)
    ensures
        flatten_sets(spec_group(s)) == s,
{
    lemma_group_from_flatten(s, 0, Seq::empty());
    assert(flatten_sets(Seq::<SetView>::empty()) + s.skip(0) =~= s);
}

/// Uniqueness: within one built module no two resolved bindings share a
/// (set, binding) slot — across all descriptor sets.
pub proof fn lemma_unique_slots(bytes: Seq<u8>, m: ModuleView)
    requires
        spec_build(bytes) == Ok::<ModuleView, Error>(m),
    ensures
        forall|i: int, j: int|
            0 <= i < j < flatten_sets(m.sets).len() ==> !binding_key_eq(
                flatten_sets(m.sets)[i],
                flatten_sets(m.sets)[j],
            ),
{
    let w = spec_words(bytes);
    let tr = spec_run(empty_tables(), w, HEADER_WORDS as nat);
    assert(tr is Ok);
    let t = tr->Ok_0;
    let fr = spec_resolve_all(t);
    assert(fr is Ok);
    let flat = fr->Ok_0;
    assert(m.sets == spec_group(flat));
    lemma_resolved_ordered(t, flat);
    lemma_group_preserves_bindings(flat);
    assert forall|i: int, j: int| 0 <= i < j < flatten_sets(m.sets).len() implies !binding_key_eq(
        flatten_sets(m.sets)[i],
        flatten_sets(m.sets)[j],
    ) by {
        assert(binding_key_lt(flat[i], flat[j]));
    }
}

/// The shape every grouped result has: no set is empty, set indices
/// ascend strictly, every binding carries the index of the set that holds
/// it, and within one set the binding indices ascend strictly.
pub open spec fn sets_wf(sets: Seq<SetView>) -> bool {
    &&& forall|i: int| 0 <= i < sets.len() ==> (#[trigger] sets[i]).bindings.len() > 0
    &&& forall|i: int, k: int|
        0 <= i < sets.len() && 0 <= k < sets[i].bindings.len() ==> (#[trigger] sets[i].bindings[k]).set
            == sets[i].set
    &&& forall|i: int, j: int| 0 <= i < j < sets.len() ==> (#[trigger] sets[i]).set < (#[trigger] sets[j]).set
    &&& forall|i: int, k: int, l: int|
        0 <= i < sets.len() && 0 <= k < l < sets[i].bindings.len() ==> (#[trigger] sets[i].bindings[k]).binding
            < (#[trigger] sets[i].bindings[l]).binding
}

/// Grouping a strictly ordered binding sequence yields well-shaped sets,
/// provided the accumulator is well shaped and ends strictly before the
/// next binding.
proof fn lemma_group_from_wf(s: Seq<BindingView>, i: nat, acc: Seq<SetView>)
    requires
        strictly_ordered(s),
        i <= s.len(),
        sets_wf(acc),
        acc.len() > 0 && i < s.len() ==> acc.last().set <= s[i as int].set,
        acc.len() > 0 && i < s.len() ==> binding_key_lt(
            acc.last().bindings.last(),
            s[i as int],
        ),
    ensures
        sets_wf(spec_group_from(s, i, acc)),
    decreases s.len() - i,
{
    if i >= s.len() {
    } else {
        let b = s[i as int];
        if acc.len() > 0 && acc.last().set == b.set {
            let last = acc.last();
            let d = SetView { set: last.set, bindings: last.bindings.push(b) };
            let acc2 = acc.update(acc.len() - 1, d);
            assert(binding_key_lt(last.bindings.last(), b));
            assert(last.bindings.last().binding < b.binding);
            assert forall|x: int, k: int, l: int|
                0 <= x < acc2.len() && 0 <= k < l < acc2[x].bindings.len() implies acc2[x].bindings[k].binding
                < acc2[x].bindings[l].binding by {
                if x == acc2.len() - 1 && l == d.bindings.len() - 1 {
                    assert(d.bindings[l] == b);
                    assert(d.bindings[k] == last.bindings[k]);
                    if k < last.bindings.len() - 1 {
                        assert(last.bindings[k].binding < last.bindings.last().binding);
                    }
                }
            }
            assert(sets_wf(acc2));
            if i + 1 < s.len() {
                assert(binding_key_lt(b, s[i as int + 1]));
            }
            lemma_group_from_wf(s, i + 1, acc2);
        } else {
            let d = SetView { set: b.set, bindings: seq![b] };
            let acc2 = acc.push(d);
            if acc.len() > 0 {
                assert(acc.last().set < b.set);
            }
            assert forall|x: int, j: int| 0 <= x < j < acc2.len() implies acc2[x].set
                < acc2[j].set by {
                if j == acc2.len() - 1 {
                    assert(acc2[x] == acc[x]);
                    if x < acc.len() - 1 {
                        assert(acc[x].set < acc.last().set);
                    }
                }
            }
            assert(sets_wf(acc2));
            if i + 1 < s.len() {
                assert(binding_key_lt(b, s[i as int + 1]));
            }
            lemma_group_from_wf(s, i + 1, acc2);
        }
    }
}

/// The descriptor sets of every built module are well shaped: ascending
/// set indices, no empty set, every binding under its set's index, and
/// strictly ascending binding indices within each set.
pub proof fn lemma_sets_well_formed(bytes: Seq<u8>, m: ModuleView)
    requires
        spec_build(bytes) == Ok::<ModuleView, Error>(m),
    ensures
        sets_wf(m.sets),
{
    let w = spec_words(bytes);
    let tr = spec_run(empty_tables(), w, HEADER_WORDS as nat);
    assert(tr is Ok);
    let t = tr->Ok_0;
    let fr = spec_resolve_all(t);
    assert(fr is Ok);
    let flat = fr->Ok_0;
    assert(m.sets == spec_group(flat));
    lemma_resolved_ordered(t, flat);
    lemma_group_from_wf(flat, 0, Seq::empty());
}

/// Empty-resource handling: a module that builds successfully while none
/// of its variables is in a resource storage class declares no descriptor
/// set at all — an empty result, not an error.
pub proof fn lemma_no_resources_empty(bytes: Seq<u8>, m: ModuleView)
    requires
        spec_build(bytes) == Ok::<ModuleView, Error>(m),
        forall|k: int|
            0 <= k < m.tables.variables.len() ==> !resource_storage_class(
                #[trigger] m.tables.variables[k].1.storage,
            ),
    ensures
        m.sets.len() == 0,
{
    let w = spec_words(bytes);
    let tr = spec_run(empty_tables(), w, HEADER_WORDS as nat);
    assert(tr is Ok);
    let t = tr->Ok_0;
    assert(t == m.tables);
    let fr = spec_resolve_all(t);
    assert(fr is Ok);
    let flat = fr->Ok_0;
    lemma_resolve_from_skips(t, 0, Seq::empty());
    assert(flat =~= Seq::<BindingView>::empty());
    assert(m.sets == spec_group(flat));
}

/// When no variable from index `i` on is in a resource storage class, the
/// walk returns its accumulator unchanged.
proof fn lemma_resolve_from_skips(t: TablesView, i: nat, acc: Seq<BindingView>)
    requires
        forall|k: int|
            0 <= k < t.variables.len() ==> !resource_storage_class(
                #[trigger] t.variables[k].1.storage,
            ),
    ensures
        spec_resolve_from(t, i, acc) == Ok::<Seq<BindingView>, Error>(acc),
    decreases t.variables.len() - i,
{
    if i >= t.variables.len() {
    } else {
        lemma_resolve_from_skips(t, i + 1, acc);
    }
}

} // verus!
